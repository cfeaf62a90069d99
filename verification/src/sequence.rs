//! The finished list of records for one image.

use crate::ihex::{CommandType, IntelHex, Record};
use crate::receiver::{contiguous_from, writes, Stored};
use vstd::prelude::*;

verus! {

/// The records that a vector of `IntelHex` values stands for.
pub open spec fn records_of(records: Seq<IntelHex>) -> Seq<Record> {
    records.map_values(|hex: IntelHex| hex@)
}

/// The address of the first byte in `stored`, and 0 where nothing is stored.
pub open spec fn first_address(stored: Seq<Stored>) -> int {
    if stored.len() > 0 {
        stored[0].address
    } else {
        0
    }
}

/// What makes a list of records a command sequence: it opens with a bank
/// record, it closes with the only end-of-file record, every record is
/// regular, and the bytes it stores go to consecutive addresses, so that no
/// data record lies behind a bank boundary that no bank record announced.
pub open spec fn is_command_sequence(records: Seq<Record>) -> bool {
    &&& records.len() >= 2
    &&& records.first().is_bank_record()
    &&& records.last() == Record::eof()
    &&& forall|i: int|
        0 <= i < records.len() - 1 ==> (#[trigger] records[i]).command_type != CommandType::EOF
    &&& forall|i: int| 0 <= i < records.len() ==> (#[trigger] records[i]).regular()
    &&& contiguous_from(first_address(writes(records)), writes(records))
}

/// The ordered records of one image, fixed once encoding has finished.
pub struct CommandSequence {
    records: Vec<IntelHex>,
}

impl View for CommandSequence {
    type V = Seq<Record>;

    closed spec fn view(&self) -> Seq<Record> {
        records_of(self.records@)
    }
}

impl CommandSequence {
    #[verifier::type_invariant]
    spec fn well_formed(self) -> bool {
        is_command_sequence(records_of(self.records@))
    }

    /// Seals a list of records that has the shape of a command sequence.
    pub(crate) fn seal(records: Vec<IntelHex>) -> (sequence: CommandSequence)
        requires
            is_command_sequence(records_of(records@)),
        ensures
            sequence@ == records_of(records@),
    {
        CommandSequence { records }
    }

    /// The number of records, which is at least two.
    pub fn len(&self) -> (len: usize)
        ensures
            len == self@.len(),
            is_command_sequence(self@),
    {
        proof {
            use_type_invariant(self);
        }
        self.records.len()
    }

    /// The record at `index`, in transmission order, if there is one.
    pub fn get(&self, index: usize) -> (record: Option<&IntelHex>)
        ensures
            index < self@.len() ==> record is Some && record->Some_0@ == self@[index as int],
            index >= self@.len() ==> record is None,
    {
        if index < self.records.len() {
            Some(&self.records[index])
        } else {
            None
        }
    }

    /// The line of every record, in transmission order.
    pub fn lines(&self) -> (lines: Vec<String>)
        ensures
            lines@.len() == self@.len(),
            forall|i: int| 0 <= i < self@.len() ==> (#[trigger] lines@[i])@ == self@[i].line(),
    {
        let mut lines: Vec<String> = Vec::new();
        let mut i: usize = 0;
        while i < self.records.len()
            invariant
                i <= self.records@.len(),
                lines@.len() == i,
                forall|k: int|
                    0 <= k < i ==> (#[trigger] lines@[k])@ == records_of(self.records@)[k].line(),
            decreases self.records@.len() - i,
        {
            lines.push(self.records[i].to_string());
            i += 1;
        }
        lines
    }
}

} // verus!
