//! Turns the chunks of a binary image into records, with a bank record
//! wherever the image passes a 64 KiB boundary.

use crate::ihex::{lemma_bank_record, CommandType, IntelHex, Record};
use crate::receiver::{
    bank_in_force, contiguous_from, high16, image_at, lemma_block_is_image,
    lemma_image_at_concat, lemma_push_record, low16, writes, Stored,
};
use crate::sequence::{is_command_sequence, records_of, CommandSequence};
use vstd::prelude::*;
use vstd::slice::slice_subrange;

verus! {

/// Why a chunk was refused.
#[derive(Copy, Clone, Debug, PartialEq, Eq, Structural)]
pub enum EncodeError {
    /// The chunk is longer than the 255 bytes that one record can carry.
    ChunkTooLong,
    /// The chunk would run past the end of the 32-bit address space.
    AddressOverflow,
}

/// The encoder's state, mathematically: where the image began, the bank that
/// the last bank record selected, the address of the next byte, and the
/// records emitted so far.
pub struct EncoderState {
    pub base: u32,
    pub current_bank: u16,
    pub current_offset: int,
    pub records: Seq<Record>,
}

impl EncoderState {
    /// The state after `begin`: the bank of `base` is selected and announced.
    pub open spec fn begin(base: u32) -> EncoderState {
        EncoderState {
            base,
            current_bank: high16(base as int) as u16,
            current_offset: base as int,
            records: seq![Record::extended_address(high16(base as int) as u16)],
        }
    }

    /// The number of bytes that still fit before the boundary of the current
    /// bank.  It is `0x10000 - (current_offset & 0xFFFF)` while the offset
    /// lies in the current bank, and 0 once the bank is full.
    pub open spec fn room(self) -> int {
        (self.current_bank + 1) * 0x1_0000 - self.current_offset
    }

    /// How many leading bytes of `chunk` go into the current bank.
    pub open spec fn fitting(self, chunk: Seq<u8>) -> int {
        if chunk.len() <= self.room() {
            chunk.len() as int
        } else {
            self.room()
        }
    }

    /// The state after a data record for `bytes` at the current offset.
    pub open spec fn emit_data(self, bytes: Seq<u8>) -> EncoderState {
        EncoderState {
            current_offset: self.current_offset + bytes.len(),
            records: self.records.push(
                Record::data(low16(self.current_offset) as u16, bytes),
            ),
            ..self
        }
    }

    /// The state after a bank record for the bank of the current offset.
    pub open spec fn change_bank(self) -> EncoderState {
        EncoderState {
            current_bank: high16(self.current_offset) as u16,
            records: self.records.push(
                Record::extended_address(high16(self.current_offset) as u16),
            ),
            ..self
        }
    }

    /// The reason for which `chunk` is refused in this state, if it is.
    pub open spec fn refusal(self, chunk: Seq<u8>) -> Option<EncodeError> {
        if chunk.len() > 255 {
            Some(EncodeError::ChunkTooLong)
        } else if self.current_offset + chunk.len() > 0x1_0000_0000 {
            Some(EncodeError::AddressOverflow)
        } else {
            None
        }
    }

    /// The state after `chunk`: a data record for the bytes that fit into the
    /// current bank, if any; then, if bytes are left, a bank record and a
    /// data record for the rest, which begins the next bank.
    pub open spec fn push_chunk(self, chunk: Seq<u8>) -> EncoderState {
        let n = self.fitting(chunk);
        let filled = if n > 0 {
            self.emit_data(chunk.take(n))
        } else {
            self
        };
        if n < chunk.len() {
            filled.change_bank().emit_data(chunk.skip(n))
        } else {
            filled
        }
    }

    /// The finished list: the records so far and one end-of-file record.
    pub open spec fn finish(self) -> Seq<Record> {
        self.records.push(Record::eof())
    }

    /// What holds of every state that `begin` and `push_chunk` reach.
    pub open spec fn valid(self) -> bool {
        &&& self.current_bank * 0x1_0000 <= self.current_offset <= (self.current_bank + 1)
            * 0x1_0000
        &&& self.records.len() >= 1
        &&& self.records.first() == Record::extended_address(high16(self.base as int) as u16)
        &&& forall|i: int|
            0 <= i < self.records.len() ==> (#[trigger] self.records[i]).regular()
                && self.records[i].command_type != CommandType::EOF
        &&& bank_in_force(self.records) == self.current_bank
        &&& contiguous_from(self.base as int, writes(self.records))
        &&& self.current_offset == self.base + writes(self.records).len()
    }
}

/// `begin` reaches a valid state that has stored nothing yet.
pub proof fn lemma_begin_valid(base: u32)
    ensures
        EncoderState::begin(base).valid(),
        writes(EncoderState::begin(base).records) == Seq::<Stored>::empty(),
{
    let bank: u16 = high16(base as int) as u16;
    let first = Record::extended_address(bank);
    lemma_bank_record(first, bank);
    lemma_push_record(Seq::empty(), first);
}

/// The room of a valid state is what is left of the 64 KiB around its offset,
/// `0x10000 - (current_offset & 0xFFFF)`, until the bank is full; then it is
/// 0, and the offset is the first address of the next bank.
pub proof fn lemma_room(state: EncoderState)
    requires
        state.valid(),
    ensures
        0 <= state.room() <= 0x1_0000,
        state.room() > 0 ==> state.room() == 0x1_0000 - low16(state.current_offset) && high16(
            state.current_offset,
        ) == state.current_bank,
        state.room() == 0 ==> low16(state.current_offset) == 0 && high16(state.current_offset)
            == state.current_bank + 1,
{
}

/// A data record for bytes that fit into the current bank keeps the state
/// valid and stores the bytes at the current offset.
pub proof fn lemma_emit_data(state: EncoderState, bytes: Seq<u8>)
    requires
        state.valid(),
        0 < bytes.len() <= 255,
        bytes.len() <= state.room(),
    ensures
        state.emit_data(bytes).valid(),
        writes(state.emit_data(bytes).records) == writes(state.records) + image_at(
            state.current_offset,
            bytes,
        ),
{
    let record = Record::data(low16(state.current_offset) as u16, bytes);
    lemma_room(state);
    lemma_push_record(state.records, record);
    lemma_block_is_image(state.current_bank as int, record, state.current_offset);
}

/// Once the current bank is full, and the address space is not, a bank record
/// for the next bank keeps the state valid and stores nothing.
pub proof fn lemma_change_bank(state: EncoderState)
    requires
        state.valid(),
        state.room() == 0,
        state.current_offset < 0x1_0000_0000,
    ensures
        state.change_bank().valid(),
        state.change_bank().current_bank == state.current_bank + 1,
        state.change_bank().room() == 0x1_0000,
        low16(state.current_offset) == 0,
        writes(state.change_bank().records) == writes(state.records),
{
    let bank: u16 = high16(state.current_offset) as u16;
    let record = Record::extended_address(bank);
    lemma_room(state);
    lemma_bank_record(record, bank);
    lemma_push_record(state.records, record);
}

/// An accepted chunk keeps the state valid, and the records it adds store the
/// chunk, byte after byte, from the offset at which it arrived.
pub proof fn lemma_push_chunk(state: EncoderState, chunk: Seq<u8>)
    requires
        state.valid(),
        state.refusal(chunk) is None,
    ensures
        state.push_chunk(chunk).valid(),
        state.push_chunk(chunk).base == state.base,
        state.push_chunk(chunk).current_offset == state.current_offset + chunk.len(),
        writes(state.push_chunk(chunk).records) == writes(state.records) + image_at(
            state.current_offset,
            chunk,
        ),
{
    let n = state.fitting(chunk);
    let filled = if n > 0 {
        state.emit_data(chunk.take(n))
    } else {
        state
    };
    if n > 0 {
        lemma_emit_data(state, chunk.take(n));
    }
    if n < chunk.len() {
        lemma_change_bank(filled);
        lemma_emit_data(filled.change_bank(), chunk.skip(n));
        lemma_image_at_concat(state.current_offset, chunk.take(n), chunk.skip(n));
    }
}

/// The end-of-file record closes every valid state into a command sequence
/// that stores what the state had stored.
pub proof fn lemma_finish(state: EncoderState)
    requires
        state.valid(),
    ensures
        is_command_sequence(state.finish()),
        writes(state.finish()) == writes(state.records),
{
    let finished = state.finish();
    lemma_push_record(state.records, Record::eof());
    lemma_bank_record(finished.first(), high16(state.base as int) as u16);
}

/// Consumes the chunks of an image in address order and builds its records.
pub struct RecordEncoder {
    base: u32,
    current_bank: u16,
    current_offset: u64,
    records: Vec<IntelHex>,
}

impl View for RecordEncoder {
    type V = EncoderState;

    closed spec fn view(&self) -> EncoderState {
        EncoderState {
            base: self.base,
            current_bank: self.current_bank,
            current_offset: self.current_offset as int,
            records: records_of(self.records@),
        }
    }
}

impl RecordEncoder {
    #[verifier::type_invariant]
    spec fn well_formed(self) -> bool {
        self@.valid()
    }

    /// Starts an image at `base_address` and emits the bank record for it.
    pub fn begin(base_address: u32) -> (encoder: RecordEncoder)
        ensures
            encoder@ == EncoderState::begin(base_address),
            encoder@.valid(),
    {
        let bank: u16 = (base_address >> 16) as u16;
        assert(bank == high16(base_address as int) as u16) by {
            assert((base_address >> 16) == base_address / 0x1_0000 && (base_address >> 16)
                < 0x1_0000) by (bit_vector);
        }
        let mut records: Vec<IntelHex> = Vec::new();
        records.push(IntelHex::extended_address_command(bank));
        proof {
            lemma_begin_valid(base_address);
            assert(records_of(records@) =~= seq![Record::extended_address(bank)]);
        }
        RecordEncoder {
            base: base_address,
            current_bank: bank,
            current_offset: base_address as u64,
            records,
        }
    }

    /// This encoder after a data record for `bytes` at the current offset.
    fn emit_data(self, bytes: &[u8]) -> (next: RecordEncoder)
        requires
            0 < bytes@.len() <= 255,
            bytes@.len() <= self@.room(),
        ensures
            next@ == self@.emit_data(bytes@),
    {
        proof {
            use_type_invariant(&self);
            lemma_emit_data(self@, bytes@);
        }
        let offset: u64 = self.current_offset;
        let address: u16 = (offset & 0xFFFF) as u16;
        assert(address == low16(offset as int) as u16) by {
            assert((offset & 0xFFFF) == offset % 0x1_0000 && (offset & 0xFFFF) < 0x1_0000)
                by (bit_vector);
        }
        let mut records: Vec<IntelHex> = self.records;
        records.push(IntelHex::data_command(address, bytes).unwrap());
        assert(records_of(records@) =~= self@.emit_data(bytes@).records);
        RecordEncoder {
            base: self.base,
            current_bank: self.current_bank,
            current_offset: offset + bytes.len() as u64,
            records,
        }
    }

    /// This encoder after the bank record for the bank of the current offset.
    fn change_bank(self) -> (next: RecordEncoder)
        requires
            self@.room() == 0,
            self@.current_offset < 0x1_0000_0000,
        ensures
            next@ == self@.change_bank(),
            next@.room() == 0x1_0000,
    {
        proof {
            use_type_invariant(&self);
            lemma_change_bank(self@);
        }
        let offset: u64 = self.current_offset;
        let bank: u16 = (offset >> 16) as u16;
        assert(bank == high16(offset as int) as u16) by {
            assert(offset < 0x1_0000_0000 ==> (offset >> 16) == offset / 0x1_0000 && (offset >> 16)
                < 0x1_0000) by (bit_vector);
        }
        let mut records: Vec<IntelHex> = self.records;
        records.push(IntelHex::extended_address_command(bank));
        assert(records_of(records@) =~= self@.change_bank().records);
        RecordEncoder { base: self.base, current_bank: bank, current_offset: offset, records }
    }

    /// Takes the next chunk of the image.  A chunk of more than 255 bytes, or
    /// one that would pass the last 32-bit address, is refused and changes
    /// nothing.  Otherwise the bytes that fit into the current bank go into
    /// one data record, and the rest, if any, into a second one behind the
    /// record of the next bank.
    pub fn push_chunk(&mut self, chunk: &[u8]) -> (result: Result<(), EncodeError>)
        ensures
            match old(self)@.refusal(chunk@) {
                Some(error) => result == Err::<(), EncodeError>(error) && final(self)@ == old(
                    self,
                )@,
                None => result is Ok && final(self)@ == old(self)@.push_chunk(chunk@),
            },
            old(self)@.valid(),
            final(self)@.valid(),
    {
        proof {
            use_type_invariant(&*self);
        }
        if chunk.len() > 255 {
            return Err(EncodeError::ChunkTooLong);
        }
        let length: u64 = chunk.len() as u64;
        if self.current_offset + length > 0x1_0000_0000 {
            return Err(EncodeError::AddressOverflow);
        }
        let boundary: u64 = (self.current_bank as u64 + 1) * 0x1_0000;
        let room: u64 = boundary - self.current_offset;
        let n: usize = if length <= room {
            chunk.len()
        } else {
            room as usize
        };
        // The state is taken out by value; a fresh encoder stands in for it
        // until the records are added.
        let mut state: RecordEncoder = RecordEncoder::begin(self.base);
        std::mem::swap(self, &mut state);
        if n > 0 {
            state = state.emit_data(slice_subrange(chunk, 0, n));
        }
        if n < chunk.len() {
            state = state.change_bank();
            state = state.emit_data(slice_subrange(chunk, n, chunk.len()));
        }
        proof {
            use_type_invariant(&state);
        }
        *self = state;
        Ok(())
    }

    /// Ends the image: appends the end-of-file record and hands out the
    /// command sequence.
    pub fn finish(self) -> (sequence: CommandSequence)
        ensures
            sequence@ == self@.finish(),
            is_command_sequence(sequence@),
            writes(sequence@) == writes(self@.records),
            self@.valid(),
    {
        proof {
            use_type_invariant(&self);
            lemma_finish(self@);
        }
        let mut records: Vec<IntelHex> = self.records;
        records.push(IntelHex::eof());
        assert(records_of(records@) =~= self@.finish());
        CommandSequence::seal(records)
    }
}

} // verus!
