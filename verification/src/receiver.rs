//! What a receiver stores when it takes in a sequence of records: the model
//! against which an encoding is judged.

use crate::ihex::{CommandType, Record};
use vstd::prelude::*;

verus! {

/// One byte in the receiver's memory, with the 32-bit address it is stored at.
pub struct Stored {
    pub address: int,
    pub byte: u8,
}

/// The upper 16 bits of an address.
pub open spec fn high16(address: int) -> int {
    address / 0x1_0000
}

/// The lower 16 bits of an address.
pub open spec fn low16(address: int) -> int {
    address % 0x1_0000
}

/// The bank in force after `records`: the one that the last extended-address
/// record selected, and 0 before the first.
pub open spec fn bank_in_force(records: Seq<Record>) -> int
    decreases records.len(),
{
    if records.len() == 0 {
        0
    } else if records.last().command_type == CommandType::ExtendedAddress {
        records.last().selected_bank()
    } else {
        bank_in_force(records.drop_last())
    }
}

/// The bytes that one data record stores while `bank` is in force.
pub open spec fn block(bank: int, record: Record) -> Seq<Stored> {
    Seq::new(
        record.data.len(),
        |i: int| Stored { address: bank * 0x1_0000 + record.address + i, byte: record.data[i] },
    )
}

/// Every byte that `records` stores, in the order of arrival.  Only data
/// records store anything, each at its 16-bit address within the bank in
/// force.
pub open spec fn writes(records: Seq<Record>) -> Seq<Stored>
    decreases records.len(),
{
    if records.len() == 0 {
        Seq::empty()
    } else if records.last().command_type == CommandType::Data {
        writes(records.drop_last()) + block(bank_in_force(records.drop_last()), records.last())
    } else {
        writes(records.drop_last())
    }
}

/// An image stored byte after byte from `base` upwards.
pub open spec fn image_at(base: int, image: Seq<u8>) -> Seq<Stored> {
    Seq::new(image.len(), |i: int| Stored { address: base + i, byte: image[i] })
}

/// Whether the bytes of `stored` go to consecutive addresses from `base`.
pub open spec fn contiguous_from(base: int, stored: Seq<Stored>) -> bool {
    forall|i: int| 0 <= i < stored.len() ==> (#[trigger] stored[i]).address == base + i
}

/// The address that the first byte of record `index` is meant for, where the
/// image begins at `base`: `base` plus the bytes stored by the records before.
pub open spec fn intended_address(base: int, records: Seq<Record>, index: int) -> int {
    base + writes(records.take(index)).len()
}

/// What one more record adds to the bank in force and to the bytes stored.
pub proof fn lemma_push_record(records: Seq<Record>, record: Record)
    ensures
        bank_in_force(records.push(record)) == if record.command_type
            == CommandType::ExtendedAddress {
            record.selected_bank()
        } else {
            bank_in_force(records)
        },
        writes(records.push(record)) == if record.command_type == CommandType::Data {
            writes(records) + block(bank_in_force(records), record)
        } else {
            writes(records)
        },
{
    assert(records.push(record).drop_last() =~= records);
}

/// An image in two parts is stored as the first part, then the second after it.
pub proof fn lemma_image_at_concat(base: int, first: Seq<u8>, second: Seq<u8>)
    ensures
        image_at(base, first + second) == image_at(base, first) + image_at(
            base + first.len(),
            second,
        ),
{
}

/// A data record whose address is the low half of `target`, met while the
/// high half of `target` is in force, stores its payload from `target` on.
pub proof fn lemma_block_is_image(bank: int, record: Record, target: int)
    requires
        target == bank * 0x1_0000 + record.address,
    ensures
        block(bank, record) == image_at(target, record.data),
{
}

/// The records before `index` store a prefix of what all records store.
pub proof fn lemma_writes_prefix(records: Seq<Record>, index: int)
    requires
        0 <= index <= records.len(),
    ensures
        writes(records.take(index)).len() <= writes(records).len(),
        writes(records.take(index)) == writes(records).take(
            writes(records.take(index)).len() as int,
        ),
    decreases records.len() - index,
{
    if index == records.len() {
        assert(records.take(index) =~= records);
    } else {
        lemma_writes_prefix(records, index + 1);
        let longer = records.take(index + 1);
        assert(longer.drop_last() =~= records.take(index));
    }
}

/// Where the bank in force differs between two points of a sequence, a bank
/// record lies between them, and the last such record selects the later bank.
pub proof fn lemma_bank_change_has_record(records: Seq<Record>, from: int, to: int)
    requires
        0 <= from <= to <= records.len(),
        bank_in_force(records.take(from)) != bank_in_force(records.take(to)),
    ensures
        exists|k: int|
            from <= k < to && (#[trigger] records[k]).command_type == CommandType::ExtendedAddress
                && records[k].selected_bank() == bank_in_force(records.take(to)),
    decreases to - from,
{
    if from < to {
        assert(records.take(to).drop_last() =~= records.take(to - 1));
        if records[to - 1].command_type != CommandType::ExtendedAddress {
            // The last record before `to` changes nothing: look before it.
            lemma_bank_change_has_record(records, from, to - 1);
        }
    }
}

} // verus!
