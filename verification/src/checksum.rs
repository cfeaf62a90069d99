//! The one-byte checksum that closes every record.

use vstd::prelude::*;

verus! {

/// The sum of all bytes of `bytes`, as a mathematical integer.
pub open spec fn byte_sum(bytes: Seq<u8>) -> int
    decreases bytes.len(),
{
    if bytes.len() == 0 {
        0
    } else {
        byte_sum(bytes.drop_last()) + bytes.last() as int
    }
}

/// The sum of the bytes that a checksum covers: the length, the two bytes of
/// the address, the record type and every payload byte.
pub open spec fn field_sum(length: u8, address: u16, record_type: u8, payload: Seq<u8>) -> int {
    length as int + (address as int) / 256 + (address as int) % 256 + record_type as int
        + byte_sum(payload)
}

/// The two's complement, modulo 256, of the covered bytes' sum.
pub open spec fn checksum_of(length: u8, address: u16, record_type: u8, payload: Seq<u8>) -> u8 {
    ((256 - field_sum(length, address, record_type, payload) % 256) % 256) as u8
}

/// The sum of a sequence extended by one byte.
pub proof fn lemma_byte_sum_push(bytes: Seq<u8>, b: u8)
    ensures
        byte_sum(bytes.push(b)) == byte_sum(bytes) + b as int,
{
    assert(bytes.push(b).drop_last() =~= bytes);
}

/// Adding the checksum to the bytes it covers gives a multiple of 256, for
/// every length, address, record type and payload.
pub proof fn lemma_checksum_cancels(length: u8, address: u16, record_type: u8, payload: Seq<u8>)
    ensures
        (field_sum(length, address, record_type, payload) + checksum_of(
            length,
            address,
            record_type,
            payload,
        ) as int) % 256 == 0,
{
}

/// Computes the checksum of a record's fields with 8-bit wraparound addition,
/// then negates the sum in two's complement.
pub fn checksum(length: u8, address: u16, record_type: u8, payload: &[u8]) -> (sum: u8)
    requires
        payload@.len() == length,
    ensures
        sum == checksum_of(length, address, record_type, payload@),
        (field_sum(length, address, record_type, payload@) + sum as int) % 256 == 0,
{
    let mut acc: u8 = length;
    let mut i: usize = 0;
    while i < payload.len()
        invariant
            i <= payload@.len(),
            acc as int == (length as int + byte_sum(payload@.take(i as int))) % 256,
        decreases payload@.len() - i,
    {
        proof {
            assert(payload@.take(i as int + 1) =~= payload@.take(i as int).push(payload@[i as int]));
            lemma_byte_sum_push(payload@.take(i as int), payload@[i as int]);
        }
        acc = acc.wrapping_add(payload[i]);
        i += 1;
    }
    assert(payload@.take(i as int) =~= payload@);
    let high: u8 = (address >> 8) as u8;
    let low: u8 = (address & 0xFF) as u8;
    assert(high as int == (address as int) / 256 && low as int == (address as int) % 256) by {
        assert((address >> 8) == address / 256 && (address >> 8) < 256 && (address & 0xFF) == address % 256) by (bit_vector);
    }
    let total: u8 = acc.wrapping_add(record_type).wrapping_add(high).wrapping_add(low);
    assert(total as int == field_sum(length, address, record_type, payload@) % 256);
    assert(!total == 255 - total) by (bit_vector);
    (!total).wrapping_add(1)
}

} // verus!
