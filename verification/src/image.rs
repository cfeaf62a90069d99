//! A whole image, given as the list of its chunks, and what holds of its
//! encoding whatever the image, the chunking and the base address are.

use crate::encoder::{lemma_begin_valid, lemma_finish, lemma_push_chunk, EncoderState};
use crate::ihex::{lemma_bank_record, CommandType, Record};
use crate::receiver::{
    bank_in_force, contiguous_from, high16, image_at, intended_address,
    lemma_bank_change_has_record, lemma_image_at_concat, lemma_writes_prefix, low16, writes,
};
use crate::sequence::is_command_sequence;
use vstd::prelude::*;

verus! {

/// Whether the chunks can be encoded from `base`: none is longer than 255
/// bytes, and the image ends within the 32-bit address space.
pub open spec fn encodable(base: u32, chunks: Seq<Seq<u8>>) -> bool {
    &&& forall|i: int| 0 <= i < chunks.len() ==> (#[trigger] chunks[i]).len() <= 255
    &&& base + chunks.flatten().len() <= 0x1_0000_0000
}

/// The encoder's state after `begin` at `base` and one `push_chunk` for each
/// chunk, in order.
pub open spec fn encode(base: u32, chunks: Seq<Seq<u8>>) -> EncoderState
    decreases chunks.len(),
{
    if chunks.len() == 0 {
        EncoderState::begin(base)
    } else {
        encode(base, chunks.drop_last()).push_chunk(chunks.last())
    }
}

/// The records of the whole image: those of its chunks and the end-of-file
/// record.
pub open spec fn encode_image(base: u32, chunks: Seq<Seq<u8>>) -> Seq<Record> {
    encode(base, chunks).finish()
}

/// An image without its last chunk is the image without that chunk's bytes.
proof fn lemma_flatten_drop_last(chunks: Seq<Seq<u8>>)
    requires
        chunks.len() > 0,
    ensures
        chunks.flatten() == chunks.drop_last().flatten() + chunks.last(),
{
    assert(chunks.drop_last().push(chunks.last()) =~= chunks);
    chunks.drop_last().lemma_flatten_push(chunks.last());
}

/// Encoding accepts every chunk of an encodable image, and the state it
/// reaches is valid and has stored the image from `base` upwards.
pub proof fn lemma_encode(base: u32, chunks: Seq<Seq<u8>>)
    requires
        encodable(base, chunks),
    ensures
        encode(base, chunks).valid(),
        encode(base, chunks).base == base,
        encode(base, chunks).current_offset == base + chunks.flatten().len(),
        writes(encode(base, chunks).records) == image_at(base as int, chunks.flatten()),
        chunks.len() > 0 ==> encode(base, chunks.drop_last()).refusal(chunks.last()) is None,
    decreases chunks.len(),
{
    if chunks.len() == 0 {
        lemma_begin_valid(base);
    } else {
        let before = chunks.drop_last();
        lemma_flatten_drop_last(chunks);
        lemma_encode(base, before);
        lemma_push_chunk(encode(base, before), chunks.last());
        lemma_image_at_concat(base as int, before.flatten(), chunks.last());
    }
}

/// Round trip.  For every base address and every image, cut into chunks in
/// any way, a receiver that takes in the records in the order of emission
/// stores exactly the bytes of the image, the first at the base address and
/// each next one at the next address.
pub proof fn lemma_round_trip(base: u32, chunks: Seq<Seq<u8>>)
    requires
        encodable(base, chunks),
    ensures
        writes(encode_image(base, chunks)) == image_at(base as int, chunks.flatten()),
{
    lemma_encode(base, chunks);
    lemma_finish(encode(base, chunks));
}

/// Where the bytes of regular records go to consecutive addresses from
/// `base`, each data record is met while the bank of its first byte is in
/// force, and carries the low half of that byte's address.
pub proof fn lemma_data_record_address(base: int, records: Seq<Record>, index: int)
    requires
        0 <= index < records.len(),
        records[index].command_type == CommandType::Data,
        records[index].regular(),
        contiguous_from(base, writes(records)),
    ensures
        bank_in_force(records.take(index)) * 0x1_0000 + records[index].address == intended_address(
            base,
            records,
            index,
        ),
        bank_in_force(records.take(index)) == high16(intended_address(base, records, index)),
        records[index].address == low16(intended_address(base, records, index)),
{
    let upto = records.take(index + 1);
    let before = records.take(index);
    assert(upto.drop_last() =~= before);
    lemma_writes_prefix(records, index + 1);
    let position = writes(before).len() as int;
    assert(writes(upto)[position] == writes(records)[position]);
}

/// Sequence of addresses.  In the encoding of every image, the address of
/// each data record continues where the payload of the data record before it
/// ended: it is the low half of the base address plus the number of bytes
/// that earlier records carry, and the bank in force is the high half.
pub proof fn lemma_addresses_increase(base: u32, chunks: Seq<Seq<u8>>, index: int)
    requires
        encodable(base, chunks),
        0 <= index < encode_image(base, chunks).len(),
        encode_image(base, chunks)[index].command_type == CommandType::Data,
    ensures
        encode_image(base, chunks)[index].address == low16(
            intended_address(base as int, encode_image(base, chunks), index),
        ),
        bank_in_force(encode_image(base, chunks).take(index)) == high16(
            intended_address(base as int, encode_image(base, chunks), index),
        ),
{
    lemma_round_trip(base, chunks);
    lemma_sequence_shape(base, chunks);
    let records = encode_image(base, chunks);
    lemma_data_record_address(base as int, records, index);
}

/// Bank boundary.  In the encoding of every image, no data record reaches
/// past the end of its bank.
pub proof fn lemma_data_stays_in_bank(base: u32, chunks: Seq<Seq<u8>>, index: int)
    requires
        encodable(base, chunks),
        0 <= index < encode_image(base, chunks).len(),
        encode_image(base, chunks)[index].command_type == CommandType::Data,
    ensures
        encode_image(base, chunks)[index].address + encode_image(base, chunks)[index].data.len()
            <= 0x1_0000,
{
    lemma_sequence_shape(base, chunks);
}

/// Bank boundary.  In the encoding of every image, where the bytes of two
/// data records are meant for addresses in different banks, a record that
/// selects the bank of the later one stands between the two.
pub proof fn lemma_bank_change_announced(base: u32, chunks: Seq<Seq<u8>>, earlier: int, later: int)
    requires
        encodable(base, chunks),
        0 <= earlier < later < encode_image(base, chunks).len(),
        encode_image(base, chunks)[earlier].command_type == CommandType::Data,
        encode_image(base, chunks)[later].command_type == CommandType::Data,
        high16(intended_address(base as int, encode_image(base, chunks), earlier)) != high16(
            intended_address(base as int, encode_image(base, chunks), later),
        ),
    ensures
        exists|k: int|
            earlier < k < later && #[trigger] encode_image(base, chunks)[k]
                == Record::extended_address(
                high16(intended_address(base as int, encode_image(base, chunks), later)) as u16,
            ),
{
    let records = encode_image(base, chunks);
    lemma_round_trip(base, chunks);
    lemma_sequence_shape(base, chunks);
    lemma_data_record_address(base as int, records, earlier);
    lemma_data_record_address(base as int, records, later);
    lemma_bank_change_has_record(records, earlier, later);
    let k = choose|k: int|
        earlier <= k < later && (#[trigger] records[k]).command_type
            == CommandType::ExtendedAddress && records[k].selected_bank() == bank_in_force(
            records.take(later),
        );
    lemma_bank_record(records[k], 0);
}

/// Sequence shape.  The encoding of every image is a command sequence: its
/// first record is the bank record of the base address, its last record is
/// the end-of-file record, and no other record is one.
pub proof fn lemma_sequence_shape(base: u32, chunks: Seq<Seq<u8>>)
    requires
        encodable(base, chunks),
    ensures
        is_command_sequence(encode_image(base, chunks)),
        encode_image(base, chunks).first() == Record::extended_address(
            high16(base as int) as u16,
        ),
        encode_image(base, chunks).last() == Record::eof(),
        forall|i: int|
            0 <= i < encode_image(base, chunks).len() ==> ((#[trigger] encode_image(
                base,
                chunks,
            )[i]).command_type == CommandType::EOF <==> i == encode_image(base, chunks).len() - 1),
{
    lemma_encode(base, chunks);
    lemma_finish(encode(base, chunks));
    let state = encode(base, chunks);
}

} // verus!
