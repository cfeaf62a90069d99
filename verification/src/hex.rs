//! Upper-case hexadecimal text for bytes.

use vstd::prelude::*;
use vstd::string::*;

verus! {

/// The upper-case hexadecimal digit for a value from 0 to 15.
pub open spec fn hex_digit(value: int) -> char
    recommends
        0 <= value < 16,
{
    "0123456789ABCDEF"@[value]
}

/// The two hexadecimal digits of a byte, high nibble first.
pub open spec fn hex_byte(byte: u8) -> Seq<char> {
    seq![hex_digit(byte as int / 16), hex_digit(byte as int % 16)]
}

/// The hexadecimal digits of each byte of `bytes`, in order.
pub open spec fn hex_bytes(bytes: Seq<u8>) -> Seq<char>
    decreases bytes.len(),
{
    if bytes.len() == 0 {
        Seq::empty()
    } else {
        hex_bytes(bytes.drop_last()) + hex_byte(bytes.last())
    }
}

/// Every hexadecimal digit is an ASCII character.
pub proof fn lemma_hex_digit_ascii(value: int)
    requires
        0 <= value < 16,
    ensures
        '0' <= hex_digit(value) <= 'F',
        hex_digit(value) as int == if value < 10 {
            0x30 + value
        } else {
            0x41 + value - 10
        },
{
    reveal_strlit("0123456789ABCDEF");
}

/// The two digits of a byte are ASCII characters.
pub proof fn lemma_hex_byte_ascii(byte: u8)
    ensures
        hex_byte(byte).len() == 2,
        '0' <= hex_byte(byte)[0] <= 'F',
        '0' <= hex_byte(byte)[1] <= 'F',
{
    lemma_hex_digit_ascii(byte as int / 16);
    lemma_hex_digit_ascii(byte as int % 16);
}

/// The digits of any bytes are ASCII characters.
pub proof fn lemma_hex_bytes_ascii(bytes: Seq<u8>)
    ensures
        forall|i: int|
            0 <= i < hex_bytes(bytes).len() ==> '0' <= #[trigger] hex_bytes(bytes)[i] <= 'F',
    decreases bytes.len(),
{
    if bytes.len() > 0 {
        lemma_hex_bytes_ascii(bytes.drop_last());
        lemma_hex_byte_ascii(bytes.last());
        let before = hex_bytes(bytes.drop_last());
        let last = hex_byte(bytes.last());
        assert forall|i: int| 0 <= i < hex_bytes(bytes).len() implies '0' <= #[trigger] hex_bytes(
            bytes,
        )[i] <= 'F' by {
            if i < before.len() {
                assert(hex_bytes(bytes)[i] == before[i]);
            } else {
                assert(hex_bytes(bytes)[i] == last[i - before.len()]);
            }
        }
    }
}

/// Each byte contributes exactly two characters.
pub proof fn lemma_hex_bytes_len(bytes: Seq<u8>)
    ensures
        hex_bytes(bytes).len() == 2 * bytes.len(),
    decreases bytes.len(),
{
    if bytes.len() > 0 {
        lemma_hex_bytes_len(bytes.drop_last());
    }
}

/// The digits of a sequence extended by one byte.
pub proof fn lemma_hex_bytes_push(bytes: Seq<u8>, byte: u8)
    ensures
        hex_bytes(bytes.push(byte)) == hex_bytes(bytes) + hex_byte(byte),
{
    assert(bytes.push(byte).drop_last() =~= bytes);
}

/// The text of one hexadecimal digit.
fn digit_text(value: u8) -> (text: &'static str)
    requires
        value < 16,
    ensures
        text@ == seq![hex_digit(value as int)],
{
    let digits: &'static str = "0123456789ABCDEF";
    proof {
        reveal_strlit("0123456789ABCDEF");
    }
    let text: &'static str = digits.substring_ascii(value as usize, value as usize + 1);
    text
}

/// Appends the two hexadecimal digits of `byte` to `text`.
pub fn push_hex_byte(text: &mut String, byte: u8)
    ensures
        final(text)@ == old(text)@ + hex_byte(byte),
{
    text.append(digit_text(byte / 16));
    text.append(digit_text(byte % 16));
}

/// Appends the hexadecimal digits of every byte of `bytes` to `text`.
pub fn push_hex_bytes(text: &mut String, bytes: &[u8])
    ensures
        final(text)@ == old(text)@ + hex_bytes(bytes@),
{
    let mut i: usize = 0;
    while i < bytes.len()
        invariant
            i <= bytes@.len(),
            text@ == old(text)@ + hex_bytes(bytes@.take(i as int)),
        decreases bytes@.len() - i,
    {
        proof {
            assert(bytes@.take(i as int + 1) =~= bytes@.take(i as int).push(bytes@[i as int]));
            lemma_hex_bytes_push(bytes@.take(i as int), bytes@[i as int]);
        }
        push_hex_byte(text, bytes[i]);
        i += 1;
    }
    assert(bytes@.take(i as int) =~= bytes@);
}

} // verus!
