//! Percent-encoding of names and paths, as both on-disk formats store them.
//!
//! The encoding and the decoding are done by the `urlencoding` crate. What it
//! computes is stated here as two spec functions, and that decoding undoes
//! encoding is proved from them.

use vstd::prelude::*;

verus! {

/// The byte `%`, which opens an escape.
pub const PERCENT: u8 = 37;

/// The bytes that are written as they are: ASCII letters and digits, `-`, `.`,
/// `_` and `~`.
pub open spec fn is_unreserved(byte: u8) -> bool {
    ||| 48 <= byte <= 57
    ||| 65 <= byte <= 90
    ||| 97 <= byte <= 122
    ||| byte == 45
    ||| byte == 46
    ||| byte == 95
    ||| byte == 126
}

/// The upper-case hexadecimal digit for a value below 16.
pub open spec fn hex_digit(value: int) -> u8 {
    if value < 10 {
        (48 + value) as u8
    } else {
        (55 + value) as u8
    }
}

/// The value of a hexadecimal digit of either case.
pub open spec fn hex_value(digit: u8) -> Option<int> {
    if 48 <= digit <= 57 {
        Some(digit - 48)
    } else if 65 <= digit <= 70 {
        Some(digit - 55)
    } else if 97 <= digit <= 102 {
        Some(digit - 87)
    } else {
        None
    }
}

/// How one byte is written: itself where it is unreserved, else `%` and its
/// two hexadecimal digits.
pub open spec fn encoded_byte(byte: u8) -> Seq<u8> {
    if is_unreserved(byte) {
        seq![byte]
    } else {
        seq![PERCENT, hex_digit(byte as int / 16), hex_digit(byte as int % 16)]
    }
}

/// The percent-encoding of `data`: each byte as `encoded_byte` writes it.
pub open spec fn encoded(data: Seq<u8>) -> Seq<u8>
    decreases data.len(),
{
    if data.len() == 0 {
        Seq::empty()
    } else {
        encoded_byte(data[0]) + encoded(data.skip(1))
    }
}

/// Whether `text` begins with a complete escape: `%` and two hexadecimal
/// digits.
pub open spec fn starts_with_escape(text: Seq<u8>) -> bool {
    &&& text.len() >= 3
    &&& text[0] == PERCENT
    &&& hex_value(text[1]) is Some
    &&& hex_value(text[2]) is Some
}

/// What percent-decoding reads from `text`: each complete escape gives the
/// byte it names, and every other byte, a `%` that opens no complete escape
/// too, stands for itself.
pub open spec fn decoded(text: Seq<u8>) -> Seq<u8>
    decreases text.len(),
{
    if text.len() == 0 {
        Seq::empty()
    } else if starts_with_escape(text) {
        seq![(hex_value(text[1])->0 * 16 + hex_value(text[2])->0) as u8] + decoded(text.skip(3))
    } else {
        seq![text[0]] + decoded(text.skip(1))
    }
}

/// Calls `urlencoding::encode_binary`. Trusted: the result is `encoded` of the
/// argument, that is every byte but the unreserved ones replaced by `%` and
/// two upper-case hexadecimal digits.
#[verifier::external_body]
pub(crate) fn encode_binary(data: &[u8]) -> (out: Vec<u8>)
    ensures
        out@ == encoded(data@),
{
    urlencoding::encode_binary(data).into_owned().into_bytes()
}

/// Calls `urlencoding::decode_binary`. Trusted: the result is `decoded` of the
/// argument, that is each `%` followed by two hexadecimal digits replaced by
/// the byte they name, and everything else kept.
#[verifier::external_body]
pub(crate) fn decode_binary(text: &[u8]) -> (out: Vec<u8>)
    ensures
        out@ == decoded(text@),
{
    urlencoding::decode_binary(text).into_owned()
}

/// The percent-encoding of `data`.
pub fn encode(data: &[u8]) -> (out: Vec<u8>)
    ensures
        out@ == encoded(data@),
        decoded(out@) == data@,
        forall|i: int| 0 <= i < out@.len() ==> is_unreserved(out@[i]) || out@[i] == PERCENT,
{
    proof {
        lemma_decoded_encoded(data@);
        lemma_encoded_bytes(data@);
    }
    encode_binary(data)
}

/// What percent-decoding reads from `text`.
pub fn decode(text: &[u8]) -> (out: Vec<u8>)
    ensures
        out@ == decoded(text@),
{
    decode_binary(text)
}

/// Decoding undoes encoding, whatever the bytes.
pub proof fn lemma_decoded_encoded(data: Seq<u8>)
    ensures
        decoded(encoded(data)) == data,
    decreases data.len(),
{
    if data.len() > 0 {
        let rest = data.skip(1);
        let text = encoded(data);
        lemma_decoded_encoded(rest);
        if is_unreserved(data[0]) {
            assert(text[0] == data[0]);
            assert(text.skip(1) == encoded(rest));
        } else {
            let high = data[0] as int / 16;
            let low = data[0] as int % 16;
            assert(text[1] == hex_digit(high) && text[2] == hex_digit(low));
            assert(hex_value(hex_digit(high)) == Some(high));
            assert(hex_value(hex_digit(low)) == Some(low));
            assert(text.skip(3) == encoded(rest));
        }
        assert(data == seq![data[0]] + rest);
    }
}

/// An encoded text holds unreserved bytes and `%` only.
pub proof fn lemma_encoded_bytes(data: Seq<u8>)
    ensures
        forall|i: int|
            0 <= i < encoded(data).len() ==> is_unreserved(#[trigger] encoded(data)[i])
                || encoded(data)[i] == PERCENT,
    decreases data.len(),
{
    if data.len() > 0 {
        lemma_encoded_bytes(data.skip(1));
        let head = encoded_byte(data[0]);
        let tail = encoded(data.skip(1));
        assert forall|i: int| 0 <= i < encoded(data).len() implies is_unreserved(
            #[trigger] encoded(data)[i],
        ) || encoded(data)[i] == PERCENT by {
            if i >= head.len() {
                assert(encoded(data)[i] == tail[i - head.len()]);
            }
        }
    }
}

} // verus!
