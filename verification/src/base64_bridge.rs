//! The calls into the `base64` crate (its standard engine, with padding). Each
//! item here is trusted: its contract is read off the crate's source and
//! documentation, not proved.

use vstd::prelude::*;
use base64::engine::general_purpose::STANDARD;
use base64::Engine;

verus! {

#[verifier::external_type_specification]
#[verifier::external_body]
pub struct ExDecodeError(base64::DecodeError);

/// The character of a 6-bit value in the standard base64 alphabet.
pub open spec fn base64_char(v: int) -> char {
    if v < 26 {
        (65 + v) as char
    } else if v < 52 {
        (97 + (v - 26)) as char
    } else if v < 62 {
        (48 + (v - 52)) as char
    } else if v == 62 {
        '+'
    } else {
        '/'
    }
}

/// The standard base64 encoding of some bytes, with padding: each group of three
/// bytes becomes four characters of six bits each, and a final group of one or
/// two bytes is filled with zero bits and padded with `=` to four characters.
pub open spec fn base64_encoded(data: Seq<u8>) -> Seq<char>
    decreases data.len(),
{
    if data.len() == 0 {
        Seq::empty()
    } else if data.len() == 1 {
        let b0 = data[0] as int;
        seq![base64_char(b0 / 4), base64_char((b0 % 4) * 16), '=', '=']
    } else if data.len() == 2 {
        let b0 = data[0] as int;
        let b1 = data[1] as int;
        seq![base64_char(b0 / 4), base64_char((b0 % 4) * 16 + b1 / 16), base64_char((b1 % 16) * 4), '=']
    } else {
        let b0 = data[0] as int;
        let b1 = data[1] as int;
        let b2 = data[2] as int;
        seq![
            base64_char(b0 / 4),
            base64_char((b0 % 4) * 16 + b1 / 16),
            base64_char((b1 % 16) * 4 + b2 / 64),
            base64_char(b2 % 64),
        ] + base64_encoded(data.skip(3))
    }
}

/// The bytes that a text decodes to under standard base64, or `None` where the
/// text is not valid standard base64.
pub uninterp spec fn base64_decoded(text: Seq<char>) -> Option<Seq<u8>>;

/// The encoded length of `len` bytes, `4 * ceil(len / 3)`, fits in a `usize`;
/// the engine panics otherwise.
pub open spec fn base64_encodable(len: nat) -> bool {
    4 * ((len + 2) / 3) <= usize::MAX
}

/// Encodes bytes (`Engine::encode` of `STANDARD`); the text decodes back to them.
#[verifier::external_body]
pub(crate) fn base64_encode(data: &[u8]) -> (res: String)
    requires
        base64_encodable(data@.len()),
    ensures
        res@ == base64_encoded(data@),
        base64_decoded(res@) == Some(data@),
{
    STANDARD.encode(data)
}

/// Decodes a text (`Engine::decode` of `STANDARD`).
#[verifier::external_body]
pub(crate) fn base64_decode(text: &str) -> (res: Result<Vec<u8>, base64::DecodeError>)
    ensures
        res is Ok <==> base64_decoded(text@) is Some,
        res matches Ok(v) ==> base64_decoded(text@) == Some(v@),
{
    STANDARD.decode(text)
}

} // verus!
