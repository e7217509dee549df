//! Hexadecimal text: the mathematical description of the encoding, the
//! calls into the `hex` crate, and the facts relating the two directions.

use vstd::prelude::*;
use vstd::string::{is_ascii_spec_bytes, StringSliceAdditionalSpecFns};

verus! {

/// Lowercase hex digit for a nibble.
pub open spec fn hex_digit(n: int) -> char
    recommends
        0 <= n < 16,
{
    if n < 10 {
        (48 + n) as u8 as char
    } else {
        (87 + n) as u8 as char
    }
}

/// Lowercase hex text of `data`: two digits per byte, high nibble first.
pub open spec fn hex_lower(data: Seq<u8>) -> Seq<char> {
    Seq::new(
        2 * data.len(),
        |i: int|
            if i % 2 == 0 {
                hex_digit(data[i / 2] as int / 16)
            } else {
                hex_digit(data[i / 2] as int % 16)
            },
    )
}

/// Value of a hex digit given as an ASCII byte, in either case.
pub open spec fn hex_value(c: u8) -> Option<int> {
    if 48 <= c <= 57 {
        Some(c - 48)
    } else if 97 <= c <= 102 {
        Some(c - 87)
    } else if 65 <= c <= 70 {
        Some(c - 55)
    } else {
        None
    }
}

/// `text` is an even number of hex digits.
pub open spec fn is_hex_text(text: Seq<u8>) -> bool {
    &&& text.len() % 2 == 0
    &&& forall|i: int| 0 <= i < text.len() ==> hex_value(#[trigger] text[i]) is Some
}

/// Bytes denoted by the hex text `text`.
pub open spec fn unhex(text: Seq<u8>) -> Seq<u8>
    recommends
        is_hex_text(text),
{
    Seq::new(
        text.len() / 2,
        |i: int| (hex_value(text[2 * i])->0 * 16 + hex_value(text[2 * i + 1])->0) as u8,
    )
}

/// `c` is one of `0-9a-f`.
pub open spec fn is_lower_hex(c: char) -> bool {
    ('0' <= c <= '9') || ('a' <= c <= 'f')
}

/// `c` is one of `0-9a-fA-F`.
pub open spec fn is_hex_char(c: char) -> bool {
    is_lower_hex(c) || ('A' <= c <= 'F')
}

/// The characters of an ASCII text as bytes.
pub open spec fn ascii_bytes(text: Seq<char>) -> Seq<u8> {
    Seq::new(text.len(), |i: int| text[i] as u8)
}

/// The error of `hex::decode`, which is carried and not looked into.
#[verifier::external_type_specification]
#[verifier::external_body]
pub struct ExFromHexError(hex::FromHexError);

/// `hex::encode`: each byte becomes its two lowercase hex digits, the
/// high nibble first, taken from the table `0123456789abcdef`.
#[verifier::external_body]
fn encode_hex(data: &[u8]) -> (text: String)
    ensures
        text@ == hex_lower(data@),
{
    hex::encode(data)
}

/// `hex::decode`: succeeds exactly on an even number of hex digits of
/// either case, and then yields one byte per pair of digits, sixteen
/// times the value of the first plus the value of the second.
#[verifier::external_body]
fn decode_hex(text: &[u8]) -> (res: Result<Vec<u8>, hex::FromHexError>)
    ensures
        res is Ok <==> is_hex_text(text@),
        res matches Ok(data) ==> data@ == unhex(text@),
{
    hex::decode(text)
}

/// `text` is an even number of hex digits of either case.
pub open spec fn is_hex_string(text: Seq<char>) -> bool {
    &&& text.len() % 2 == 0
    &&& forall|i: int| 0 <= i < text.len() ==> is_hex_char(#[trigger] text[i])
}

/// Lowercase hex text of `data`.
pub fn to_hex(data: &[u8]) -> (text: String)
    ensures
        text@ == hex_lower(data@),
{
    encode_hex(data)
}

/// The bytes that `text` denotes, if it is hex text.
pub fn from_hex(text: &str) -> (res: Option<Vec<u8>>)
    ensures
        res is Some <==> is_hex_string(text@),
        res matches Some(data) ==> data@ == unhex(ascii_bytes(text@)),
{
    if !text.is_ascii() {
        return None;
    }
    proof {
        is_ascii_spec_bytes(text);
        assert(text.spec_bytes() =~= ascii_bytes(text@));
        let bytes = ascii_bytes(text@);
        if is_hex_string(text@) {
            assert forall|i: int| 0 <= i < bytes.len() implies hex_value(
                #[trigger] bytes[i],
            ) is Some by {
                assert(is_hex_char(text@[i]));
            }
        }
        if is_hex_text(bytes) {
            assert forall|i: int| 0 <= i < text@.len() implies is_hex_char(
                #[trigger] text@[i],
            ) by {
                assert(hex_value(bytes[i]) is Some);
            }
        }
    }
    match decode_hex(text.as_bytes()) {
        Ok(data) => Some(data),
        Err(_) => None,
    }
}

/// Hex text always consists of lowercase hex digits.
pub proof fn lemma_hex_lower_is_lower_hex(data: Seq<u8>)
    ensures
        hex_lower(data).len() == 2 * data.len(),
        forall|i: int| 0 <= i < 2 * data.len() ==> is_lower_hex(#[trigger] hex_lower(data)[i]),
{
}

/// Reading back hex text yields the bytes it was written from.
pub proof fn lemma_unhex_hex_lower(data: Seq<u8>)
    ensures
        is_hex_text(ascii_bytes(hex_lower(data))),
        unhex(ascii_bytes(hex_lower(data))) == data,
{
    let text = ascii_bytes(hex_lower(data));
    assert forall|i: int| 0 <= i < text.len() implies hex_value(#[trigger] text[i]) is Some by {
        assert(is_lower_hex(hex_lower(data)[i]));
    }
    assert(unhex(text) =~= data);
}

/// Writing the bytes of lowercase hex text yields that text again.
pub proof fn lemma_hex_lower_unhex(text: Seq<char>)
    requires
        text.len() % 2 == 0,
        forall|i: int| 0 <= i < text.len() ==> is_lower_hex(#[trigger] text[i]),
    ensures
        is_hex_text(ascii_bytes(text)),
        unhex(ascii_bytes(text)).len() == text.len() / 2,
        hex_lower(unhex(ascii_bytes(text))) == text,
{
    let bytes = ascii_bytes(text);
    assert forall|i: int| 0 <= i < bytes.len() implies hex_value(#[trigger] bytes[i]) is Some by {
        assert(is_lower_hex(text[i]));
    }
    let back = hex_lower(unhex(bytes));
    assert forall|i: int| 0 <= i < text.len() implies back[i] == text[i] by {
        let k = i / 2;
        assert(is_lower_hex(text[2 * k]));
        assert(is_lower_hex(text[2 * k + 1]));
    }
    assert(back =~= text);
}

} // verus!
