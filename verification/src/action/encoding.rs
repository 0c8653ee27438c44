//! Bytes as hexadecimal text, and text as bytes: how a row of the journal
//! carries a definition.

use vstd::prelude::*;
use vstd::string::*;
use vstd::utf8::*;

use crate::text;

verus! {

/// The lower-case hexadecimal digit of a value below 16.
pub open spec fn hex_digit(n: int) -> char {
    if n < 10 {
        (48 + n) as char
    } else {
        (87 + n) as char
    }
}

/// The lower-case hexadecimal digit of a value below 16.
pub fn hex_digit_of(n: u8) -> (r: char)
    requires
        n < 16,
    ensures
        r == hex_digit(n as int),
{
    if n < 10 {
        (48 + n) as char
    } else {
        (87 + n) as char
    }
}

/// Bytes in hexadecimal, two digits each.
pub open spec fn hexed(bytes: Seq<u8>) -> Seq<char> {
    Seq::new(
        2 * bytes.len(),
        |i: int|
            if i % 2 == 0 {
                hex_digit(bytes[i / 2] as int / 16)
            } else {
                hex_digit(bytes[i / 2] as int % 16)
            },
    )
}

/// Bytes in hexadecimal.
pub fn hex(bytes: &[u8]) -> (r: String)
    ensures
        r@ == hexed(bytes@),
{
    let mut out = String::new();
    let mut i: usize = 0;
    while i < bytes.len()
        invariant
            i <= bytes@.len(),
            out@ == hexed(bytes@.take(i as int)),
        decreases bytes@.len() - i,
    {
        let ghost before = out@;
        out.push(hex_digit_of(bytes[i] / 16));
        out.push(hex_digit_of(bytes[i] % 16));
        assert(out@ =~= hexed(bytes@.take(i + 1)));
        i = i + 1;
    }
    assert(bytes@.take(i as int) =~= bytes@);
    out
}

/// The bytes a text of hexadecimal digits stands for: nothing when a
/// character is no digit or a digit has no partner.
pub open spec fn unhexed(s: Seq<char>) -> Option<Seq<u8>> {
    if s.len() % 2 == 0 && forall|i: int|
        0 <= i < s.len() ==> text::hex_value(#[trigger] s[i]) is Some {
        Some(
            Seq::new(
                s.len() / 2,
                |i: int|
                    (text::hex_value(s[2 * i])->Some_0 * 16 + text::hex_value(
                        s[2 * i + 1],
                    )->Some_0) as u8,
            ),
        )
    } else {
        None
    }
}

/// What was written in hexadecimal reads back.
pub proof fn lemma_unhex_hex(bytes: Seq<u8>)
    ensures
        unhexed(hexed(bytes)) == Some(bytes),
{
    let s = hexed(bytes);
    assert forall|i: int| 0 <= i < s.len() implies text::hex_value(#[trigger] s[i]) is Some by {}
    assert(unhexed(s)->Some_0 =~= bytes) by {
        assert forall|i: int| 0 <= i < bytes.len() implies unhexed(s)->Some_0[i] == bytes[i] by {
            assert(text::hex_value(s[2 * i])->Some_0 == bytes[i] as int / 16);
            assert(text::hex_value(s[2 * i + 1])->Some_0 == bytes[i] as int % 16);
        }
    }
}

/// The bytes a text of hexadecimal digits stands for.
pub fn unhex(s: &str) -> (r: Option<Vec<u8>>)
    ensures
        match r {
            Some(bytes) => unhexed(s@) == Some(bytes@),
            None => unhexed(s@) is None,
        },
{
    let v = text::chars_of(s);
    if v.len() % 2 != 0 {
        return None;
    }
    let mut out: Vec<u8> = Vec::new();
    let mut i: usize = 0;
    while i < v.len()
        invariant
            v@ == s@,
            v@.len() % 2 == 0,
            i <= v@.len(),
            i % 2 == 0,
            out@.len() == i / 2,
            forall|j: int| 0 <= j < i ==> text::hex_value(#[trigger] v@[j]) is Some,
            forall|j: int|
                0 <= j < i / 2 ==> #[trigger] out@[j] == (text::hex_value(v@[2 * j])->Some_0 * 16
                    + text::hex_value(v@[2 * j + 1])->Some_0) as u8,
        decreases v@.len() - i,
    {
        match (text::hex_value_of(v[i]), text::hex_value_of(v[i + 1])) {
            (Some(high), Some(low)) => {
                out.push(high * 16 + low);
            },
            _ => {
                assert(text::hex_value(s@[i as int]) is None || text::hex_value(s@[i + 1]) is None);
                return None;
            },
        }
        i = i + 2;
    }
    proof {
        assert(unhexed(s@)->Some_0 =~= out@);
    }
    Some(out)
}

/// `String::from_utf8`: the text that bytes encode, where they are UTF-8.
#[verifier::external_body]
fn decoded(bytes: Vec<u8>) -> (r: Option<String>)
    ensures
        r is Some <==> valid_utf8(bytes@),
        r matches Some(s) ==> s@ == decode_utf8(bytes@),
{
    String::from_utf8(bytes).ok()
}

/// A text as the row carries it: its UTF-8 bytes in hexadecimal.
pub open spec fn written(s: Seq<char>) -> Seq<char> {
    hexed(encode_utf8(s))
}

/// A text as the row carries it.
pub fn write(s: &str) -> (r: String)
    ensures
        r@ == written(s@),
{
    hex(s.as_bytes())
}

/// Why a row does not read.
#[derive(Debug, Clone, Copy, PartialEq, Eq, Structural)]
pub enum Unreadable {
    NotHex,
    NotText,
}

/// The text a row carries.
pub open spec fn read_back(s: Seq<char>) -> Result<Seq<char>, Unreadable> {
    match unhexed(s) {
        None => Err(Unreadable::NotHex),
        Some(bytes) => if valid_utf8(bytes) {
            Ok(decode_utf8(bytes))
        } else {
            Err(Unreadable::NotText)
        },
    }
}

/// The text a row carries.
pub fn read(s: &str) -> (r: Result<String, Unreadable>)
    ensures
        match r {
            Ok(t) => read_back(s@) == Ok::<Seq<char>, Unreadable>(t@),
            Err(e) => read_back(s@) == Err::<Seq<char>, Unreadable>(e),
        },
{
    match unhex(s) {
        None => Err(Unreadable::NotHex),
        Some(bytes) => match decoded(bytes) {
            Some(t) => Ok(t),
            None => Err(Unreadable::NotText),
        },
    }
}

/// What a row was written from reads back.
pub proof fn lemma_read_written(s: Seq<char>)
    ensures
        read_back(written(s)) == Ok::<Seq<char>, Unreadable>(s),
{
    lemma_unhex_hex(encode_utf8(s));
    encode_utf8_valid_utf8(s);
    encode_utf8_decode_utf8(s);
}

}
