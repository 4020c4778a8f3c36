//! Fixed-size, zero-padded text fields of the binary formats.

use vstd::prelude::*;
use vstd::utf8::{decode_utf8, valid_utf8, encode_utf8};
use vstd::string::StringSliceAdditionalSpecFns;

use crate::convert::ConversionError;

verus! {

/// The bytes of `s` up to, not including, its first zero byte.
pub open spec fn until_nul(s: Seq<u8>) -> Seq<u8>
    decreases s.len(),
{
    if s.len() == 0 {
        s
    } else if s[0] == 0 {
        seq![]
    } else {
        seq![s[0]] + until_nul(s.drop_first())
    }
}

/// The text held by the field of `len` bytes at `pos`.
pub open spec fn text_field(s: Seq<u8>, pos: int, len: int) -> Seq<u8> {
    until_nul(s.subrange(pos, pos + len))
}

/// `b` cut or zero-padded to exactly `len` bytes.
pub open spec fn padded(b: Seq<u8>, len: nat) -> Seq<u8> {
    Seq::new(len, |i: int| if i < b.len() { b[i] } else { 0u8 })
}

proof fn lemma_until_nul_at(s: Seq<u8>, i: int)
    requires
        0 <= i < s.len(),
        s[i] == 0,
        forall|j: int| 0 <= j < i ==> s[j] != 0,
    ensures
        until_nul(s) == s.take(i),
    decreases i,
{
    if i > 0 {
        lemma_until_nul_at(s.drop_first(), i - 1);
        assert(s.take(i) =~= seq![s[0]] + s.drop_first().take(i - 1));
    }
}

proof fn lemma_until_nul_none(s: Seq<u8>)
    requires
        forall|j: int| 0 <= j < s.len() ==> s[j] != 0,
    ensures
        until_nul(s) == s,
    decreases s.len(),
{
    if s.len() > 0 {
        lemma_until_nul_none(s.drop_first());
        assert(s =~= seq![s[0]] + s.drop_first());
    }
}

/// Relies on `memchr::memchr`: the index of the first occurrence of `needle`
/// in `haystack`, or `None` when it does not occur.
#[verifier::external_body]
fn find_byte(needle: u8, haystack: &[u8]) -> (r: Option<usize>)
    ensures
        match r {
            Some(i) => i < haystack@.len() && haystack@[i as int] == needle && forall|j: int|
                0 <= j < i ==> haystack@[j] != needle,
            None => forall|j: int| 0 <= j < haystack@.len() ==> haystack@[j] != needle,
        },
{
    memchr::memchr(needle, haystack)
}

/// Relies on `String::from_utf8`: it succeeds exactly when the bytes are valid
/// UTF-8, and the string then holds the characters they encode.
#[verifier::external_body]
fn string_from_utf8(bytes: Vec<u8>) -> (r: Option<String>)
    ensures
        r.is_some() <==> valid_utf8(bytes@),
        r matches Some(s) ==> s@ == decode_utf8(bytes@),
{
    String::from_utf8(bytes).ok()
}

/// Reads a text field of `max_len` bytes at `*pos`, cut at its first zero byte.
/// On success, and on text that is not UTF-8, `*pos` moves past the field.
pub fn read_string(bytes: &[u8], pos: &mut usize, max_len: usize) -> (r: Result<
    String,
    ConversionError,
>)
    ensures
        *old(pos) + max_len > bytes@.len() ==> r == Err::<String, ConversionError>(
            ConversionError::Deserialization,
        ) && *final(pos) == *old(pos),
        *old(pos) + max_len <= bytes@.len() ==> {
            let t = text_field(bytes@, *old(pos) as int, max_len as int);
            &&& *final(pos) == *old(pos) + max_len
            &&& r is Ok <==> valid_utf8(t)
            &&& r matches Ok(s) ==> s@ == decode_utf8(t)
            &&& r matches Err(e) ==> e == ConversionError::Deserialization
        },
{
    let n = bytes.len();
    if max_len > n || *pos > n - max_len {
        return Err(ConversionError::Deserialization);
    }
    let start = *pos;
    let mut field: Vec<u8> = Vec::new();
    let mut i: usize = 0;
    while i < max_len
        invariant
            start + max_len <= bytes@.len(),
            n == bytes@.len(),
            i <= max_len,
            field@ == bytes@.subrange(start as int, start + i),
        decreases max_len - i,
    {
        field.push(bytes[start + i]);
        i = i + 1;
        assert(field@ =~= bytes@.subrange(start as int, start + i));
    }
    let ghost whole = field@;
    let len = match find_byte(0, field.as_slice()) {
        Some(k) => k,
        None => max_len,
    };
    proof {
        if len < max_len {
            lemma_until_nul_at(whole, len as int);
        } else {
            lemma_until_nul_none(whole);
            assert(whole.take(len as int) =~= whole);
        }
    }
    field.truncate(len);
    *pos = start + max_len;
    match string_from_utf8(field) {
        Some(s) => Ok(s),
        None => Err(ConversionError::Deserialization),
    }
}

/// Writes `string` as a field of exactly `max_len` bytes: longer text is cut,
/// shorter text is followed by zero bytes.
pub fn write_string(bytes: &mut Vec<u8>, string: &str, max_len: usize)
    ensures
        final(bytes)@ == old(bytes)@ + padded(encode_utf8(string@), max_len as nat),
{
    let raw = string.as_bytes();
    let len = raw.len();
    let ghost start = bytes@;
    let mut i: usize = 0;
    while i < max_len
        invariant
            i <= max_len,
            raw@ == encode_utf8(string@),
            len == raw@.len(),
            bytes@ == start + padded(raw@, max_len as nat).take(i as int),
        decreases max_len - i,
    {
        if i < len {
            bytes.push(raw[i]);
        } else {
            bytes.push(0);
        }
        i = i + 1;
        assert(bytes@ =~= start + padded(raw@, max_len as nat).take(i as int));
    }
    assert(padded(raw@, max_len as nat).take(max_len as int) =~= padded(raw@, max_len as nat));
}

} // verus!

verus! {

pub proof fn lemma_until_nul_props(s: Seq<u8>)
    ensures
        until_nul(s).len() <= s.len(),
        forall|j: int| 0 <= j < until_nul(s).len() ==> until_nul(s)[j] != 0,
    decreases s.len(),
{
    if s.len() > 0 && s[0] != 0 {
        lemma_until_nul_props(s.drop_first());
        let t = until_nul(s.drop_first());
        assert forall|j: int| 0 <= j < until_nul(s).len() implies until_nul(s)[j] != 0 by {
            if j > 0 {
                assert(until_nul(s)[j] == t[j - 1]);
            }
        }
    }
}

/// Text without zero bytes that fits its field reads back unchanged.
pub proof fn lemma_until_nul_padded(b: Seq<u8>, len: nat)
    requires
        b.len() <= len,
        forall|j: int| 0 <= j < b.len() ==> b[j] != 0,
    ensures
        until_nul(padded(b, len)) == b,
{
    let s = padded(b, len);
    if b.len() < len {
        lemma_until_nul_at(s, b.len() as int);
        assert(s.take(b.len() as int) =~= b);
    } else {
        lemma_until_nul_none(s);
        assert(s =~= b);
    }
}

/// A text field that was read, written back, and read again, is unchanged.
pub proof fn lemma_text_round_trip(field: Seq<u8>, len: nat)
    requires
        field.len() == len,
        valid_utf8(until_nul(field)),
    ensures
        ({
            let written = padded(encode_utf8(decode_utf8(until_nul(field))), len);
            &&& until_nul(written) == until_nul(field)
            &&& written.len() == len
        }),
{
    let t = until_nul(field);
    lemma_until_nul_props(field);
    vstd::utf8::decode_utf8_encode_utf8(t);
    lemma_until_nul_padded(t, len);
}

} // verus!
