//! Length-prefixed strings under the three text encodings of the format.
//!
//! A string is stored as a 32-bit little-endian byte count followed by that
//! many bytes. The count is the length of the encoded form, not the number of
//! characters.

use vstd::prelude::*;
use vstd::utf8::*;
use vstd::std_specs::iter::IteratorSpec;
use vstd::slice::{slice_subrange, slice_to_vec};
use crate::error::Error;
use crate::codec::{spec_u32_le, spec_read_u32, encode_u32, decode_u32, lemma_u32_le_roundtrip};

verus! {

/// How text is turned into bytes and back. One encoding is applied to the
/// mount point and to every file name of a package.
#[derive(Clone, Copy, Debug, PartialEq, Eq, Structural)]
pub enum Encoding {
    /// Bytes are the UTF-8 form of the text.
    UTF8,
    /// Like UTF-8, but no byte may exceed 127.
    ASCII,
    /// One byte per character; no character may exceed code point 255.
    Latin1,
}

impl Default for Encoding {
    fn default() -> (e: Encoding)
        ensures
            e == Encoding::UTF8,
    {
        Encoding::UTF8
    }
}

/// The single byte that stands for `c` under Latin-1.
pub open spec fn spec_latin1_byte(c: char) -> u8 {
    (c as u32) as u8
}

/// The Latin-1 form of `chars`: one byte per character.
pub open spec fn spec_latin1_bytes(chars: Seq<char>) -> Seq<u8> {
    Seq::new(chars.len(), |i: int| spec_latin1_byte(chars[i]))
}

/// The text that Latin-1 bytes stand for: one character per byte.
pub open spec fn spec_latin1_chars(bytes: Seq<u8>) -> Seq<char> {
    Seq::new(bytes.len(), |i: int| bytes[i] as char)
}

/// Whether the first `n` bytes are all in the ASCII range.
pub open spec fn spec_ascii_prefix(bytes: Seq<u8>, n: int) -> bool {
    forall|j: int| 0 <= j < n ==> (#[trigger] bytes[j]) <= 127
}

/// Whether the first `n` characters all have a Latin-1 code point.
pub open spec fn spec_latin1_prefix(chars: Seq<char>, n: int) -> bool {
    forall|j: int| 0 <= j < n ==> (#[trigger] chars[j]) as u32 <= 255
}

/// Whether `chars` can be written under `encoding`.
pub open spec fn spec_text_encodable(chars: Seq<char>, encoding: Encoding) -> bool {
    match encoding {
        Encoding::UTF8 => true,
        Encoding::ASCII => spec_ascii_prefix(encode_utf8(chars), encode_utf8(chars).len() as int),
        Encoding::Latin1 => spec_latin1_prefix(chars, chars.len() as int),
    }
}

/// Whether `code` is the first byte (ASCII) or character (Latin-1) of `chars`
/// that `encoding` cannot hold.
pub open spec fn spec_first_illegal(chars: Seq<char>, encoding: Encoding, code: u32) -> bool {
    match encoding {
        Encoding::UTF8 => false,
        Encoding::ASCII => {
            let bytes = encode_utf8(chars);
            exists|i: int|
                0 <= i < bytes.len() && #[trigger] spec_ascii_prefix(bytes, i) && bytes[i] > 127
                    && bytes[i] as u32 == code
        },
        Encoding::Latin1 => exists|i: int|
            0 <= i < chars.len() && #[trigger] spec_latin1_prefix(chars, i) && chars[i] as u32
                > 255 && chars[i] as u32 == code,
    }
}

/// The bytes that store `chars` under `encoding`, without the length prefix.
/// Meaningful where the text is encodable.
pub open spec fn spec_text_bytes(chars: Seq<char>, encoding: Encoding) -> Seq<u8> {
    match encoding {
        Encoding::UTF8 => encode_utf8(chars),
        Encoding::ASCII => encode_utf8(chars),
        Encoding::Latin1 => spec_latin1_bytes(chars),
    }
}

/// The text that `bytes` stand for under `encoding`, if any.
pub open spec fn spec_text_chars(bytes: Seq<u8>, encoding: Encoding) -> Option<Seq<char>> {
    match encoding {
        Encoding::UTF8 => if valid_utf8(bytes) {
            Some(decode_utf8(bytes))
        } else {
            None
        },
        Encoding::ASCII => if spec_ascii_prefix(bytes, bytes.len() as int) {
            Some(decode_utf8(bytes))
        } else {
            None
        },
        Encoding::Latin1 => Some(spec_latin1_chars(bytes)),
    }
}

/// Whether `chars` can be stored as a string: encodable, and short enough for
/// the 32-bit length prefix.
pub open spec fn spec_path_storable(chars: Seq<char>, encoding: Encoding) -> bool {
    spec_text_encodable(chars, encoding) && spec_text_bytes(chars, encoding).len() <= u32::MAX
}

/// The stored form of a string: length prefix, then the encoded bytes.
pub open spec fn spec_path_bytes(chars: Seq<char>, encoding: Encoding) -> Seq<u8> {
    spec_u32_le(spec_text_bytes(chars, encoding).len() as u32) + spec_text_bytes(chars, encoding)
}

/// What reading a stored string at `pos` gives: the text and the position
/// behind it, or the reason why there is none.
pub open spec fn spec_read_path(data: Seq<u8>, pos: int, encoding: Encoding) -> Result<
    (Seq<char>, int),
    Error,
> {
    match spec_read_u32(data, pos) {
        None => Err(Error::Truncated),
        Some((len, start)) => if start + len > data.len() {
            Err(Error::Truncated)
        } else {
            match spec_text_chars(data.subrange(start, start + len), encoding) {
                None => Err(Error::InvalidEncoding),
                Some(chars) => Ok((chars, start + len)),
            }
        },
    }
}

/// Bytes that are all in the ASCII range are valid UTF-8.
pub proof fn lemma_ascii_is_utf8(bytes: Seq<u8>)
    requires
        spec_ascii_prefix(bytes, bytes.len() as int),
    ensures
        valid_utf8(bytes),
{
    partial_valid_utf8_extend_ascii_block(bytes, 0, bytes.len() as int);
    assert(bytes.subrange(0, bytes.len() as int) =~= bytes);
}

/// Text that was encoded decodes to itself under the same encoding.
pub proof fn lemma_text_roundtrip(chars: Seq<char>, encoding: Encoding)
    requires
        spec_text_encodable(chars, encoding),
    ensures
        spec_text_chars(spec_text_bytes(chars, encoding), encoding) == Some(chars),
{
    match encoding {
        Encoding::UTF8 => {
            encode_utf8_valid_utf8(chars);
            encode_utf8_decode_utf8(chars);
        },
        Encoding::ASCII => {
            encode_utf8_decode_utf8(chars);
        },
        Encoding::Latin1 => {
            let bytes = spec_latin1_bytes(chars);
            let back = spec_latin1_chars(bytes);
            assert forall|i: int| 0 <= i < chars.len() implies back[i] == chars[i] by {
                let c = chars[i];
                char_u32_cast(c, c as u32);
            }
        },
    }
}

/// A stored string, whatever surrounds it, reads back as the text it was
/// made from, and the read ends right behind it.
pub proof fn lemma_path_roundtrip(
    head: Seq<u8>,
    chars: Seq<char>,
    encoding: Encoding,
    tail: Seq<u8>,
)
    requires
        spec_path_storable(chars, encoding),
    ensures
        spec_read_path(
            head + spec_path_bytes(chars, encoding) + tail,
            head.len() as int,
            encoding,
        ) == Ok::<(Seq<char>, int), Error>(
            (chars, (head.len() + spec_path_bytes(chars, encoding).len()) as int),
        ),
        spec_path_bytes(chars, encoding).len() == 4 + spec_text_bytes(chars, encoding).len(),
{
    let body = spec_text_bytes(chars, encoding);
    let len = body.len() as u32;
    let data = head + spec_path_bytes(chars, encoding) + tail;
    let pos = head.len() as int;
    lemma_u32_le_roundtrip(len, Seq::<u8>::empty());
    assert(data.subrange(pos, pos + 4) =~= spec_u32_le(len) + Seq::<u8>::empty());
    assert(data.subrange(pos + 4, pos + 4 + len) =~= body);
    lemma_text_roundtrip(chars, encoding);
}

/// `String::from_utf8` of std: gives the text exactly where the bytes are
/// valid UTF-8, and then the text that they encode.
#[verifier::external_body]
fn string_from_utf8(bytes: Vec<u8>) -> (r: Option<String>)
    ensures
        r.is_some() == valid_utf8(bytes@),
        r matches Some(s) ==> s@ == decode_utf8(bytes@),
{
    String::from_utf8(bytes).ok()
}

/// `String::push` of std: appends one character.
#[verifier::external_body]
pub(crate) fn string_push(s: &mut String, c: char)
    ensures
        final(s)@ == old(s)@.push(c),
{
    s.push(c)
}

/// The code point of a character.
pub(crate) fn char_code(c: char) -> (code: u32)
    ensures
        code == c as u32,
{
    c as u32
}

/// Position of the first byte above 127, if there is one.
fn first_non_ascii(bytes: &[u8]) -> (r: Option<usize>)
    ensures
        match r {
            None => spec_ascii_prefix(bytes@, bytes@.len() as int),
            Some(i) => i < bytes@.len() && spec_ascii_prefix(bytes@, i as int) && bytes@[i as int]
                > 127,
        },
{
    let mut i: usize = 0;
    while i < bytes.len()
        invariant
            i <= bytes@.len(),
            spec_ascii_prefix(bytes@, i as int),
        decreases bytes@.len() - i,
    {
        if bytes[i] > 127 {
            return Some(i);
        }
        i += 1;
    }
    None
}

/// The Latin-1 form of `path`, or the first character that has none.
fn latin1_bytes(path: &str) -> (r: Result<Vec<u8>, u32>)
    ensures
        match r {
            Ok(b) => spec_text_encodable(path@, Encoding::Latin1) && b@ == spec_latin1_bytes(
                path@,
            ),
            Err(code) => spec_first_illegal(path@, Encoding::Latin1, code),
        },
{
    let chars = chars_of(path);
    let mut out: Vec<u8> = Vec::new();
    let mut i: usize = 0;
    while i < chars.len()
        invariant
            i <= chars@.len(),
            chars@ == path@,
            spec_latin1_prefix(path@, i as int),
            out@.len() == i,
            forall|j: int| 0 <= j < i ==> out@[j] == spec_latin1_byte(#[trigger] path@[j]),
        decreases chars@.len() - i,
    {
        let code: u32 = char_code(chars[i]);
        if code > 255 {
            return Err(code);
        }
        out.push(code as u8);
        i += 1;
    }
    Ok(out)
}

/// Encodes `path` under `encoding`, without a length prefix.
pub fn encode_text(path: &str, encoding: Encoding) -> (r: Result<Vec<u8>, Error>)
    ensures
        match r {
            Ok(bytes) => spec_text_encodable(path@, encoding) && bytes@ == spec_text_bytes(
                path@,
                encoding,
            ),
            Err(Error::IllegalEncoding(code)) => spec_first_illegal(path@, encoding, code),
            Err(_) => false,
        },
{
    match encoding {
        Encoding::UTF8 => Ok(slice_to_vec(path.as_bytes())),
        Encoding::ASCII => {
            let bytes = path.as_bytes();
            match first_non_ascii(bytes) {
                Some(i) => Err(Error::IllegalEncoding(bytes[i] as u32)),
                None => Ok(slice_to_vec(bytes)),
            }
        },
        Encoding::Latin1 => match latin1_bytes(path) {
            Ok(bytes) => Ok(bytes),
            Err(code) => Err(Error::IllegalEncoding(code)),
        },
    }
}

/// Appends `path` to `out` as a stored string: the byte length of its encoded
/// form as a 32-bit number, then the encoded bytes. On failure `out` is left
/// as it was.
pub fn write_path(out: &mut Vec<u8>, path: &str, encoding: Encoding) -> (r: Result<(), Error>)
    ensures
        match r {
            Ok(()) => spec_path_storable(path@, encoding) && final(out)@ == old(out)@
                + spec_path_bytes(path@, encoding),
            Err(Error::IllegalEncoding(code)) => spec_first_illegal(path@, encoding, code)
                && final(out)@ == old(out)@,
            Err(Error::Oversize) => spec_text_encodable(path@, encoding) && spec_text_bytes(
                path@,
                encoding,
            ).len() > u32::MAX && final(out)@ == old(out)@,
            Err(_) => false,
        },
{
    let bytes = encode_text(path, encoding)?;
    if bytes.len() > u32::MAX as usize {
        return Err(Error::Oversize);
    }
    encode_u32(out, bytes.len() as u32);
    out.extend_from_slice(bytes.as_slice());
    Ok(())
}

/// The text of Latin-1 bytes.
fn latin1_string(bytes: &[u8]) -> (s: String)
    ensures
        s@ == spec_latin1_chars(bytes@),
{
    let mut s = String::new();
    let mut i: usize = 0;
    while i < bytes.len()
        invariant
            i <= bytes@.len(),
            s@.len() == i,
            forall|j: int| 0 <= j < i ==> s@[j] == (#[trigger] bytes@[j]) as char,
        decreases bytes@.len() - i,
    {
        string_push(&mut s, bytes[i] as char);
        i += 1;
    }
    s
}

/// Decodes `bytes` under `encoding`.
pub fn decode_text(bytes: &[u8], encoding: Encoding) -> (r: Result<String, Error>)
    ensures
        match r {
            Ok(s) => spec_text_chars(bytes@, encoding) == Some(s@),
            Err(e) => e == Error::InvalidEncoding && spec_text_chars(bytes@, encoding).is_none(),
        },
{
    match encoding {
        Encoding::UTF8 => match string_from_utf8(slice_to_vec(bytes)) {
            Some(s) => Ok(s),
            None => Err(Error::InvalidEncoding),
        },
        Encoding::ASCII => {
            if first_non_ascii(bytes).is_some() {
                return Err(Error::InvalidEncoding);
            }
            proof {
                lemma_ascii_is_utf8(bytes@);
            }
            match string_from_utf8(slice_to_vec(bytes)) {
                Some(s) => Ok(s),
                None => Err(Error::InvalidEncoding),
            }
        },
        Encoding::Latin1 => Ok(latin1_string(bytes)),
    }
}

/// Reads the stored string that starts at `pos`: a 32-bit byte count, then
/// that many bytes, decoded under `encoding`. Gives the text and the position
/// behind it.
pub fn read_path(data: &[u8], pos: usize, encoding: Encoding) -> (r: Result<(String, usize), Error>)
    ensures
        match r {
            Ok((s, next)) => spec_read_path(data@, pos as int, encoding) == Ok::<
                (Seq<char>, int),
                Error,
            >((s@, next as int)),
            Err(e) => spec_read_path(data@, pos as int, encoding) == Err::<(Seq<char>, int), Error>(
                e,
            ),
        },
{
    let (len, start) = decode_u32(data, pos)?;
    if len as usize > data.len() - start {
        return Err(Error::Truncated);
    }
    let end: usize = start + len as usize;
    let s = decode_text(slice_subrange(data, start, end), encoding)?;
    Ok((s, end))
}

/// The characters of `s`, one by one.
pub(crate) fn chars_of(s: &str) -> (v: Vec<char>)
    ensures
        v@ == s@,
{
    let mut v: Vec<char> = Vec::new();
    let mut it = s.chars();
    let ghost mut n: int = 0;
    proof {
        broadcast use vstd::string::group_string_axioms;

    }
    loop
        invariant
            0 <= n <= s@.len(),
            it.remaining() == s@.skip(n),
            it.obeys_prophetic_iter_laws(),
            v@ == s@.take(n),
        decreases s@.len() - n,
    {
        let next = it.next();
        proof {
            broadcast use vstd::string::group_string_axioms;

        }
        match next {
            None => {
                return v;
            },
            Some(c) => {
                v.push(c);
                proof {
                    n = n + 1;
                }
            },
        }
    }
}


} // verus!
