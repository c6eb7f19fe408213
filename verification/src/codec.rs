//! The building blocks of the records' byte format: little-endian
//! integers, texts led by their length, and a flag byte, each with the
//! function that writes it, the function that reads it and the proof that
//! reading gives back what was written.

use vstd::bytes::*;
use vstd::prelude::*;
use vstd::slice::slice_subrange;
use vstd::utf8::*;

verus! {

/// The two's complement of a signed number.
pub open spec fn unsigned(x: i64) -> u64 {
    if x >= 0 {
        x as u64
    } else {
        (x + 0x1_0000_0000_0000_0000) as u64
    }
}

/// The signed number of a two's complement.
pub open spec fn signed(u: u64) -> i64 {
    if u < 0x8000_0000_0000_0000 {
        u as i64
    } else {
        (u - 0x1_0000_0000_0000_0000) as i64
    }
}

/// Going to the two's complement and back gives the number.
pub proof fn lemma_signed_unsigned(x: i64)
    ensures
        signed(unsigned(x)) == x,
{
}

/// Computes the two's complement.
pub fn to_unsigned(x: i64) -> (u: u64)
    ensures
        u == unsigned(x),
{
    if x >= 0 {
        x as u64
    } else {
        u64::MAX - ((-(x + 1)) as u64)
    }
}

/// Computes the signed number of a two's complement.
pub fn to_signed(u: u64) -> (x: i64)
    ensures
        x == signed(u),
{
    if u < 0x8000_0000_0000_0000 {
        u as i64
    } else {
        -((u64::MAX - u) as i64) - 1
    }
}

/// The bytes of a text: its length in bytes as four little-endian bytes,
/// then its UTF-8 encoding. A text of more than `u32::MAX` bytes has none.
pub open spec fn text_bytes(chars: Seq<char>) -> Option<Seq<u8>> {
    let body = encode_utf8(chars);
    if body.len() <= u32::MAX {
        Some(spec_u32_to_le_bytes(body.len() as u32) + body)
    } else {
        None
    }
}

/// The byte of a flag.
pub open spec fn flag_bytes(flag: bool) -> Seq<u8> {
    if flag {
        seq![1u8]
    } else {
        seq![0u8]
    }
}

/// The four-byte number at `at`, and the position after it.
pub open spec fn read_u32(bytes: Seq<u8>, at: int) -> Option<(u32, int)> {
    if 0 <= at && at + 4 <= bytes.len() {
        Some((spec_u32_from_le_bytes(bytes.subrange(at, at + 4)), at + 4))
    } else {
        None
    }
}

/// The eight-byte number at `at`, and the position after it.
pub open spec fn read_u64(bytes: Seq<u8>, at: int) -> Option<(u64, int)> {
    if 0 <= at && at + 8 <= bytes.len() {
        Some((spec_u64_from_le_bytes(bytes.subrange(at, at + 8)), at + 8))
    } else {
        None
    }
}

/// The flag at `at`, and the position after it. A zero byte is `false`,
/// every other byte is `true`.
pub open spec fn read_flag(bytes: Seq<u8>, at: int) -> Option<(bool, int)> {
    if 0 <= at < bytes.len() {
        Some((bytes[at] != 0, at + 1))
    } else {
        None
    }
}

/// The text at `at`, and the position after it. The bytes after the length
/// must be there and must be UTF-8.
pub open spec fn read_text(bytes: Seq<u8>, at: int) -> Option<(Seq<char>, int)> {
    match read_u32(bytes, at) {
        Some((n, body)) => if body + n <= bytes.len() && valid_utf8(
            bytes.subrange(body, body + n),
        ) {
            Some((decode_utf8(bytes.subrange(body, body + n)), body + n))
        } else {
            None
        },
        None => None,
    }
}

/// Appends a four-byte number.
pub fn put_u32(out: &mut Vec<u8>, n: u32)
    ensures
        final(out)@ == old(out)@ + spec_u32_to_le_bytes(n),
{
    let bytes = u32_to_le_bytes(n);
    out.extend_from_slice(bytes.as_slice());
}

/// Appends an eight-byte number.
pub fn put_u64(out: &mut Vec<u8>, n: u64)
    ensures
        final(out)@ == old(out)@ + spec_u64_to_le_bytes(n),
{
    let bytes = u64_to_le_bytes(n);
    out.extend_from_slice(bytes.as_slice());
}

/// Appends a flag.
pub fn put_flag(out: &mut Vec<u8>, flag: bool)
    ensures
        final(out)@ == old(out)@ + flag_bytes(flag),
{
    if flag {
        out.push(1u8);
    } else {
        out.push(0u8);
    }
    assert(out@ == old(out)@ + flag_bytes(flag));
}

/// Appends a text. Returns `false`, with nothing appended, where the text
/// has no bytes because it is too long.
pub fn put_text(out: &mut Vec<u8>, text: &str) -> (done: bool)
    ensures
        match text_bytes(text@) {
            Some(bytes) => done && final(out)@ == old(out)@ + bytes,
            None => !done && final(out)@ == old(out)@,
        },
{
    let body = text.as_bytes();
    if body.len() > 0xffff_ffff {
        return false;
    }
    put_u32(out, body.len() as u32);
    out.extend_from_slice(body);
    assert(out@ == old(out)@ + (spec_u32_to_le_bytes(body@.len() as u32) + body@));
    true
}

/// Reads the four-byte number at `at`.
pub fn take_u32(bytes: &[u8], at: usize) -> (r: Option<(u32, usize)>)
    ensures
        match r {
            Some(step) => read_u32(bytes@, at as int) == Some((step.0, step.1 as int)),
            None => read_u32(bytes@, at as int) is None,
        },
{
    if at > bytes.len() || bytes.len() - at < 4 {
        return None;
    }
    let n = u32_from_le_bytes(slice_subrange(bytes, at, at + 4));
    Some((n, at + 4))
}

/// Reads the eight-byte number at `at`.
pub fn take_u64(bytes: &[u8], at: usize) -> (r: Option<(u64, usize)>)
    ensures
        match r {
            Some(step) => read_u64(bytes@, at as int) == Some((step.0, step.1 as int)),
            None => read_u64(bytes@, at as int) is None,
        },
{
    if at > bytes.len() || bytes.len() - at < 8 {
        return None;
    }
    let n = u64_from_le_bytes(slice_subrange(bytes, at, at + 8));
    Some((n, at + 8))
}

/// Reads the flag at `at`.
pub fn take_flag(bytes: &[u8], at: usize) -> (r: Option<(bool, usize)>)
    ensures
        match r {
            Some(step) => read_flag(bytes@, at as int) == Some((step.0, step.1 as int)),
            None => read_flag(bytes@, at as int) is None,
        },
{
    if at >= bytes.len() {
        return None;
    }
    Some((bytes[at] != 0, at + 1))
}

/// Turns bytes into a text with `String::from_utf8`, which succeeds exactly
/// on valid UTF-8 and then gives the text that the bytes encode.
#[verifier::external_body]
pub(crate) fn text_from_utf8(bytes: Vec<u8>) -> (r: Option<String>)
    ensures
        match r {
            Some(text) => valid_utf8(bytes@) && text@ == decode_utf8(bytes@),
            None => !valid_utf8(bytes@),
        },
{
    String::from_utf8(bytes).ok()
}

/// Reads the text at `at`.
pub fn take_text(bytes: &[u8], at: usize) -> (r: Option<(String, usize)>)
    ensures
        match r {
            Some(step) => read_text(bytes@, at as int) == Some((step.0@, step.1 as int)),
            None => read_text(bytes@, at as int) is None,
        },
{
    let (n, body) = match take_u32(bytes, at) {
        Some(step) => step,
        None => {
            return None;
        },
    };
    let room = (bytes.len() - body) as u64;
    let wanted = n as u64;
    if room < wanted {
        return None;
    }
    let end = body + n as usize;
    let raw = vstd::slice::slice_to_vec(slice_subrange(bytes, body, end));
    match text_from_utf8(raw) {
        Some(text) => Some((text, end)),
        None => None,
    }
}

/// Reading a four-byte number where it was written gives it back.
pub proof fn lemma_read_u32(prefix: Seq<u8>, n: u32, suffix: Seq<u8>)
    ensures
        read_u32(prefix + spec_u32_to_le_bytes(n) + suffix, prefix.len() as int) == Some(
            (n, prefix.len() as int + 4),
        ),
{
    lemma_auto_spec_u32_to_from_le_bytes();
    let all = prefix + spec_u32_to_le_bytes(n) + suffix;
    let at = prefix.len() as int;
    assert(all.subrange(at, at + 4) == spec_u32_to_le_bytes(n));
}

/// Reading an eight-byte number where it was written gives it back.
pub proof fn lemma_read_u64(prefix: Seq<u8>, n: u64, suffix: Seq<u8>)
    ensures
        read_u64(prefix + spec_u64_to_le_bytes(n) + suffix, prefix.len() as int) == Some(
            (n, prefix.len() as int + 8),
        ),
{
    lemma_auto_spec_u64_to_from_le_bytes();
    let all = prefix + spec_u64_to_le_bytes(n) + suffix;
    let at = prefix.len() as int;
    assert(all.subrange(at, at + 8) == spec_u64_to_le_bytes(n));
}

/// Reading a flag where it was written gives it back.
pub proof fn lemma_read_flag(prefix: Seq<u8>, flag: bool, suffix: Seq<u8>)
    ensures
        read_flag(prefix + flag_bytes(flag) + suffix, prefix.len() as int) == Some(
            (flag, prefix.len() as int + 1),
        ),
{
    let all = prefix + flag_bytes(flag) + suffix;
    assert(all[prefix.len() as int] == flag_bytes(flag)[0]);
}

/// Reading a text where it was written gives it back.
pub proof fn lemma_read_text(prefix: Seq<u8>, chars: Seq<char>, suffix: Seq<u8>)
    requires
        text_bytes(chars) is Some,
    ensures
        read_text(prefix + text_bytes(chars)->0 + suffix, prefix.len() as int) == Some(
            (chars, prefix.len() as int + text_bytes(chars)->0.len()),
        ),
        text_bytes(chars)->0.len() == 4 + encode_utf8(chars).len(),
{
    let body = encode_utf8(chars);
    let n = body.len() as u32;
    let all = prefix + text_bytes(chars)->0 + suffix;
    lemma_auto_spec_u32_to_from_le_bytes();
    assert(all == prefix + spec_u32_to_le_bytes(n) + (body + suffix));
    lemma_read_u32(prefix, n, body + suffix);
    let start = prefix.len() as int + 4;
    assert(all.subrange(start, start + n) == body);
    encode_utf8_valid_utf8(chars);
    encode_utf8_decode_utf8(chars);
}

} // verus!
