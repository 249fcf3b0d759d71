//! The building blocks of the canonical byte form: fixed-width little-endian
//! integers, byte strings behind a 64-bit length, and UTF-8 text.
//!
//! Every block has a spec function that says which bytes stand for a value and
//! one that says which value a run of bytes stands for, with what is left over.
//! The executable readers and writers are proved against them, and the lemmas
//! show that reading undoes writing.
use vstd::prelude::*;
use vstd::slice::slice_subrange;
use vstd::slice::slice_to_vec;
use vstd::utf8::decode_utf8;
use vstd::utf8::encode_utf8;
use vstd::utf8::encode_utf8_decode_utf8;
use vstd::utf8::encode_utf8_valid_utf8;
use vstd::utf8::valid_utf8;

verus! {

/// Why bytes were not accepted as the canonical form of a value.
#[derive(Clone, Copy, Debug, PartialEq, Eq, Structural)]
pub enum DecodeError {
    /// The bytes end before the value does.
    Truncated,
    /// A text field does not hold UTF-8.
    InvalidText,
    /// The fields of a timestamp do not name a moment of the calendar.
    InvalidTimestamp,
    /// The bytes of a public key are not accepted as key material.
    InvalidKey,
}

/// What a reader makes of bytes: the value at their front and the bytes that
/// follow it, or the reason for refusing them.
pub type Parsed<V> = Result<(V, Seq<u8>), DecodeError>;

/// 256 to the power `n`.
pub open spec fn pow256(n: nat) -> nat
    decreases n,
{
    if n == 0 {
        1
    } else {
        256 * pow256((n - 1) as nat)
    }
}

/// The `width` low-order bytes of `x`, least significant first.
pub open spec fn le_bytes(x: nat, width: nat) -> Seq<u8>
    decreases width,
{
    if width == 0 {
        Seq::empty()
    } else {
        seq![(x % 256) as u8] + le_bytes(x / 256, (width - 1) as nat)
    }
}

/// The number that `bytes` spell, least significant byte first.
pub open spec fn le_value(bytes: Seq<u8>) -> nat
    decreases bytes.len(),
{
    if bytes.len() == 0 {
        0
    } else {
        bytes[0] as nat + 256 * le_value(bytes.drop_first())
    }
}

/// A byte string on the wire: its length in eight bytes, then the bytes.
pub open spec fn bytes_field(content: Seq<u8>) -> Seq<u8> {
    le_bytes(content.len(), 8) + content
}

/// Text on the wire: its UTF-8 bytes as a byte string.
pub open spec fn text_field(text: Seq<char>) -> Seq<u8> {
    bytes_field(encode_utf8(text))
}

/// The byte string at the front of `bytes`.
pub open spec fn parse_bytes_field(bytes: Seq<u8>) -> Parsed<Seq<u8>> {
    if bytes.len() < 8 {
        Err(DecodeError::Truncated)
    } else {
        let len = le_value(bytes.subrange(0, 8)) as int;
        if bytes.len() - 8 < len {
            Err(DecodeError::Truncated)
        } else {
            Ok((bytes.subrange(8, 8 + len), bytes.skip(8 + len)))
        }
    }
}

/// The text at the front of `bytes`.
pub open spec fn parse_text_field(bytes: Seq<u8>) -> Parsed<Seq<char>> {
    match parse_bytes_field(bytes) {
        Ok((raw, rest)) => if valid_utf8(raw) {
            Ok((decode_utf8(raw), rest))
        } else {
            Err(DecodeError::InvalidText)
        },
        Err(e) => Err(e),
    }
}

pub proof fn lemma_pow256_values()
    ensures
        pow256(0) == 1,
        pow256(1) == 0x100,
        pow256(2) == 0x1_0000,
        pow256(3) == 0x100_0000,
        pow256(4) == 0x1_0000_0000,
        pow256(5) == 0x100_0000_0000,
        pow256(6) == 0x1_0000_0000_0000,
        pow256(7) == 0x100_0000_0000_0000,
        pow256(8) == 0x1_0000_0000_0000_0000,
{
    reveal_with_fuel(pow256, 9);
}

pub proof fn lemma_pow256_monotonic(a: nat, b: nat)
    requires
        a <= b,
    ensures
        0 < pow256(a) <= pow256(b),
    decreases b,
{
    if b == 0 {
    } else if a == b {
        lemma_pow256_monotonic((a - 1) as nat, (b - 1) as nat);
    } else {
        lemma_pow256_monotonic(a, (b - 1) as nat);
    }
}

pub proof fn lemma_le_bytes_len(x: nat, width: nat)
    ensures
        le_bytes(x, width).len() == width,
    decreases width,
{
    if width > 0 {
        lemma_le_bytes_len(x / 256, (width - 1) as nat);
    }
}

pub proof fn lemma_le_value_bound(bytes: Seq<u8>)
    ensures
        le_value(bytes) < pow256(bytes.len()),
    decreases bytes.len(),
{
    if bytes.len() > 0 {
        lemma_le_value_bound(bytes.drop_first());
    }
}

/// Reading a number back from its bytes gives the number, where it fits the
/// width.
pub proof fn lemma_le_value_of_le_bytes(x: nat, width: nat)
    requires
        x < pow256(width),
    ensures
        le_value(le_bytes(x, width)) == x,
    decreases width,
{
    if width > 0 {
        let rest = le_bytes(x / 256, (width - 1) as nat);
        lemma_le_value_of_le_bytes(x / 256, (width - 1) as nat);
        assert(le_bytes(x, width).drop_first() =~= rest);
    }
}

/// A byte string is read back from the front of whatever it was written
/// before, where its length fits eight bytes.
pub proof fn lemma_bytes_field_round_trip(content: Seq<u8>, tail: Seq<u8>)
    requires
        content.len() < pow256(8),
    ensures
        parse_bytes_field(bytes_field(content) + tail) == Ok::<(Seq<u8>, Seq<u8>), DecodeError>(
            (content, tail),
        ),
{
    let bytes = bytes_field(content) + tail;
    lemma_le_bytes_len(content.len(), 8);
    lemma_le_value_of_le_bytes(content.len(), 8);
    assert(bytes.subrange(0, 8) =~= le_bytes(content.len(), 8));
    assert(bytes.subrange(8, 8 + content.len() as int) =~= content);
    assert(bytes.skip(8 + content.len() as int) =~= tail);
}

/// Text is read back from the front of whatever it was written before, where
/// the length of its UTF-8 form fits eight bytes.
pub proof fn lemma_text_field_round_trip(text: Seq<char>, tail: Seq<u8>)
    requires
        encode_utf8(text).len() < pow256(8),
    ensures
        parse_text_field(text_field(text) + tail) == Ok::<(Seq<char>, Seq<u8>), DecodeError>(
            (text, tail),
        ),
{
    lemma_bytes_field_round_trip(encode_utf8(text), tail);
    encode_utf8_valid_utf8(text);
    encode_utf8_decode_utf8(text);
}

/// Appends the `width` low-order bytes of `x` to `out`, least significant
/// first.
pub(crate) fn put_le(out: &mut Vec<u8>, x: u64, width: usize)
    requires
        width <= 8,
    ensures
        final(out)@ == old(out)@ + le_bytes(x as nat, width as nat),
{
    let mut rest: u64 = x;
    let mut i: usize = 0;
    assert(out@ + le_bytes(rest as nat, (width - i) as nat) == old(out)@ + le_bytes(
        x as nat,
        width as nat,
    ));
    while i < width
        invariant
            i <= width,
            out@ + le_bytes(rest as nat, (width - i) as nat) == old(out)@ + le_bytes(
                x as nat,
                width as nat,
            ),
        decreases width - i,
    {
        let ghost before = out@;
        let low: u8 = (rest % 256) as u8;
        out.push(low);
        proof {
            let tail = le_bytes((rest / 256) as nat, (width - i - 1) as nat);
            assert(le_bytes(rest as nat, (width - i) as nat) == seq![low] + tail);
            assert(before.push(low) + tail =~= before + (seq![low] + tail));
        }
        rest = rest / 256;
        i = i + 1;
    }
    assert(le_bytes(rest as nat, 0) =~= Seq::<u8>::empty());
    assert(out@ + Seq::<u8>::empty() =~= out@);
}

/// The number that the `width` bytes at `at` spell, least significant first.
pub(crate) fn get_le(bytes: &[u8], at: usize, width: usize) -> (x: u64)
    requires
        width <= 8,
        at + width <= bytes@.len(),
    ensures
        x as nat == le_value(bytes@.subrange(at as int, at + width)),
{
    let total: usize = bytes.len();
    let mut x: u64 = 0;
    let mut i: usize = width;
    assert(bytes@.subrange(at + width, at + width) =~= Seq::<u8>::empty());
    while i > 0
        invariant
            i <= width <= 8,
            at + width <= bytes@.len() == total,
            x as nat == le_value(bytes@.subrange(at + i, at + width)),
        decreases i,
    {
        proof {
            let high = bytes@.subrange(at + i, at + width);
            let more = bytes@.subrange(at + i - 1, at + width);
            lemma_le_value_bound(high);
            lemma_pow256_monotonic(high.len(), 7);
            lemma_pow256_values();
            assert(more.drop_first() =~= high);
        }
        i = i - 1;
        x = x * 256 + bytes[at + i] as u64;
    }
    x
}

/// Appends `content` to `out` behind its length.
pub(crate) fn put_bytes_field(out: &mut Vec<u8>, content: &[u8])
    ensures
        final(out)@ == old(out)@ + bytes_field(content@),
{
    put_le(out, content.len() as u64, 8);
    let ghost headed = out@;
    out.extend_from_slice(content);
    assert(out@ =~= headed + content@);
    assert(headed + content@ =~= old(out)@ + bytes_field(content@));
}

/// Appends `text` to `out` as a byte string.
pub(crate) fn put_text_field(out: &mut Vec<u8>, text: &str)
    ensures
        final(out)@ == old(out)@ + text_field(text@),
{
    put_bytes_field(out, text.as_bytes());
}

/// Reads the byte string that starts at `at`: its content, and where the next
/// field starts.
pub(crate) fn get_bytes_field(bytes: &[u8], at: usize) -> (r: Result<(Vec<u8>, usize), DecodeError>)
    requires
        at <= bytes@.len(),
    ensures
        match r {
            Ok((content, next)) => at <= next <= bytes@.len() && parse_bytes_field(
                bytes@.skip(at as int),
            ) == Ok::<(Seq<u8>, Seq<u8>), DecodeError>((content@, bytes@.skip(next as int))),
            Err(e) => parse_bytes_field(bytes@.skip(at as int)) == Err::<
                (Seq<u8>, Seq<u8>),
                DecodeError,
            >(e),
        },
{
    let ghost input = bytes@.skip(at as int);
    let left: usize = bytes.len() - at;
    if left < 8 {
        return Err(DecodeError::Truncated);
    }
    let len: u64 = get_le(bytes, at, 8);
    assert(bytes@.subrange(at as int, at + 8) =~= input.subrange(0, 8));
    if ((left - 8) as u64) < len {
        return Err(DecodeError::Truncated);
    }
    let start: usize = at + 8;
    let next: usize = start + len as usize;
    let content = slice_to_vec(slice_subrange(bytes, start, next));
    assert(content@ =~= input.subrange(8, 8 + len));
    assert(bytes@.skip(next as int) =~= input.skip(8 + len));
    Ok((content, next))
}

/// Makes a `String` of `bytes` with `String::from_utf8`, which accepts
/// exactly the byte strings that are UTF-8 and keeps their bytes.
#[verifier::external_body]
pub(crate) fn string_from_utf8(bytes: Vec<u8>) -> (r: Option<String>)
    ensures
        match r {
            Some(text) => encode_utf8(text@) == bytes@,
            None => !valid_utf8(bytes@),
        },
{
    String::from_utf8(bytes).ok()
}

/// Reads the text that starts at `at`, and where the next field starts.
pub(crate) fn get_text_field(bytes: &[u8], at: usize) -> (r: Result<(String, usize), DecodeError>)
    requires
        at <= bytes@.len(),
    ensures
        match r {
            Ok((text, next)) => at <= next <= bytes@.len() && parse_text_field(
                bytes@.skip(at as int),
            ) == Ok::<(Seq<char>, Seq<u8>), DecodeError>((text@, bytes@.skip(next as int))),
            Err(e) => parse_text_field(bytes@.skip(at as int)) == Err::<
                (Seq<char>, Seq<u8>),
                DecodeError,
            >(e),
        },
{
    match get_bytes_field(bytes, at) {
        Ok((raw, next)) => {
            let ghost raw_bytes = raw@;
            match string_from_utf8(raw) {
                Some(text) => {
                    proof {
                        encode_utf8_valid_utf8(text@);
                        encode_utf8_decode_utf8(text@);
                    }
                    Ok((text, next))
                },
                None => Err(DecodeError::InvalidText),
            }
        },
        Err(e) => Err(e),
    }
}

} // verus!
