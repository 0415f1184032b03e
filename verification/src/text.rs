//! Legacy single-byte text decoding and byte-string trimming.
//!
//! Archive text fields use a one-byte-per-character encoding in which every
//! byte value maps to the Unicode code point of the same numeric value, so
//! decoding is total and length-preserving.

use vstd::prelude::*;

verus! {

/// Relies on `String::push`: appends exactly the given character.
pub assume_specification[ String::push ](s: &mut String, ch: char)
    ensures
        final(s)@ == old(s)@.push(ch),
;

/// What decoding a legacy-text byte sequence yields: one code point per byte,
/// each equal to the byte's own value.
pub open spec fn legacy_decode(b: Seq<u8>) -> Seq<char> {
    b.map(|_i: int, c: u8| c as char)
}

/// Decode a legacy-text byte string: every byte value becomes the Unicode
/// code point of the same value. Total and length-preserving.
pub fn iso88591_bytes_to_string(bytes: &[u8]) -> (r: String)
    ensures
        r@ == legacy_decode(bytes@),
        r@.len() == bytes@.len(),
        forall|i: int| 0 <= i < bytes@.len() ==> r@[i] == bytes@[i] as char,
{
    let mut ret = String::new();
    let mut i: usize = 0;
    while i < bytes.len()
        invariant
            0 <= i <= bytes@.len(),
            ret@ == legacy_decode(bytes@.take(i as int)),
        decreases bytes@.len() - i,
    {
        let b = bytes[i];
        ret.push(b as char);
        proof {
            assert(bytes@.take(i + 1).drop_last() =~= bytes@.take(i as int));
            assert(legacy_decode(bytes@.take(i + 1)) =~= legacy_decode(
                bytes@.take(i as int),
            ).push(bytes@[i as int] as char));
        }
        i = i + 1;
    }
    proof {
        assert(bytes@.take(bytes@.len() as int) =~= bytes@);
    }
    ret
}

/// The sequence with every trailing occurrence of `x` removed.
pub open spec fn seq_without_trailing_byte(b: Seq<u8>, x: u8) -> Seq<u8>
    decreases b.len(),
{
    if b.len() > 0 && b.last() == x {
        seq_without_trailing_byte(b.drop_last(), x)
    } else {
        b
    }
}

/// The sequence with every leading occurrence of `x` removed.
pub open spec fn seq_without_leading_byte(b: Seq<u8>, x: u8) -> Seq<u8>
    decreases b.len(),
{
    if b.len() > 0 && b[0] == x {
        seq_without_leading_byte(b.skip(1), x)
    } else {
        b
    }
}

fn trailing_cut_index(value: &[u8], x: u8) -> (n: usize)
    ensures
        0 <= n <= value@.len(),
        value@.take(n as int) == seq_without_trailing_byte(value@, x),
{
    let mut n = value.len();
    proof {
        assert(value@.take(value@.len() as int) =~= value@);
    }
    while n > 0 && value[n - 1] == x
        invariant
            0 <= n <= value@.len(),
            seq_without_trailing_byte(value@.take(n as int), x) == seq_without_trailing_byte(
                value@,
                x,
            ),
        decreases n,
    {
        proof {
            assert(value@.take(n as int).last() == x);
            assert(value@.take(n as int).drop_last() =~= value@.take(n - 1));
        }
        n = n - 1;
    }
    proof {
        if n > 0 {
            assert(value@.take(n as int).last() != x);
        }
        assert(value@.take(n as int) == seq_without_trailing_byte(value@.take(n as int), x));
    }
    n
}

/// Strip every trailing 0x00 byte, returning the remaining prefix.
pub fn without_trailing_zero_bytes(value: &[u8]) -> (r: &[u8])
    ensures
        r@ == seq_without_trailing_byte(value@, 0),
{
    let n = trailing_cut_index(value, 0);
    vstd::slice::slice_subrange(value, 0, n)
}

/// Strip every trailing space (0x20) byte, returning the remaining prefix.
pub fn without_trailing_spaces(value: &[u8]) -> (r: &[u8])
    ensures
        r@ == seq_without_trailing_byte(value@, 0x20),
{
    let n = trailing_cut_index(value, 0x20);
    vstd::slice::slice_subrange(value, 0, n)
}

/// Strip every leading 0x00 byte, returning the remaining suffix.
pub fn without_leading_zero_bytes(value: &[u8]) -> (r: &[u8])
    ensures
        r@ == seq_without_leading_byte(value@, 0),
{
    let mut i: usize = 0;
    proof {
        assert(value@.skip(0) =~= value@);
    }
    while i < value.len() && value[i] == 0
        invariant
            0 <= i <= value@.len(),
            seq_without_leading_byte(value@.skip(i as int), 0) == seq_without_leading_byte(
                value@,
                0,
            ),
        decreases value@.len() - i,
    {
        proof {
            assert(value@.skip(i as int)[0] == 0);
            assert(value@.skip(i as int).skip(1) =~= value@.skip(i + 1));
        }
        i = i + 1;
    }
    proof {
        assert(value@.skip(i as int) == seq_without_leading_byte(value@.skip(i as int), 0));
    }
    vstd::slice::slice_subrange(value, i, value.len())
}

} // verus!
