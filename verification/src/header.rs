//! The archive header: detection and decoding of the three historical
//! header encodings.
//!
//! `spec_read_header` is the byte-exact statement of the format: which
//! separator bytes are tolerated at each index, how the marker byte at
//! offset 126 selects the variant, what the encoded variant's detection
//! fields must satisfy, and where every fixed field lives. `FileHeader::
//! try_read` is proved to return exactly what that statement says, for
//! every byte sequence.

use vstd::prelude::*;

use crate::cursor::{u32_le_at, ByteCursor};
use crate::error::{Error, ErrorSpec, ENCODE_VALUE_XOR, HEAD_TAIL_XOR};
use crate::smallbuf::{tb_bytes, TextBuf};
use crate::text::{seq_without_trailing_byte, without_trailing_spaces, without_trailing_zero_bytes};
use vstd::utf8::{decode_utf8, valid_utf8};

verus! {

/// Archive-level metadata read from the front of the source.
#[derive(Debug)]
pub struct FileHeader {
    pub file_type: TextBuf,
    pub user_title: TextBuf,
    pub version: u32,
    pub root_dir_position: u32,
    pub root_dir_size: u32,
    pub root_dir_time: u32,
    pub next_write_pos: u32,
    pub time: u32,
    pub largest_key_ary: u32,
    pub largest_dir_name_size: u32,
    pub largest_rez_name_size: u32,
    pub largest_comment_size: u32,
    pub is_sorted: bool,
}

/// The mathematical image of a decoded header.
pub ghost struct HeaderSpec {
    pub file_type: Seq<u8>,
    pub user_title: Seq<u8>,
    pub version: u32,
    pub root_dir_position: u32,
    pub root_dir_size: u32,
    pub root_dir_time: u32,
    pub next_write_pos: u32,
    pub time: u32,
    pub largest_key_ary: u32,
    pub largest_dir_name_size: u32,
    pub largest_rez_name_size: u32,
    pub largest_comment_size: u32,
    pub is_sorted: bool,
}

/// What decoding the header of a byte sequence yields: either the header
/// and the offset of the first byte after it, or the exact error.
pub ghost enum HeaderParse {
    Parsed { header: HeaderSpec, end: int },
    Fail { err: ErrorSpec },
}

/// Whether a separator byte holds its primary or its tolerated alternate
/// value.
pub open spec fn ctrl_ok(value: u8, expected1: u8, expected2: u8) -> bool {
    value == expected1 || value == expected2
}

pub open spec fn eof_fail() -> HeaderParse {
    HeaderParse::Fail { err: ErrorSpec::UnexpectedEof }
}

pub open spec fn ctrl_fail(index: int, expected1: u8, expected2: u8, obtained: u8) -> HeaderParse {
    HeaderParse::Fail {
        err: ErrorSpec::InvalidControlByte {
            index,
            expected_one_of: seq![expected1, expected2],
            obtained,
        },
    }
}

/// Whether every byte is an ASCII decimal digit.
pub open spec fn is_dec_digits(b: Seq<u8>) -> bool {
    forall|i: int| 0 <= i < b.len() ==> 0x30 <= #[trigger] b[i] <= 0x39
}

/// The integer denoted by a sequence of ASCII decimal digits.
pub open spec fn dec_value(b: Seq<u8>) -> int
    decreases b.len(),
{
    if b.len() == 0 {
        0
    } else {
        dec_value(b.drop_last()) * 10 + (b.last() - 0x30)
    }
}

/// How an encoded-integer token parses: an optional leading `+`, then one
/// or more ASCII decimal digits whose value fits in 32 bits.
pub open spec fn parse_u32_bytes(b: Seq<u8>) -> Option<u32> {
    let t = if b.len() > 0 && b[0] == 0x2B {
        b.skip(1)
    } else {
        b
    };
    if t.len() > 0 && is_dec_digits(t) && dec_value(t) <= 0xFFFF_FFFF {
        Some(dec_value(t) as u32)
    } else {
        None
    }
}

/// The nine fixed 32-bit fields and the sort flag that close every header
/// variant, starting at `body_end`.
pub open spec fn spec_header_tail(d: Seq<u8>, version: u32, body_end: int) -> HeaderParse {
    if d.len() < body_end + 37 {
        eof_fail()
    } else {
        HeaderParse::Parsed {
            header: HeaderSpec {
                file_type: seq_without_trailing_byte(d.subrange(2, 62), 0x20),
                user_title: seq_without_trailing_byte(d.subrange(64, 124), 0x20),
                version,
                root_dir_position: u32_le_at(d, body_end),
                root_dir_size: u32_le_at(d, body_end + 4),
                root_dir_time: u32_le_at(d, body_end + 8),
                next_write_pos: u32_le_at(d, body_end + 12),
                time: u32_le_at(d, body_end + 16),
                largest_key_ary: u32_le_at(d, body_end + 20),
                largest_dir_name_size: u32_le_at(d, body_end + 24),
                largest_rez_name_size: u32_le_at(d, body_end + 28),
                largest_comment_size: u32_le_at(d, body_end + 32),
                is_sorted: d[body_end + 36] != 0,
            },
            end: body_end + 37,
        }
    }
}

/// The EOF-marker variant: a version of 1 follows directly; otherwise three
/// filler bytes are discarded and the version must then be 2.
pub open spec fn spec_variant_eof_marker(d: Seq<u8>) -> HeaderParse {
    if d.len() < 131 {
        eof_fail()
    } else if u32_le_at(d, 127) == 1 {
        spec_header_tail(d, 1, 131)
    } else if d.len() < 138 {
        eof_fail()
    } else if u32_le_at(d, 134) != 2 {
        HeaderParse::Fail {
            err: ErrorSpec::InvalidVersion { expected: 2, obtained: u32_le_at(d, 134) },
        }
    } else {
        spec_header_tail(d, 2, 138)
    }
}

/// The self-validating encoded variant: `head`, a 32-byte decimal token,
/// `tail`, then detection copies tied by fixed XOR masks, then a version
/// that must be 1.
pub open spec fn spec_variant_encoded(d: Seq<u8>) -> HeaderParse {
    if d.len() < 162 {
        eof_fail()
    } else {
        let head = d[127];
        let tail = d[160];
        let detect_head = d[161];
        if detect_head != (head ^ HEAD_TAIL_XOR) {
            HeaderParse::Fail { err: ErrorSpec::InvalidDetectHead { head, detect_head } }
        } else {
            let t1 = seq_without_trailing_byte(d.subrange(128, 160), 0);
            if !valid_utf8(t1) {
                HeaderParse::Fail {
                    err: ErrorSpec::InvalidEncodeUtf8 { detection_value: false, bytes: t1 },
                }
            } else if parse_u32_bytes(t1) is None {
                HeaderParse::Fail {
                    err: ErrorSpec::InvalidEncodeInteger {
                        detection_value: false,
                        string: decode_utf8(t1),
                    },
                }
            } else {
                let encode_value = parse_u32_bytes(t1)->Some_0;
                if d.len() < 194 {
                    eof_fail()
                } else {
                    let t2 = seq_without_trailing_byte(d.subrange(162, 194), 0);
                    if !valid_utf8(t2) {
                        HeaderParse::Fail {
                            err: ErrorSpec::InvalidEncodeUtf8 { detection_value: true, bytes: t2 },
                        }
                    } else if parse_u32_bytes(t2) is None {
                        HeaderParse::Fail {
                            err: ErrorSpec::InvalidEncodeInteger {
                                detection_value: true,
                                string: decode_utf8(t2),
                            },
                        }
                    } else {
                        let detect_encode_value = parse_u32_bytes(t2)->Some_0;
                        if detect_encode_value != (encode_value ^ ENCODE_VALUE_XOR) {
                            HeaderParse::Fail {
                                err: ErrorSpec::EncodeValueMismatch {
                                    encode_value,
                                    detect_encode_value,
                                },
                            }
                        } else if d.len() < 195 {
                            eof_fail()
                        } else if d[194] != (tail ^ HEAD_TAIL_XOR) {
                            HeaderParse::Fail {
                                err: ErrorSpec::InvalidDetectTail { tail, detect_tail: d[194] },
                            }
                        } else if d.len() < 199 {
                            eof_fail()
                        } else if u32_le_at(d, 195) != 1 {
                            HeaderParse::Fail {
                                err: ErrorSpec::InvalidVersion {
                                    expected: 1,
                                    obtained: u32_le_at(d, 195),
                                },
                            }
                        } else {
                            spec_header_tail(d, 1, 199)
                        }
                    }
                }
            }
        }
    }
}

/// What decoding a header from the front of `d` yields, byte for byte.
pub open spec fn spec_read_header(d: Seq<u8>) -> HeaderParse {
    if d.len() < 2 {
        eof_fail()
    } else if !ctrl_ok(d[0], 0x0D, 0x26) {
        ctrl_fail(0, 0x0D, 0x26, d[0])
    } else if !ctrl_ok(d[1], 0x0A, 0x23) {
        ctrl_fail(1, 0x0A, 0x23, d[1])
    } else if d.len() < 64 {
        eof_fail()
    } else if !ctrl_ok(d[62], 0x0D, 0x21) {
        ctrl_fail(2, 0x0D, 0x21, d[62])
    } else if !ctrl_ok(d[63], 0x0A, 0x22) {
        ctrl_fail(3, 0x0A, 0x22, d[63])
    } else if d.len() < 127 {
        eof_fail()
    } else if !ctrl_ok(d[124], 0x0D, 0x25) {
        ctrl_fail(4, 0x0D, 0x25, d[124])
    } else if !ctrl_ok(d[125], 0x0A, 0x27) {
        ctrl_fail(5, 0x0A, 0x27, d[125])
    } else if !ctrl_ok(d[126], 0x1A, 0x2A) {
        ctrl_fail(6, 0x1A, 0x2A, d[126])
    } else if d[126] == 0x1A {
        spec_variant_eof_marker(d)
    } else {
        spec_variant_encoded(d)
    }
}

/// Whether an in-memory header holds exactly the fields of its
/// mathematical image.
pub open spec fn header_matches(h: FileHeader, g: HeaderSpec) -> bool {
    &&& tb_bytes(h.file_type) == g.file_type
    &&& tb_bytes(h.user_title) == g.user_title
    &&& h.version == g.version
    &&& h.root_dir_position == g.root_dir_position
    &&& h.root_dir_size == g.root_dir_size
    &&& h.root_dir_time == g.root_dir_time
    &&& h.next_write_pos == g.next_write_pos
    &&& h.time == g.time
    &&& h.largest_key_ary == g.largest_key_ary
    &&& h.largest_dir_name_size == g.largest_dir_name_size
    &&& h.largest_rez_name_size == g.largest_rez_name_size
    &&& h.largest_comment_size == g.largest_comment_size
    &&& h.is_sorted == g.is_sorted
}

proof fn lemma_dec_value_nonneg(b: Seq<u8>)
    requires
        is_dec_digits(b),
    ensures
        dec_value(b) >= 0,
    decreases b.len(),
{
    if b.len() > 0 {
        assert(is_dec_digits(b.drop_last()));
        lemma_dec_value_nonneg(b.drop_last());
    }
}

proof fn lemma_dec_value_prefix(b: Seq<u8>, k: int)
    requires
        is_dec_digits(b),
        0 <= k <= b.len(),
    ensures
        dec_value(b.take(k)) <= dec_value(b),
    decreases b.len(),
{
    if k == b.len() {
        assert(b.take(k) =~= b);
    } else {
        assert(is_dec_digits(b.drop_last()));
        assert(b.drop_last().take(k) =~= b.take(k));
        lemma_dec_value_prefix(b.drop_last(), k);
        lemma_dec_value_nonneg(b.drop_last());
    }
}

/// Parse an ASCII decimal token: an optional leading `+`, then one or more
/// digits whose value fits in 32 bits.
pub fn parse_u32_decimal(b: &[u8]) -> (r: Option<u32>)
    ensures
        r == parse_u32_bytes(b@),
{
    let start: usize = if b.len() > 0 && b[0] == 0x2B {
        1
    } else {
        0
    };
    let ghost t = if b@.len() > 0 && b@[0] == 0x2B {
        b@.skip(1)
    } else {
        b@
    };
    if b.len() == start {
        return None;
    }
    let mut acc: u64 = 0;
    let mut i: usize = start;
    while i < b.len()
        invariant
            start <= i <= b@.len(),
            start < b@.len(),
            start == 0 || start == 1,
            start == 1 ==> b@.len() > 0 && b@[0] == 0x2B,
            start == 0 ==> !(b@.len() > 0 && b@[0] == 0x2B),
            t == (if b@.len() > 0 && b@[0] == 0x2B {
                b@.skip(1)
            } else {
                b@
            }),
            t.len() == b@.len() - start,
            forall|j: int| 0 <= j < t.len() ==> t[j] == b@[j + start],
            is_dec_digits(t.take(i - start)),
            acc == dec_value(t.take(i - start)),
            acc <= 0xFFFF_FFFF,
        decreases b@.len() - i,
    {
        let d = b[i];
        if d < 0x30 || d > 0x39 {
            proof {
                assert(t[i - start] == d);
                assert(!is_dec_digits(t));
            }
            return None;
        }
        let v = acc * 10 + (d - 0x30) as u64;
        proof {
            assert(t.take(i - start + 1).drop_last() =~= t.take(i - start));
            assert(t.take(i - start + 1).last() == d);
            assert(is_dec_digits(t.take(i - start + 1)));
        }
        if v > 0xFFFF_FFFF {
            proof {
                if is_dec_digits(t) {
                    lemma_dec_value_prefix(t, i - start + 1);
                }
            }
            return None;
        }
        acc = v;
        i = i + 1;
    }
    proof {
        assert(t.take(b@.len() - start) =~= t);
    }
    Some(acc as u32)
}

/// Relies on `std::str::from_utf8`: succeeds exactly on valid UTF-8 input
/// and yields its decoded characters.
#[verifier::external_body]
fn utf8_to_str(b: &[u8]) -> (r: Option<&str>)
    ensures
        r is Some <==> valid_utf8(b@),
        r is Some ==> r->Some_0@ == decode_utf8(b@),
{
    std::str::from_utf8(b).ok()
}

impl FileHeader {
    /// Check one separator byte against its two tolerated values.
    pub fn check_crlf(value: u8, index: usize, expected1: u8, expected2: u8) -> (r: Result<
        (),
        Error,
    >)
        ensures
            ctrl_ok(value, expected1, expected2) ==> r is Ok,
            !ctrl_ok(value, expected1, expected2) ==> r is Err && (HeaderParse::Fail {
                err: r->Err_0@,
            }) == ctrl_fail(index as int, expected1, expected2, value),
    {
        if value == expected1 || value == expected2 {
            Ok(())
        } else {
            let e = Error::InvalidControlByte {
                index,
                expected_one_of: [expected1, expected2],
                obtained: value,
            };
            proof {
                assert(e@->InvalidControlByte_expected_one_of =~= seq![expected1, expected2]);
            }
            Err(e)
        }
    }

    /// Decode one 32-byte encoded-integer token: strip trailing NUL
    /// padding, require UTF-8, then parse as decimal.
    fn parse_encode_token(raw: &Vec<u8>, detection_value: bool) -> (r: Result<u32, Error>)
        ensures
            ({
                let t = seq_without_trailing_byte(raw@, 0);
                &&& !valid_utf8(t) ==> r is Err && r->Err_0@ == (ErrorSpec::InvalidEncodeUtf8 {
                    detection_value,
                    bytes: t,
                })
                &&& valid_utf8(t) && parse_u32_bytes(t) is None ==> r is Err && r->Err_0@ == (
                ErrorSpec::InvalidEncodeInteger { detection_value, string: decode_utf8(t) })
                &&& valid_utf8(t) && parse_u32_bytes(t) is Some ==> r == Ok::<u32, Error>(
                    parse_u32_bytes(t)->Some_0,
                )
            }),
    {
        let token = without_trailing_zero_bytes(raw.as_slice());
        match utf8_to_str(token) {
            None => {
                Err(
                    Error::InvalidEncodeUtf8 {
                        detection_value,
                        bytes: vstd::slice::slice_to_vec(token),
                    },
                )
            },
            Some(s) => {
                match parse_u32_decimal(token) {
                    None => {
                        Err(Error::InvalidEncodeInteger { detection_value, string: s.to_owned() })
                    },
                    Some(v) => Ok(v),
                }
            },
        }
    }

    /// Read the header from the front of the source: detect the variant,
    /// validate it, and return the archive metadata, leaving the cursor on
    /// the first byte after the header.
    pub fn try_read<'a>(c: &mut ByteCursor<'a>) -> (r: Result<FileHeader, Error>)
        requires
            old(c).wf(),
            old(c).pos() == 0,
        ensures
            final(c).wf(),
            final(c).bytes() == old(c).bytes(),
            match spec_read_header(old(c).bytes()) {
                HeaderParse::Parsed { header, end } => r is Ok && header_matches(r->Ok_0, header)
                    && final(c).pos() == end,
                HeaderParse::Fail { err } => r is Err && r->Err_0@ == err,
            },
    {
        let ghost d = old(c).bytes();
        let b0 = c.read_u8()?;
        let b1 = c.read_u8()?;
        Self::check_crlf(b0, 0, 0x0D, 0x26)?;
        Self::check_crlf(b1, 1, 0x0A, 0x23)?;

        let file_type_raw = c.read_exact(60)?;
        let b2 = c.read_u8()?;
        let b3 = c.read_u8()?;
        Self::check_crlf(b2, 2, 0x0D, 0x21)?;
        Self::check_crlf(b3, 3, 0x0A, 0x22)?;

        let user_title_raw = c.read_exact(60)?;
        let b4 = c.read_u8()?;
        let b5 = c.read_u8()?;
        let b6 = c.read_u8()?;
        Self::check_crlf(b4, 4, 0x0D, 0x25)?;
        Self::check_crlf(b5, 5, 0x0A, 0x27)?;
        Self::check_crlf(b6, 6, 0x1A, 0x2A)?;

        // the EOF character is a hint at the version
        let version: u32;
        if b6 == 0x1A {
            // assume version 1, falling back to the longer version-2 shape
            let v1 = c.read_u32_le()?;
            if v1 == 1 {
                version = 1;
            } else {
                let _filler = c.read_exact(3)?;
                let v2 = c.read_u32_le()?;
                if v2 != 2 {
                    return Err(Error::InvalidVersion { expected: 2, obtained: v2 });
                }
                version = 2;
            }
        } else {
            let head = c.read_u8()?;
            let encode_raw = c.read_exact(32)?;
            let tail = c.read_u8()?;
            let detect_head = c.read_u8()?;
            if detect_head != head ^ HEAD_TAIL_XOR {
                return Err(Error::InvalidDetectHead { head, detect_head });
            }
            let encode_value = Self::parse_encode_token(&encode_raw, false)?;
            let expected_encode_value = encode_value ^ ENCODE_VALUE_XOR;
            let detect_encode_raw = c.read_exact(32)?;
            let detect_encode_value = Self::parse_encode_token(&detect_encode_raw, true)?;
            if detect_encode_value != expected_encode_value {
                return Err(Error::EncodeValueMismatch { encode_value, detect_encode_value });
            }
            let detect_tail = c.read_u8()?;
            if detect_tail != tail ^ HEAD_TAIL_XOR {
                return Err(Error::InvalidDetectTail { tail, detect_tail });
            }
            let v = c.read_u32_le()?;
            if v != 1 {
                return Err(Error::InvalidVersion { expected: 1, obtained: v });
            }
            version = 1;
        }

        let root_dir_pos = c.read_u32_le()?;
        let root_dir_size = c.read_u32_le()?;
        let root_dir_time = c.read_u32_le()?;
        let next_write_pos = c.read_u32_le()?;
        let time = c.read_u32_le()?;
        let largest_key_ary = c.read_u32_le()?;
        let largest_dir_name_size = c.read_u32_le()?;
        let largest_rez_name_size = c.read_u32_le()?;
        let largest_comment_size = c.read_u32_le()?;

        let sorted_byte = c.read_u8()?;
        let is_sorted = sorted_byte != 0x00;

        let file_type = TextBuf::from_slice(without_trailing_spaces(file_type_raw.as_slice()));
        let user_title = TextBuf::from_slice(without_trailing_spaces(user_title_raw.as_slice()));

        Ok(
            FileHeader {
                file_type,
                user_title,
                version,
                root_dir_position: root_dir_pos,
                root_dir_size,
                root_dir_time,
                next_write_pos,
                time,
                largest_key_ary,
                largest_dir_name_size,
                largest_rez_name_size,
                largest_comment_size,
                is_sorted,
            },
        )
    }
}

} // verus!
