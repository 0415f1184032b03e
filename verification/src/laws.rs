//! Format-level theorems: what decoding guarantees on whole classes of
//! inputs.

use vstd::prelude::*;

use crate::cursor::{nul_pos, u32_le_at};
use crate::entries::{spec_read_block, spec_read_entries, EntryHeader, EntrySpec, EntryType};
use crate::error::{ErrorSpec, HEAD_TAIL_XOR};
use crate::header::{
    ctrl_ok, parse_u32_bytes, spec_read_header, HeaderParse,
};
use crate::text::{legacy_decode, seq_without_leading_byte, seq_without_trailing_byte};
use vstd::utf8::valid_utf8;

verus! {

/// The separator bytes that every header variant must open with.
pub open spec fn header_prefix_ok(d: Seq<u8>) -> bool {
    &&& d.len() >= 127
    &&& ctrl_ok(d[0], 0x0D, 0x26)
    &&& ctrl_ok(d[1], 0x0A, 0x23)
    &&& ctrl_ok(d[62], 0x0D, 0x21)
    &&& ctrl_ok(d[63], 0x0A, 0x22)
    &&& ctrl_ok(d[124], 0x0D, 0x25)
    &&& ctrl_ok(d[125], 0x0A, 0x27)
}

/// Every EOF-marker header that stores version 1 decodes to version 1 and
/// to the root directory position and size stored right after it, bit for
/// bit.
pub proof fn lemma_eof_marker_v1_fields(d: Seq<u8>)
    requires
        header_prefix_ok(d),
        d[126] == 0x1A,
        u32_le_at(d, 127) == 1,
        d.len() >= 168,
    ensures
        spec_read_header(d) matches HeaderParse::Parsed { header, end } && header.version == 1
            && header.root_dir_position == u32_le_at(d, 131) && header.root_dir_size == u32_le_at(
            d,
            135,
        ) && end == 168,
{
}

/// Every EOF-marker header that falls back to the longer shape and stores
/// version 2 decodes to version 2 and to the root directory position and
/// size stored after the filler, bit for bit.
pub proof fn lemma_eof_marker_v2_fields(d: Seq<u8>)
    requires
        header_prefix_ok(d),
        d[126] == 0x1A,
        u32_le_at(d, 127) != 1,
        u32_le_at(d, 134) == 2,
        d.len() >= 175,
    ensures
        spec_read_header(d) matches HeaderParse::Parsed { header, end } && header.version == 2
            && header.root_dir_position == u32_le_at(d, 138) && header.root_dir_size == u32_le_at(
            d,
            142,
        ) && end == 175,
{
}

/// In an encoded header, a detection head byte that breaks its XOR
/// relation always yields exactly the detect-head error, never a parse.
pub proof fn lemma_encoded_detect_head_mismatch(d: Seq<u8>)
    requires
        header_prefix_ok(d),
        d[126] == 0x2A,
        d.len() >= 162,
        d[161] != (d[127] ^ HEAD_TAIL_XOR),
    ensures
        spec_read_header(d) == (HeaderParse::Fail {
            err: ErrorSpec::InvalidDetectHead { head: d[127], detect_head: d[161] },
        }),
{
}

/// In an encoded header whose tokens parse, a detection value that breaks
/// the XOR relation with the primary value always yields exactly the
/// mismatch error, carrying both values.
pub proof fn lemma_encoded_value_mismatch(d: Seq<u8>)
    requires
        header_prefix_ok(d),
        d[126] == 0x2A,
        d.len() >= 194,
        d[161] == (d[127] ^ HEAD_TAIL_XOR),
        valid_utf8(seq_without_trailing_byte(d.subrange(128, 160), 0)),
        parse_u32_bytes(seq_without_trailing_byte(d.subrange(128, 160), 0)) is Some,
        valid_utf8(seq_without_trailing_byte(d.subrange(162, 194), 0)),
        parse_u32_bytes(seq_without_trailing_byte(d.subrange(162, 194), 0)) is Some,
        parse_u32_bytes(seq_without_trailing_byte(d.subrange(162, 194), 0))->Some_0 != (
        parse_u32_bytes(seq_without_trailing_byte(d.subrange(128, 160), 0))->Some_0
            ^ crate::error::ENCODE_VALUE_XOR),
    ensures
        spec_read_header(d) == (HeaderParse::Fail {
            err: ErrorSpec::EncodeValueMismatch {
                encode_value: parse_u32_bytes(
                    seq_without_trailing_byte(d.subrange(128, 160), 0),
                )->Some_0,
                detect_encode_value: parse_u32_bytes(
                    seq_without_trailing_byte(d.subrange(162, 194), 0),
                )->Some_0,
            },
        }),
{
}

/// In an encoded header that passes every earlier check, a detection tail
/// byte that breaks its XOR relation always yields exactly the detect-tail
/// error.
pub proof fn lemma_encoded_detect_tail_mismatch(d: Seq<u8>)
    requires
        header_prefix_ok(d),
        d[126] == 0x2A,
        d.len() >= 195,
        d[161] == (d[127] ^ HEAD_TAIL_XOR),
        valid_utf8(seq_without_trailing_byte(d.subrange(128, 160), 0)),
        parse_u32_bytes(seq_without_trailing_byte(d.subrange(128, 160), 0)) is Some,
        valid_utf8(seq_without_trailing_byte(d.subrange(162, 194), 0)),
        parse_u32_bytes(seq_without_trailing_byte(d.subrange(162, 194), 0)) is Some,
        parse_u32_bytes(seq_without_trailing_byte(d.subrange(162, 194), 0))->Some_0 == (
        parse_u32_bytes(seq_without_trailing_byte(d.subrange(128, 160), 0))->Some_0
            ^ crate::error::ENCODE_VALUE_XOR),
        d[194] != (d[160] ^ HEAD_TAIL_XOR),
    ensures
        spec_read_header(d) == (HeaderParse::Fail {
            err: ErrorSpec::InvalidDetectTail { tail: d[160], detect_tail: d[194] },
        }),
{
}

/// An entry whose stored type code is neither a resource nor a directory
/// fails the whole block read immediately with exactly that code; it is
/// never skipped.
pub proof fn lemma_unknown_entry_type_fails(d: Seq<u8>, block: Seq<u8>, off: int, depth: nat)
    requires
        0 <= off <= block.len(),
        block.len() <= u32::MAX,
        block.len() - off >= 16,
        u32_le_at(block, off) != 0,
        u32_le_at(block, off) != 1,
    ensures
        spec_read_entries(d, block, off, depth) == Err::<Seq<EntrySpec>, ErrorSpec>(
            ErrorSpec::UnknownEntryType { type_code: u32_le_at(block, off) },
        ),
{
}

/// A directory block whose stored range reaches outside the source always
/// fails as an exhausted read — never a silent empty or truncated result.
pub proof fn lemma_out_of_bounds_block_fails(d: Seq<u8>, position: u32, size: u32, depth: nat)
    requires
        position + size > d.len(),
    ensures
        spec_read_block(d, position, size, depth) == Err::<Seq<EntrySpec>, ErrorSpec>(
            ErrorSpec::UnexpectedEof,
        ),
{
}

/// The little-endian bytes of an unsigned 32-bit integer.
pub open spec fn u32_le_bytes(x: u32) -> Seq<u8> {
    seq![
        (x & 0xFF) as u8,
        ((x >> 8) & 0xFF) as u8,
        ((x >> 16) & 0xFF) as u8,
        ((x >> 24) & 0xFF) as u8,
    ]
}

/// Reading four bytes that store an integer little-endian recovers that
/// integer.
pub proof fn lemma_u32_le_at_of_bytes(b: Seq<u8>, off: int, x: u32)
    requires
        0 <= off,
        off + 4 <= b.len(),
        b[off] == u32_le_bytes(x)[0],
        b[off + 1] == u32_le_bytes(x)[1],
        b[off + 2] == u32_le_bytes(x)[2],
        b[off + 3] == u32_le_bytes(x)[3],
    ensures
        u32_le_at(b, off) == x,
{
    let b0 = b[off];
    let b1 = b[off + 1];
    let b2 = b[off + 2];
    let b3 = b[off + 3];
    assert((b0 == (x & 0xFF) as u8 && b1 == ((x >> 8) & 0xFF) as u8 && b2 == ((x >> 16)
        & 0xFF) as u8 && b3 == ((x >> 24) & 0xFF) as u8) ==> (b0 as u32) + (b1 as u32) * 0x100 + (
    b2 as u32) * 0x10000 + (b3 as u32) * 0x1000000 == x) by (bit_vector);
}

/// A byte run of non-NULs followed by a NUL pins down where the next NUL
/// sits.
pub proof fn lemma_nul_pos_value(b: Seq<u8>, i: int, m: int)
    requires
        0 <= i <= m < b.len(),
        forall|j: int| i <= j < m ==> b[j] != 0,
        b[m] == 0,
    ensures
        nul_pos(b, i) == m,
    decreases m - i,
{
    if i < m {
        lemma_nul_pos_value(b, i + 1, m);
    }
}

/// A directory-block entry as it is laid down on disk: every field a
/// plain value, directory entries owning the wire form of their children.
pub ghost enum WireEntry {
    Resource {
        position: u32,
        size: u32,
        time: u32,
        id: u32,
        ext: Seq<u8>,
        keys: Seq<u32>,
        name: Seq<u8>,
        description: Seq<u8>,
    },
    Directory { position: u32, size: u32, time: u32, name: Seq<u8>, children: Seq<WireEntry> },
}

/// The concatenated little-endian encodings of a key array.
pub open spec fn keys_bytes(keys: Seq<u32>) -> Seq<u8>
    decreases keys.len(),
{
    if keys.len() == 0 {
        Seq::empty()
    } else {
        keys_bytes(keys.drop_last()) + u32_le_bytes(keys.last())
    }
}

pub proof fn lemma_keys_bytes(keys: Seq<u32>)
    ensures
        keys_bytes(keys).len() == 4 * keys.len(),
        forall|j: int|
            0 <= j < keys.len() ==> keys_bytes(keys).subrange(4 * j, 4 * j + 4) == u32_le_bytes(
                #[trigger] keys[j],
            ),
    decreases keys.len(),
{
    if keys.len() > 0 {
        lemma_keys_bytes(keys.drop_last());
        assert forall|j: int|
            0 <= j < keys.len() implies keys_bytes(keys).subrange(4 * j, 4 * j + 4)
            == u32_le_bytes(keys[j]) by {
            if j < keys.len() - 1 {
                assert(keys.drop_last()[j] == keys[j]);
                assert(keys_bytes(keys).subrange(4 * j, 4 * j + 4) =~= keys_bytes(
                    keys.drop_last(),
                ).subrange(4 * j, 4 * j + 4));
            } else {
                assert(keys_bytes(keys).subrange(4 * j, 4 * j + 4) =~= u32_le_bytes(keys.last()));
            }
        }
    }
}

/// The record bytes of one entry, child blocks excluded: the 16-byte
/// prologue, then the type-specific trailing fields.
pub open spec fn wire_entry_bytes(e: WireEntry) -> Seq<u8> {
    match e {
        WireEntry::Resource { position, size, time, id, ext, keys, name, description } => {
            u32_le_bytes(0) + u32_le_bytes(position) + u32_le_bytes(size) + u32_le_bytes(time)
                + u32_le_bytes(id) + ext + u32_le_bytes(keys.len() as u32) + name + seq![0u8]
                + description + seq![0u8] + keys_bytes(keys)
        },
        WireEntry::Directory { position, size, time, name, children } => {
            u32_le_bytes(1) + u32_le_bytes(position) + u32_le_bytes(size) + u32_le_bytes(time)
                + name + seq![0u8]
        },
    }
}

/// The bytes of a whole directory block: its entries' records, in order.
pub open spec fn wire_entries_bytes(es: Seq<WireEntry>) -> Seq<u8>
    decreases es.len(),
{
    if es.len() == 0 {
        Seq::empty()
    } else {
        wire_entry_bytes(es[0]) + wire_entries_bytes(es.skip(1))
    }
}

pub open spec fn no_nul(b: Seq<u8>) -> bool {
    forall|i: int| 0 <= i < b.len() ==> #[trigger] b[i] != 0
}

/// A wire entry the format can actually carry: four extension bytes,
/// NUL-free names, a key count that fits its field, and directory sizes
/// that equal their block's length.
pub open spec fn wire_entry_wf(e: WireEntry) -> bool
    decreases e,
{
    match e {
        WireEntry::Resource { ext, keys, name, description, .. } => {
            &&& ext.len() == 4
            &&& no_nul(name)
            &&& no_nul(description)
            &&& keys.len() <= 0xFFFF_FFFF
        },
        WireEntry::Directory { size, name, children, .. } => {
            &&& no_nul(name)
            &&& size == wire_entries_bytes(children).len()
            &&& wire_entries_wf(children)
        },
    }
}

pub open spec fn wire_entries_wf(es: Seq<WireEntry>) -> bool
    decreases es,
{
    forall|i: int| 0 <= i < es.len() ==> wire_entry_wf(#[trigger] es[i])
}

/// Whether every directory's child block really sits in `d` at its stored
/// range, holding exactly its children's records, down to `depth` levels.
pub open spec fn wire_laid_out(d: Seq<u8>, es: Seq<WireEntry>, depth: nat) -> bool
    decreases depth, es,
{
    forall|i: int| 0 <= i < es.len() ==> wire_entry_laid_out(d, #[trigger] es[i], depth)
}

pub open spec fn wire_entry_laid_out(d: Seq<u8>, e: WireEntry, depth: nat) -> bool
    decreases depth, e,
{
    match e {
        WireEntry::Resource { .. } => true,
        WireEntry::Directory { position, size, children, .. } => {
            &&& depth >= 1
            &&& position + size <= d.len()
            &&& d.subrange(position as int, position + size) == wire_entries_bytes(children)
            &&& wire_laid_out(d, children, (depth - 1) as nat)
        },
    }
}

/// The decoded image a wire entry must produce.
pub open spec fn wire_model(e: WireEntry) -> EntrySpec
    decreases e,
{
    match e {
        WireEntry::Resource { position, size, time, id, ext, keys, name, description } => {
            EntrySpec::Resource {
                header: EntryHeader { entry_type: EntryType::Resource, position, size, time },
                id,
                extension: legacy_decode(
                    seq_without_leading_byte(seq![ext[3], ext[2], ext[1], ext[0]], 0),
                ),
                name: legacy_decode(name),
                description: legacy_decode(description),
                keys,
            }
        },
        WireEntry::Directory { position, size, time, name, children } => {
            EntrySpec::Directory {
                header: EntryHeader { entry_type: EntryType::Directory, position, size, time },
                name: legacy_decode(name),
                entries: wire_models(children),
            }
        },
    }
}

pub open spec fn wire_models(es: Seq<WireEntry>) -> Seq<EntrySpec>
    decreases es,
{
    Seq::new(
        es.len(),
        |i: int|
            if 0 <= i < es.len() {
                wire_model(es[i])
            } else {
                vstd::pervasive::arbitrary()
            },
    )
}

/// Round trip, block level: a directory block holding exactly the
/// records of `es`, with every nested block laid out at its stored range,
/// decodes to exactly the entries of `es`, in order, with all fields
/// equal to the inputs.
#[verifier::rlimit(100)]
#[verifier::spinoff_prover]
pub proof fn lemma_block_round_trip(
    d: Seq<u8>,
    position: u32,
    size: u32,
    es: Seq<WireEntry>,
    depth: nat,
)
    requires
        wire_entries_wf(es),
        wire_laid_out(d, es, depth),
        position + size <= d.len(),
        d.subrange(position as int, position + size) == wire_entries_bytes(es),
        size == wire_entries_bytes(es).len(),
    ensures
        spec_read_block(d, position, size, depth) == Ok::<Seq<EntrySpec>, ErrorSpec>(
            wire_models(es),
        ),
    decreases depth, es.len(), 2int,
{
    let block = d.subrange(position as int, position + size);
    assert(block.subrange(0, block.len() as int) =~= block);
    lemma_entries_round_trip(d, block, 0, es, depth);
}

/// Round trip, record level: if the bytes of `block` from `off` onward
/// are exactly the records of `es`, decoding from `off` yields exactly
/// the entries of `es`.
#[verifier::rlimit(100)]
#[verifier::spinoff_prover]
pub proof fn lemma_entries_round_trip(
    d: Seq<u8>,
    block: Seq<u8>,
    off: int,
    es: Seq<WireEntry>,
    depth: nat,
)
    requires
        0 <= off <= block.len(),
        block.len() <= u32::MAX,
        wire_entries_wf(es),
        wire_laid_out(d, es, depth),
        block.subrange(off, block.len() as int) == wire_entries_bytes(es),
    ensures
        spec_read_entries(d, block, off, depth) == Ok::<Seq<EntrySpec>, ErrorSpec>(
            wire_models(es),
        ),
    decreases depth, es.len(), 1int,
{
    if es.len() == 0 {
        assert(block.subrange(off, block.len() as int).len() == 0);
        assert(off == block.len());
        assert(wire_models(es) =~= Seq::<EntrySpec>::empty());
    } else {
        match es[0] {
            WireEntry::Directory { position, size, time, name, children } => {
                lemma_directory_entry_round_trip(
                    d,
                    block,
                    off,
                    es,
                    depth,
                    position,
                    size,
                    time,
                    name,
                    children,
                );
            },
            WireEntry::Resource { position, size, time, id, ext, keys, name, description } => {
                lemma_resource_entry_round_trip(
                    d,
                    block,
                    off,
                    es,
                    depth,
                    position,
                    size,
                    time,
                    id,
                    ext,
                    keys,
                    name,
                    description,
                );
            },
        }
    }
}

/// Well-formedness and layout of one element, packaged so a single
/// triggered fact carries both.
pub open spec fn wire_entries_wf_at(d: Seq<u8>, es: Seq<WireEntry>, i: int, depth: nat) -> bool {
    0 <= i < es.len() ==> wire_entry_wf(es[i]) && wire_entry_laid_out(d, es[i], depth)
}

/// One directory record at `off` decodes to its model, and the run
/// continues right after its name.
#[verifier::rlimit(100)]
#[verifier::spinoff_prover]
proof fn lemma_directory_entry_round_trip(
    d: Seq<u8>,
    block: Seq<u8>,
    off: int,
    es: Seq<WireEntry>,
    depth: nat,
    position: u32,
    size: u32,
    time: u32,
    name: Seq<u8>,
    children: Seq<WireEntry>,
)
    requires
        0 <= off <= block.len(),
        block.len() <= u32::MAX,
        wire_entries_wf(es),
        wire_laid_out(d, es, depth),
        block.subrange(off, block.len() as int) == wire_entries_bytes(es),
        es.len() > 0,
        es[0] == (WireEntry::Directory { position, size, time, name, children }),
    ensures
        spec_read_entries(d, block, off, depth) == Ok::<Seq<EntrySpec>, ErrorSpec>(
            wire_models(es),
        ),
    decreases depth, es.len(), 0int,
{
    let e = es[0];
    let rest = es.skip(1);
    let eb = wire_entry_bytes(e);
    let restb = wire_entries_bytes(rest);
    let nl = name.len() as int;
    assert(wire_entries_bytes(es) == eb + restb);
    assert(wire_entry_wf(e)) by {
        assert(wire_entries_wf(es));
    }
    assert(wire_entry_laid_out(d, e, depth)) by {
        assert(wire_laid_out(d, es, depth));
    }
    assert forall|i: int| 0 <= i < rest.len() implies wire_entries_wf_at(d, rest, i, depth) by {
        assert(rest[i] == es[i + 1]);
        assert(wire_entry_wf(es[i + 1]));
        assert(wire_entry_laid_out(d, es[i + 1], depth));
    }
    assert(block.len() - off == eb.len() + restb.len());
    assert forall|k: int| 0 <= k < eb.len() implies block[off + k] == #[trigger] eb[k] by {
        assert(block.subrange(off, block.len() as int)[k] == block[off + k]);
        assert((eb + restb)[k] == eb[k]);
    }
    let hdr = u32_le_bytes(1) + u32_le_bytes(position) + u32_le_bytes(size) + u32_le_bytes(time);
    assert(hdr.len() == 16);
    assert(eb == hdr + name + seq![0u8]);
    assert(eb.len() == 17 + nl);
    assert forall|k: int| 0 <= k < 16 implies #[trigger] eb[k] == hdr[k] by {
        assert(((hdr + name) + seq![0u8])[k] == (hdr + name)[k]);
        assert((hdr + name)[k] == hdr[k]);
    }
    assert forall|j: int| 0 <= j < nl implies #[trigger] eb[16 + j] == name[j] by {
        assert(((hdr + name) + seq![0u8])[16 + j] == (hdr + name)[16 + j]);
        assert((hdr + name)[16 + j] == name[j]);
    }
    assert(eb[16 + nl] == 0) by {
        assert(((hdr + name) + seq![0u8])[16 + nl] == seq![0u8][0]);
    }

    assert forall|k: int|
        0 <= k < 4 implies block[off + k] == u32_le_bytes(1)[k] && block[off + 4 + k]
        == u32_le_bytes(position)[k] && block[off + 8 + k] == u32_le_bytes(size)[k] && block[off
        + 12 + k] == u32_le_bytes(time)[k] by {
        let a = u32_le_bytes(1);
        let bp = u32_le_bytes(position);
        let cs = u32_le_bytes(size);
        let dt = u32_le_bytes(time);
        assert(block[off + k] == eb[k]);
        assert(block[off + 4 + k] == eb[4 + k]);
        assert(block[off + 8 + k] == eb[8 + k]);
        assert(block[off + 12 + k] == eb[12 + k]);
        assert(eb[k] == hdr[k]);
        assert(eb[4 + k] == hdr[4 + k]);
        assert(eb[8 + k] == hdr[8 + k]);
        assert(eb[12 + k] == hdr[12 + k]);
        assert(hdr == ((a + bp) + cs) + dt);
        assert(hdr[k] == ((a + bp) + cs)[k]);
        assert(((a + bp) + cs)[k] == (a + bp)[k]);
        assert((a + bp)[k] == a[k]);
        assert(hdr[4 + k] == ((a + bp) + cs)[4 + k]);
        assert(((a + bp) + cs)[4 + k] == (a + bp)[4 + k]);
        assert((a + bp)[4 + k] == bp[k]);
        assert(hdr[8 + k] == ((a + bp) + cs)[8 + k]);
        assert(((a + bp) + cs)[8 + k] == cs[k]);
        assert(hdr[12 + k] == dt[k]);
    }
    lemma_u32_le_at_of_bytes(block, off, 1);
    lemma_u32_le_at_of_bytes(block, off + 4, position);
    lemma_u32_le_at_of_bytes(block, off + 8, size);
    lemma_u32_le_at_of_bytes(block, off + 12, time);

    assert forall|j: int| off + 16 <= j < off + 16 + nl implies block[j] != 0 by {
        assert(block[j] == eb[j - off]);
        assert(eb[16 + (j - off - 16)] == name[j - off - 16]);
    }
    assert(block[off + 16 + nl] == eb[16 + nl]);
    lemma_nul_pos_value(block, off + 16, off + 16 + nl);
    let np = nul_pos(block, off + 16);
    assert(np == off + 16 + nl);
    assert(block.subrange(off + 16, np) =~= name) by {
        assert forall|k: int| 0 <= k < nl implies block.subrange(off + 16, np)[k] == #[trigger]
        name[k] by {
            assert(block.subrange(off + 16, np)[k] == block[off + 16 + k]);
            assert(block[off + 16 + k] == eb[16 + k]);
        }
    }

    assert(depth >= 1);
    lemma_block_round_trip(d, position, size, children, (depth - 1) as nat);

    assert(block.subrange(off + eb.len(), block.len() as int) =~= restb) by {
        assert forall|k: int| 0 <= k < restb.len() implies block.subrange(
            off + eb.len(),
            block.len() as int,
        )[k] == #[trigger] restb[k] by {
            assert(block.subrange(off, block.len() as int)[eb.len() + k] == block[off + eb.len()
                + k]);
            assert((eb + restb)[eb.len() + k] == restb[k]);
        }
    }
    assert forall|i: int| 0 <= i < rest.len() implies wire_entry_wf(#[trigger] rest[i]) by {
        assert(wire_entries_wf_at(d, rest, i, depth));
    }
    assert forall|i: int| 0 <= i < rest.len() implies wire_entry_laid_out(
        d,
        #[trigger] rest[i],
        depth,
    ) by {
        assert(wire_entries_wf_at(d, rest, i, depth));
    }
    lemma_entries_round_trip(d, block, off + eb.len(), rest, depth);

    assert(wire_models(es) =~= seq![wire_model(e)] + wire_models(rest)) by {
        assert(forall|i: int|
            1 <= i < es.len() ==> #[trigger] wire_models(rest)[i - 1] == wire_model(es[i]));
    }
    assert(spec_read_entries(d, block, off, depth) == Ok::<Seq<EntrySpec>, ErrorSpec>(
        seq![wire_model(e)] + wire_models(rest),
    ));
}

/// One resource record at `off` decodes to its model, and the run
/// continues right after its key array.
#[verifier::rlimit(100)]
#[verifier::spinoff_prover]
proof fn lemma_resource_entry_round_trip(
    d: Seq<u8>,
    block: Seq<u8>,
    off: int,
    es: Seq<WireEntry>,
    depth: nat,
    position: u32,
    size: u32,
    time: u32,
    id: u32,
    ext: Seq<u8>,
    keys: Seq<u32>,
    name: Seq<u8>,
    description: Seq<u8>,
)
    requires
        0 <= off <= block.len(),
        block.len() <= u32::MAX,
        wire_entries_wf(es),
        wire_laid_out(d, es, depth),
        block.subrange(off, block.len() as int) == wire_entries_bytes(es),
        es.len() > 0,
        es[0] == (WireEntry::Resource {
            position,
            size,
            time,
            id,
            ext,
            keys,
            name,
            description,
        }),
    ensures
        spec_read_entries(d, block, off, depth) == Ok::<Seq<EntrySpec>, ErrorSpec>(
            wire_models(es),
        ),
    decreases depth, es.len(), 0int,
{
    let e = es[0];
    let rest = es.skip(1);
    let eb = wire_entry_bytes(e);
    let restb = wire_entries_bytes(rest);
    let nl = name.len() as int;
    let dl = description.len() as int;
    let kl = keys.len() as int;
    assert(wire_entries_bytes(es) == eb + restb);
    assert(wire_entry_wf(e)) by {
        assert(wire_entries_wf(es));
    }
    assert forall|i: int| 0 <= i < rest.len() implies wire_entries_wf_at(d, rest, i, depth) by {
        assert(rest[i] == es[i + 1]);
        assert(wire_entry_wf(es[i + 1]));
        assert(wire_entry_laid_out(d, es[i + 1], depth));
    }
    assert(block.len() - off == eb.len() + restb.len());
    assert forall|k: int| 0 <= k < eb.len() implies block[off + k] == #[trigger] eb[k] by {
        assert(block.subrange(off, block.len() as int)[k] == block[off + k]);
        assert((eb + restb)[k] == eb[k]);
    }
    lemma_keys_bytes(keys);
    let hdr = u32_le_bytes(0) + u32_le_bytes(position) + u32_le_bytes(size) + u32_le_bytes(time)
        + u32_le_bytes(id) + ext + u32_le_bytes(keys.len() as u32);
    assert(hdr.len() == 28);
    let mid = hdr + name + seq![0u8] + description + seq![0u8];
    assert(mid.len() == 30 + nl + dl);
    assert(eb == mid + keys_bytes(keys));
    assert(eb.len() == 30 + nl + dl + 4 * kl);
    assert forall|k: int| 0 <= k < 28 implies #[trigger] eb[k] == hdr[k] by {
        assert(eb[k] == mid[k]);
        assert((((hdr + name) + seq![0u8]) + description)[k] == hdr[k]);
        assert(mid[k] == (((hdr + name) + seq![0u8]) + description)[k]);
    }
    assert forall|j: int| 0 <= j < nl implies #[trigger] eb[28 + j] == name[j] by {
        assert(eb[28 + j] == mid[28 + j]);
        assert((hdr + name)[28 + j] == name[j]);
        assert(((hdr + name) + seq![0u8])[28 + j] == (hdr + name)[28 + j]);
        assert((((hdr + name) + seq![0u8]) + description)[28 + j] == ((hdr + name) + seq![0u8])[28
            + j]);
        assert(mid[28 + j] == (((hdr + name) + seq![0u8]) + description)[28 + j]);
    }
    assert(eb[28 + nl] == 0) by {
        assert(eb[28 + nl] == mid[28 + nl]);
        assert(((hdr + name) + seq![0u8])[28 + nl] == 0);
        assert((((hdr + name) + seq![0u8]) + description)[28 + nl] == ((hdr + name) + seq![0u8])[28
            + nl]);
        assert(mid[28 + nl] == (((hdr + name) + seq![0u8]) + description)[28 + nl]);
    }
    assert forall|j: int| 0 <= j < dl implies #[trigger] eb[29 + nl + j] == description[j] by {
        assert(eb[29 + nl + j] == mid[29 + nl + j]);
        assert((((hdr + name) + seq![0u8]) + description)[29 + nl + j] == description[j]);
        assert(mid[29 + nl + j] == (((hdr + name) + seq![0u8]) + description)[29 + nl + j]);
    }
    assert(eb[29 + nl + dl] == 0) by {
        assert(eb[29 + nl + dl] == mid[29 + nl + dl]);
        assert(mid[29 + nl + dl] == seq![0u8][0]);
    }
    assert forall|j: int| 0 <= j < 4 * kl implies #[trigger] eb[30 + nl + dl + j] == keys_bytes(
        keys,
    )[j] by {
        assert((mid + keys_bytes(keys))[30 + nl + dl + j] == keys_bytes(keys)[j]);
    }

    // the fixed fields, read back
    assert forall|k: int|
        0 <= k < 4 implies block[off + k] == u32_le_bytes(0)[k] && block[off + 4 + k]
        == u32_le_bytes(position)[k] && block[off + 8 + k] == u32_le_bytes(size)[k] && block[off
        + 12 + k] == u32_le_bytes(time)[k] && block[off + 16 + k] == u32_le_bytes(id)[k] && block[
        off + 20 + k] == ext[k] && block[off + 24 + k] == u32_le_bytes(keys.len() as u32)[k] by {
        let a = u32_le_bytes(0);
        let bp = u32_le_bytes(position);
        let cs = u32_le_bytes(size);
        let dt = u32_le_bytes(time);
        let ei = u32_le_bytes(id);
        let gk = u32_le_bytes(keys.len() as u32);
        assert(block[off + k] == eb[k]);
        assert(block[off + 4 + k] == eb[4 + k]);
        assert(block[off + 8 + k] == eb[8 + k]);
        assert(block[off + 12 + k] == eb[12 + k]);
        assert(block[off + 16 + k] == eb[16 + k]);
        assert(block[off + 20 + k] == eb[20 + k]);
        assert(block[off + 24 + k] == eb[24 + k]);
        assert(eb[k] == hdr[k]);
        assert(eb[4 + k] == hdr[4 + k]);
        assert(eb[8 + k] == hdr[8 + k]);
        assert(eb[12 + k] == hdr[12 + k]);
        assert(eb[16 + k] == hdr[16 + k]);
        assert(eb[20 + k] == hdr[20 + k]);
        assert(eb[24 + k] == hdr[24 + k]);
        assert(hdr == (((((a + bp) + cs) + dt) + ei) + ext) + gk);
        assert(hdr[k] == (((((a + bp) + cs) + dt) + ei) + ext)[k]);
        assert((((((a + bp) + cs) + dt) + ei) + ext)[k] == ((((a + bp) + cs) + dt) + ei)[k]);
        assert(((((a + bp) + cs) + dt) + ei)[k] == (((a + bp) + cs) + dt)[k]);
        assert((((a + bp) + cs) + dt)[k] == ((a + bp) + cs)[k]);
        assert(((a + bp) + cs)[k] == (a + bp)[k]);
        assert((a + bp)[k] == a[k]);
        assert(hdr[4 + k] == (((((a + bp) + cs) + dt) + ei) + ext)[4 + k]);
        assert((((((a + bp) + cs) + dt) + ei) + ext)[4 + k] == ((((a + bp) + cs) + dt) + ei)[4
            + k]);
        assert(((((a + bp) + cs) + dt) + ei)[4 + k] == (((a + bp) + cs) + dt)[4 + k]);
        assert((((a + bp) + cs) + dt)[4 + k] == ((a + bp) + cs)[4 + k]);
        assert(((a + bp) + cs)[4 + k] == (a + bp)[4 + k]);
        assert((a + bp)[4 + k] == bp[k]);
        assert(hdr[8 + k] == (((((a + bp) + cs) + dt) + ei) + ext)[8 + k]);
        assert((((((a + bp) + cs) + dt) + ei) + ext)[8 + k] == ((((a + bp) + cs) + dt) + ei)[8
            + k]);
        assert(((((a + bp) + cs) + dt) + ei)[8 + k] == (((a + bp) + cs) + dt)[8 + k]);
        assert((((a + bp) + cs) + dt)[8 + k] == ((a + bp) + cs)[8 + k]);
        assert(((a + bp) + cs)[8 + k] == cs[k]);
        assert(hdr[12 + k] == (((((a + bp) + cs) + dt) + ei) + ext)[12 + k]);
        assert((((((a + bp) + cs) + dt) + ei) + ext)[12 + k] == ((((a + bp) + cs) + dt) + ei)[12
            + k]);
        assert(((((a + bp) + cs) + dt) + ei)[12 + k] == (((a + bp) + cs) + dt)[12 + k]);
        assert((((a + bp) + cs) + dt)[12 + k] == dt[k]);
        assert(hdr[16 + k] == (((((a + bp) + cs) + dt) + ei) + ext)[16 + k]);
        assert((((((a + bp) + cs) + dt) + ei) + ext)[16 + k] == ((((a + bp) + cs) + dt) + ei)[16
            + k]);
        assert(((((a + bp) + cs) + dt) + ei)[16 + k] == ei[k]);
        assert(hdr[20 + k] == (((((a + bp) + cs) + dt) + ei) + ext)[20 + k]);
        assert((((((a + bp) + cs) + dt) + ei) + ext)[20 + k] == ext[k]);
        assert(hdr[24 + k] == gk[k]);
    }
    lemma_u32_le_at_of_bytes(block, off, 0);
    lemma_u32_le_at_of_bytes(block, off + 4, position);
    lemma_u32_le_at_of_bytes(block, off + 8, size);
    lemma_u32_le_at_of_bytes(block, off + 12, time);
    lemma_u32_le_at_of_bytes(block, off + 16, id);
    lemma_u32_le_at_of_bytes(block, off + 24, keys.len() as u32);

    // the extension bytes
    assert(block.subrange(off + 20, off + 24) =~= ext) by {
        assert forall|k: int| 0 <= k < 4 implies block.subrange(off + 20, off + 24)[k]
            == #[trigger] ext[k] by {
            assert(block.subrange(off + 20, off + 24)[k] == block[off + 20 + k]);
            assert(block[off + 20 + k] == eb[20 + k]);
            assert(eb[20 + k] == hdr[20 + k]);
        }
    }

    // name, description, and their terminators
    assert forall|j: int| off + 28 <= j < off + 28 + nl implies block[j] != 0 by {
        assert(block[j] == eb[j - off]);
        assert(eb[28 + (j - off - 28)] == name[j - off - 28]);
    }
    assert(block[off + 28 + nl] == eb[28 + nl]);
    lemma_nul_pos_value(block, off + 28, off + 28 + nl);
    let np1 = nul_pos(block, off + 28);
    assert(np1 == off + 28 + nl);
    assert(block.subrange(off + 28, np1) =~= name) by {
        assert forall|k: int| 0 <= k < nl implies block.subrange(off + 28, np1)[k] == #[trigger]
        name[k] by {
            assert(block.subrange(off + 28, np1)[k] == block[off + 28 + k]);
            assert(block[off + 28 + k] == eb[28 + k]);
        }
    }

    assert forall|j: int| np1 + 1 <= j < np1 + 1 + dl implies block[j] != 0 by {
        assert(block[j] == eb[j - off]);
        assert(eb[29 + nl + (j - off - 29 - nl)] == description[j - off - 29 - nl]);
    }
    assert(block[np1 + 1 + dl] == eb[29 + nl + dl]);
    lemma_nul_pos_value(block, np1 + 1, np1 + 1 + dl);
    let np2 = nul_pos(block, np1 + 1);
    assert(np2 == np1 + 1 + dl);
    assert(block.subrange(np1 + 1, np2) =~= description) by {
        assert forall|k: int| 0 <= k < dl implies block.subrange(np1 + 1, np2)[k] == #[trigger]
        description[k] by {
            assert(block.subrange(np1 + 1, np2)[k] == block[np1 + 1 + k]);
            assert(block[np1 + 1 + k] == eb[29 + nl + k]);
        }
    }

    // the key array, read back
    let keys_start = np2 + 1;
    assert(keys_start == off + 30 + nl + dl);
    let num_keys = keys.len() as u32;
    assert(num_keys as int == kl);
    assert forall|j: int| 0 <= j < kl implies u32_le_at(block, keys_start + 4 * j) == #[trigger]
    keys[j] by {
        assert(keys_bytes(keys).subrange(4 * j, 4 * j + 4) == u32_le_bytes(keys[j]));
        assert forall|k: int| 0 <= k < 4 implies block[keys_start + 4 * j + k] == u32_le_bytes(
            keys[j],
        )[k] by {
            assert(block[keys_start + 4 * j + k] == eb[30 + nl + dl + (4 * j + k)]);
            assert(eb[30 + nl + dl + (4 * j + k)] == keys_bytes(keys)[4 * j + k]);
            assert(keys_bytes(keys).subrange(4 * j, 4 * j + 4)[k] == keys_bytes(keys)[4 * j + k]);
        }
        lemma_u32_le_at_of_bytes(block, keys_start + 4 * j, keys[j]);
    }
    assert(Seq::new(num_keys as nat, |j: int| u32_le_at(block, keys_start + 4 * j)) =~= keys);
    assert(block.len() - keys_start >= 4 * num_keys);

    // the run continues after the record
    assert(keys_start + 4 * num_keys == off + eb.len());
    assert(block.subrange(off + eb.len(), block.len() as int) =~= restb) by {
        assert forall|k: int| 0 <= k < restb.len() implies block.subrange(
            off + eb.len(),
            block.len() as int,
        )[k] == #[trigger] restb[k] by {
            assert(block.subrange(off, block.len() as int)[eb.len() + k] == block[off + eb.len()
                + k]);
            assert((eb + restb)[eb.len() + k] == restb[k]);
        }
    }
    assert forall|i: int| 0 <= i < rest.len() implies wire_entry_wf(#[trigger] rest[i]) by {
        assert(wire_entries_wf_at(d, rest, i, depth));
    }
    assert forall|i: int| 0 <= i < rest.len() implies wire_entry_laid_out(
        d,
        #[trigger] rest[i],
        depth,
    ) by {
        assert(wire_entries_wf_at(d, rest, i, depth));
    }
    lemma_entries_round_trip(d, block, off + eb.len(), rest, depth);

    assert(wire_models(es) =~= seq![wire_model(e)] + wire_models(rest)) by {
        assert(forall|i: int|
            1 <= i < es.len() ==> #[trigger] wire_models(rest)[i - 1] == wire_model(es[i]));
    }
    assert(spec_read_entries(d, block, off, depth) == Ok::<Seq<EntrySpec>, ErrorSpec>(
        seq![wire_model(e)] + wire_models(rest),
    ));
}

} // verus!
