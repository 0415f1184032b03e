//! Directory blocks and the archive tree.
//!
//! A directory block is a contiguous byte range holding a run of typed
//! entry records; directory records point, by absolute offset and length,
//! at further blocks anywhere in the source. `spec_read_block` states, byte
//! for byte, what decoding such a range yields; the executable decoder is
//! proved to return exactly that, for every input. Nesting is bounded by
//! `MAX_DIRECTORY_DEPTH`; exceeding it is reported as an error rather than
//! descending without bound on adversarial input.

use vstd::prelude::*;

use crate::cursor::{lemma_nul_pos_bounds, nul_pos, u32_le_at, ByteCursor};
use crate::error::{Error, ErrorSpec};
use crate::header::{spec_read_header, FileHeader, HeaderParse};
use crate::text::{iso88591_bytes_to_string, legacy_decode};
use vstd::string::StringExecFns;

verus! {

/// How many directory blocks may nest inside one another.
pub const MAX_DIRECTORY_DEPTH: u32 = 64;

/// The type code of a directory entry. Codes other than the two known ones
/// are preserved so the error can report them.
#[derive(Clone, Copy, Debug, Default, PartialEq, Eq, Structural)]
pub enum EntryType {
    #[default]
    Resource,
    Directory,
    Other(u32),
}

/// The entry type stored as a 32-bit code: 0 is a resource, 1 a directory.
pub open spec fn spec_entry_type(code: u32) -> EntryType {
    if code == 0 {
        EntryType::Resource
    } else if code == 1 {
        EntryType::Directory
    } else {
        EntryType::Other(code)
    }
}

impl EntryType {
    /// Decode a stored type code.
    pub fn from_u32(code: u32) -> (r: EntryType)
        ensures
            r == spec_entry_type(code),
    {
        if code == 0 {
            EntryType::Resource
        } else if code == 1 {
            EntryType::Directory
        } else {
            EntryType::Other(code)
        }
    }
}

/// The 16-byte prologue shared by every directory entry: its type, the
/// absolute byte offset and length of its payload or nested block, and a
/// timestamp.
#[derive(Clone, Copy, Debug, Default, PartialEq, Eq, Structural)]
pub struct EntryHeader {
    pub entry_type: EntryType,
    pub position: u32,
    pub size: u32,
    pub time: u32,
}

/// A leaf entry: a named, typed blob whose payload lives at
/// `header.position`.
#[derive(Clone, Debug, PartialEq, Eq)]
pub struct Resource {
    pub header: EntryHeader,
    pub id: u32,
    pub extension: String,
    pub name: String,
    pub description: String,
    pub keys: Vec<u32>,
}

/// An inner node: a named directory owning the entries of its own block.
#[derive(Debug, PartialEq, Eq)]
pub struct Directory {
    pub header: EntryHeader,
    pub name: String,
    pub entries: Vec<Entry>,
}

/// One node of the archive tree.
#[derive(Debug, PartialEq, Eq)]
pub enum Entry {
    Resource(Resource),
    Directory(Directory),
}

/// The mathematical image of an entry.
pub ghost enum EntrySpec {
    Resource {
        header: EntryHeader,
        id: u32,
        extension: Seq<char>,
        name: Seq<char>,
        description: Seq<char>,
        keys: Seq<u32>,
    },
    Directory { header: EntryHeader, name: Seq<char>, entries: Seq<EntrySpec> },
}

/// Whether an in-memory entry holds exactly the fields of its mathematical
/// image.
pub open spec fn entry_matches(e: Entry, g: EntrySpec) -> bool
    decreases g,
{
    match g {
        EntrySpec::Resource { header, id, extension, name, description, keys } => {
            e matches Entry::Resource(r) && r.header == header && r.id == id && r.extension@
                == extension && r.name@ == name && r.description@ == description && r.keys@ == keys
        },
        EntrySpec::Directory { header, name, entries } => {
            e matches Entry::Directory(d) && d.header == header && d.name@ == name
                && entries_match(d.entries@, entries)
        },
    }
}

/// Element-wise `entry_matches` over two sequences of entries.
pub open spec fn entries_match(es: Seq<Entry>, gs: Seq<EntrySpec>) -> bool
    decreases gs,
{
    es.len() == gs.len() && forall|i: int|
        0 <= i < gs.len() ==> entry_matches(es[i], #[trigger] gs[i])
}

/// What decoding the block at `[position, position + size)` of `d` yields:
/// the entries in on-disk order, or the exact error. A stored range that
/// reaches outside the source fails like any other exhausted read.
pub open spec fn spec_read_block(d: Seq<u8>, position: u32, size: u32, depth: nat) -> Result<
    Seq<EntrySpec>,
    ErrorSpec,
>
    decreases depth, size as int, 1int,
{
    if position + size > d.len() {
        Err(ErrorSpec::UnexpectedEof)
    } else {
        spec_read_entries(d, d.subrange(position as int, position + size), 0, depth)
    }
}

/// What decoding the entry records of `block` from `off` onward yields.
/// `block` is the isolated contents of one directory block; `d` is the
/// whole source, needed for the nested blocks that directory records point
/// into.
pub open spec fn spec_read_entries(d: Seq<u8>, block: Seq<u8>, off: int, depth: nat) -> Result<
    Seq<EntrySpec>,
    ErrorSpec,
>
    decreases depth, block.len() - off, 0int,
    when 0 <= off <= block.len() && block.len() <= u32::MAX
{
    if off == block.len() {
        Ok(Seq::empty())
    } else if block.len() - off < 16 {
        Err(ErrorSpec::UnexpectedEof)
    } else {
        let type_code = u32_le_at(block, off);
        let header = EntryHeader {
            entry_type: spec_entry_type(type_code),
            position: u32_le_at(block, off + 4),
            size: u32_le_at(block, off + 8),
            time: u32_le_at(block, off + 12),
        };
        if type_code == 1 {
            let np = nul_pos(block, off + 16);
            proof {
                lemma_nul_pos_bounds(block, off + 16);
            }
            if np == block.len() {
                Err(ErrorSpec::UnexpectedEof)
            } else {
                let name = legacy_decode(block.subrange(off + 16, np));
                if depth == 0 {
                    Err(ErrorSpec::TooDeep)
                } else {
                    match spec_read_block(d, header.position, header.size, (depth - 1) as nat) {
                        Err(e) => Err(e),
                        Ok(children) => {
                            let g = EntrySpec::Directory { header, name, entries: children };
                            match spec_read_entries(d, block, np + 1, depth) {
                                Err(e) => Err(e),
                                Ok(rest) => Ok(seq![g] + rest),
                            }
                        },
                    }
                }
            }
        } else if type_code == 0 {
            if block.len() - off < 28 {
                Err(ErrorSpec::UnexpectedEof)
            } else {
                let id = u32_le_at(block, off + 16);
                let ext_raw = block.subrange(off + 20, off + 24);
                let extension = legacy_decode(
                    crate::text::seq_without_leading_byte(
                        seq![ext_raw[3], ext_raw[2], ext_raw[1], ext_raw[0]],
                        0,
                    ),
                );
                let num_keys = u32_le_at(block, off + 24);
                let np1 = nul_pos(block, off + 28);
                proof {
                    lemma_nul_pos_bounds(block, off + 28);
                }
                if np1 == block.len() {
                    Err(ErrorSpec::UnexpectedEof)
                } else {
                    let name = legacy_decode(block.subrange(off + 28, np1));
                    let np2 = nul_pos(block, np1 + 1);
                    proof {
                        lemma_nul_pos_bounds(block, np1 + 1);
                    }
                    if np2 == block.len() {
                        Err(ErrorSpec::UnexpectedEof)
                    } else {
                        let description = legacy_decode(block.subrange(np1 + 1, np2));
                        let keys_start = np2 + 1;
                        if block.len() - keys_start < 4 * num_keys {
                            Err(ErrorSpec::UnexpectedEof)
                        } else {
                            let keys = Seq::new(
                                num_keys as nat,
                                |i: int| u32_le_at(block, keys_start + 4 * i),
                            );
                            let g = EntrySpec::Resource {
                                header,
                                id,
                                extension,
                                name,
                                description,
                                keys,
                            };
                            match spec_read_entries(d, block, keys_start + 4 * num_keys, depth) {
                                Err(e) => Err(e),
                                Ok(rest) => Ok(seq![g] + rest),
                            }
                        }
                    }
                }
            }
        } else {
            Err(ErrorSpec::UnknownEntryType { type_code })
        }
    }
}

impl EntryHeader {
    /// Read the next 16-byte entry prologue from a block cursor. A cursor
    /// with no bytes left ends the run cleanly with `None`; a cursor that
    /// ends inside the prologue fails.
    pub fn try_read_next<'a>(c: &mut ByteCursor<'a>) -> (r: Result<Option<EntryHeader>, Error>)
        requires
            old(c).wf(),
        ensures
            final(c).wf(),
            final(c).bytes() == old(c).bytes(),
            old(c).remaining() == 0 ==> r == Ok::<Option<EntryHeader>, Error>(None)
                && final(c).pos() == old(c).pos(),
            0 < old(c).remaining() < 16 ==> r == Err::<Option<EntryHeader>, Error>(
                Error::UnexpectedEof,
            ),
            old(c).remaining() >= 16 ==> r == Ok::<Option<EntryHeader>, Error>(
                Some(
                    EntryHeader {
                        entry_type: spec_entry_type(u32_le_at(old(c).bytes(), old(c).pos())),
                        position: u32_le_at(old(c).bytes(), old(c).pos() + 4),
                        size: u32_le_at(old(c).bytes(), old(c).pos() + 8),
                        time: u32_le_at(old(c).bytes(), old(c).pos() + 12),
                    },
                ),
            ) && final(c).pos() == old(c).pos() + 16,
    {
        if c.at_end() {
            return Ok(None);
        }
        let type_code = c.read_u32_le()?;
        let entry_type = EntryType::from_u32(type_code);
        let position = c.read_u32_le()?;
        let size = c.read_u32_le()?;
        let time = c.read_u32_le()?;
        Ok(Some(EntryHeader { entry_type, position, size, time }))
    }
}


/// Decode the tail of one directory record (after its 16-byte prologue):
/// the NUL-terminated name, then the nested block the record points at.
fn read_directory_entry<'a>(
    data: &[u8],
    c: &mut ByteCursor<'a>,
    header: EntryHeader,
    depth: u32,
    Ghost(off): Ghost<int>,
) -> (r: Result<(Entry, Ghost<EntrySpec>), Error>)
    requires
        old(c).wf(),
        old(c).bytes().len() <= u32::MAX,
        0 <= off,
        off + 16 == old(c).pos(),
        old(c).bytes().len() - off >= 16,
        u32_le_at(old(c).bytes(), off) == 1,
        header == (EntryHeader {
            entry_type: spec_entry_type(u32_le_at(old(c).bytes(), off)),
            position: u32_le_at(old(c).bytes(), off + 4),
            size: u32_le_at(old(c).bytes(), off + 8),
            time: u32_le_at(old(c).bytes(), off + 12),
        }),
    ensures
        final(c).wf(),
        final(c).bytes() == old(c).bytes(),
        final(c).pos() > off,
        (match r {
            Ok((e, g)) => entry_matches(e, g@) && spec_read_entries(
                data@,
                old(c).bytes(),
                off,
                depth as nat,
            ) == (match spec_read_entries(data@, old(c).bytes(), final(c).pos(), depth as nat) {
                Ok(rest) => Ok::<Seq<EntrySpec>, ErrorSpec>(seq![g@] + rest),
                Err(err) => Err::<Seq<EntrySpec>, ErrorSpec>(err),
            }),
            Err(e2) => spec_read_entries(data@, old(c).bytes(), off, depth as nat) == Err::<
                Seq<EntrySpec>,
                ErrorSpec,
            >(e2@),
        }),
    decreases depth, 0int,
{
    let ghost d = data@;
    let ghost block = old(c).bytes();
    proof {
        lemma_nul_pos_bounds(block, off + 16);
    }
    let name_bytes = c.read_nul_terminated_byte_string()?;
    let name = crate::text::iso88591_bytes_to_string(name_bytes.as_slice());
    if depth == 0 {
        return Err(Error::TooDeep);
    }
    let sub_entries = match read_directory_entries_recursive(
        data,
        header.position,
        header.size,
        depth - 1,
    ) {
        Ok(se) => se,
        Err(e) => {
            return Err(e);
        },
    };
    let ghost children = spec_read_block(d, header.position, header.size, (depth - 1) as nat)->Ok_0;
    let ghost np = nul_pos(block, off + 16);
    let ghost g = EntrySpec::Directory {
        header,
        name: legacy_decode(block.subrange(off + 16, np)),
        entries: children,
    };
    let directory = Directory { header, name, entries: sub_entries };
    proof {
        assert(entry_matches(Entry::Directory(directory), g));
    }
    Ok((Entry::Directory(directory), Ghost(g)))
}

/// Decode the tail of one resource record (after its 16-byte prologue):
/// id, reversed extension bytes, key count, NUL-terminated name and
/// description, then the key array.
fn read_resource_entry<'a>(
    c: &mut ByteCursor<'a>,
    header: EntryHeader,
    Ghost(d): Ghost<Seq<u8>>,
    Ghost(off): Ghost<int>,
    Ghost(depth): Ghost<nat>,
) -> (r: Result<(Entry, Ghost<EntrySpec>), Error>)
    requires
        old(c).wf(),
        old(c).bytes().len() <= u32::MAX,
        0 <= off,
        off + 16 == old(c).pos(),
        old(c).bytes().len() - off >= 16,
        u32_le_at(old(c).bytes(), off) == 0,
        header == (EntryHeader {
            entry_type: spec_entry_type(u32_le_at(old(c).bytes(), off)),
            position: u32_le_at(old(c).bytes(), off + 4),
            size: u32_le_at(old(c).bytes(), off + 8),
            time: u32_le_at(old(c).bytes(), off + 12),
        }),
    ensures
        final(c).wf(),
        final(c).bytes() == old(c).bytes(),
        final(c).pos() > off,
        (match r {
            Ok((e, g)) => entry_matches(e, g@) && spec_read_entries(
                d,
                old(c).bytes(),
                off,
                depth,
            ) == (match spec_read_entries(d, old(c).bytes(), final(c).pos(), depth) {
                Ok(rest) => Ok::<Seq<EntrySpec>, ErrorSpec>(seq![g@] + rest),
                Err(err) => Err::<Seq<EntrySpec>, ErrorSpec>(err),
            }),
            Err(e2) => spec_read_entries(d, old(c).bytes(), off, depth) == Err::<
                Seq<EntrySpec>,
                ErrorSpec,
            >(e2@),
        }),
{
    let ghost block = old(c).bytes();
    let id = c.read_u32_le()?;
    let ext_raw = c.read_exact(4)?;
    let mut ext_rev: Vec<u8> = Vec::new();
    ext_rev.push(ext_raw[3]);
    ext_rev.push(ext_raw[2]);
    ext_rev.push(ext_raw[1]);
    ext_rev.push(ext_raw[0]);
    proof {
        assert(ext_rev@ =~= seq![ext_raw@[3], ext_raw@[2], ext_raw@[1], ext_raw@[0]]);
    }
    let ext_stripped = crate::text::without_leading_zero_bytes(ext_rev.as_slice());
    let extension = crate::text::iso88591_bytes_to_string(ext_stripped);
    let num_keys = c.read_u32_le()?;
    let ghost np1 = nul_pos(block, off + 28);
    proof {
        lemma_nul_pos_bounds(block, off + 28);
    }
    let name_bytes = c.read_nul_terminated_byte_string()?;
    let name = crate::text::iso88591_bytes_to_string(name_bytes.as_slice());
    let ghost np2 = nul_pos(block, np1 + 1);
    proof {
        lemma_nul_pos_bounds(block, np1 + 1);
    }
    let description_bytes = c.read_nul_terminated_byte_string()?;
    let description = crate::text::iso88591_bytes_to_string(description_bytes.as_slice());
    let ghost keys_start = c.pos();
    if (c.remaining_len() as u64) < 4u64 * (num_keys as u64) {
        return Err(Error::UnexpectedEof);
    }
    let mut keys: Vec<u32> = Vec::new();
    let mut ki: u32 = 0;
    while ki < num_keys
        invariant
            c.wf(),
            c.bytes() == block,
            ki <= num_keys,
            c.pos() == keys_start + 4 * ki,
            block.len() - keys_start >= 4 * num_keys,
            keys@ == Seq::new(ki as nat, |j: int| u32_le_at(block, keys_start + 4 * j)),
        decreases num_keys - ki,
    {
        let k = c.read_u32_le()?;
        keys.push(k);
        ki = ki + 1;
        proof {
            assert(keys@ =~= Seq::new(ki as nat, |j: int| u32_le_at(block, keys_start + 4 * j)));
        }
    }
    let ghost g = EntrySpec::Resource {
        header,
        id,
        extension: legacy_decode(
            crate::text::seq_without_leading_byte(
                seq![ext_raw@[3], ext_raw@[2], ext_raw@[1], ext_raw@[0]],
                0,
            ),
        ),
        name: legacy_decode(block.subrange(off + 28, np1)),
        description: legacy_decode(block.subrange(np1 + 1, np2)),
        keys: Seq::new(num_keys as nat, |j: int| u32_le_at(block, np2 + 1 + 4 * j)),
    };
    let resource = Resource { header, id, extension, name, description, keys };
    proof {
        assert(keys_start == np2 + 1);
        assert(entry_matches(Entry::Resource(resource), g));
        let rest_res = spec_read_entries(d, block, keys_start + 4 * num_keys, depth);
        assert(spec_read_entries(d, block, off, depth) == (match rest_res {
            Ok(rest) => Ok::<Seq<EntrySpec>, ErrorSpec>(seq![g] + rest),
            Err(err) => Err::<Seq<EntrySpec>, ErrorSpec>(err),
        }));
    }
    Ok((Entry::Resource(resource), Ghost(g)))
}

/// Decode the directory block at `[position, position + length)` of
/// `data`, recursing into nested blocks up to `depth` levels deep. Returns
/// exactly what `spec_read_block` says, for every input.
#[verifier::rlimit(50)]
pub fn read_directory_entries_recursive(
    data: &[u8],
    position: u32,
    length: u32,
    depth: u32,
) -> (r: Result<Vec<Entry>, Error>)
    ensures
        (match spec_read_block(data@, position, length, depth as nat) {
            Ok(gs) => r is Ok && entries_match(r->Ok_0@, gs),
            Err(e) => r is Err && r->Err_0@ == e,
        }),
    decreases depth, 1int,
{
    let ghost d = data@;
    if length as usize > data.len() || position as usize > data.len() - length as usize {
        return Err(Error::UnexpectedEof);
    }
    let block_slice = vstd::slice::slice_subrange(
        data,
        position as usize,
        position as usize + length as usize,
    );
    let mut c = ByteCursor::new(block_slice);
    let ghost block = block_slice@;
    let mut entries: Vec<Entry> = Vec::new();
    let ghost mut gs_acc: Seq<EntrySpec> = Seq::empty();
    proof {
        let r0 = spec_read_entries(d, block, 0, depth as nat);
        if r0 is Ok {
            assert(Seq::<EntrySpec>::empty() + r0->Ok_0 =~= r0->Ok_0);
        }
    }
    while !c.at_end()
        invariant
            c.wf(),
            c.bytes() == block,
            data@ == d,
            position + length <= d.len(),
            block == d.subrange(position as int, position as int + length as int),
            block.len() == length,
            entries_match(entries@, gs_acc),
            spec_read_entries(d, block, 0, depth as nat) == (match spec_read_entries(
                d,
                block,
                c.pos(),
                depth as nat,
            ) {
                Ok(rest) => Ok::<Seq<EntrySpec>, ErrorSpec>(gs_acc + rest),
                Err(e) => Err::<Seq<EntrySpec>, ErrorSpec>(e),
            }),
        decreases c.remaining(),
    {
        let ghost off = c.pos();
        let header = match EntryHeader::try_read_next(&mut c)? {
            Some(h) => h,
            None => {
                proof {
                    assert(false);
                }
                return Err(Error::UnexpectedEof);
            },
        };
        let (entry, g) = match header.entry_type {
            EntryType::Directory => {
                read_directory_entry(data, &mut c, header, depth, Ghost(off))?
            },
            EntryType::Resource => {
                read_resource_entry(&mut c, header, Ghost(d), Ghost(off), Ghost(depth as nat))?
            },
            EntryType::Other(type_code) => {
                return Err(Error::UnknownEntryType { type_code });
            },
        };
        entries.push(entry);
        proof {
            let rest_res = spec_read_entries(d, block, c.pos(), depth as nat);
            if rest_res is Ok {
                assert((gs_acc + (seq![g@] + rest_res->Ok_0)) =~= ((gs_acc + seq![g@])
                    + rest_res->Ok_0));
            }
            gs_acc = gs_acc + seq![g@];
        }
    }
    proof {
        assert(spec_read_entries(d, block, c.pos(), depth as nat) == Ok::<
            Seq<EntrySpec>,
            ErrorSpec,
        >(Seq::empty()));
        assert(gs_acc + Seq::<EntrySpec>::empty() =~= gs_acc);
    }
    Ok(entries)
}

/// The display name of an entry: a resource as `name.extension`, a
/// directory as its bare name.
pub open spec fn spec_entry_name(e: Entry) -> Seq<char> {
    match e {
        Entry::Resource(res) => res.name@ + seq!['.'] + res.extension@,
        Entry::Directory(dir) => dir.name@,
    }
}

impl Entry {
    /// The entry's display name.
    pub fn name(&self) -> (r: String)
        ensures
            r@ == spec_entry_name(*self),
    {
        proof {
            reveal_strlit(".");
            assert("."@ =~= seq!['.']);
        }
        match self {
            Entry::Resource(res) => {
                let mut s = res.name.clone();
                s.append(".");
                s.append(res.extension.as_str());
                s
            },
            Entry::Directory(dir) => dir.name.clone(),
        }
    }
}

/// The fully decoded archive: its metadata and the root entries of its
/// directory tree.
#[derive(Debug, PartialEq, Eq)]
pub struct File {
    pub file_type: String,
    pub user_title: String,
    pub version: u32,
    pub time: u32,
    pub root_entries: Vec<Entry>,
}

/// The mathematical image of a decoded archive.
pub ghost struct FileSpec {
    pub file_type: Seq<char>,
    pub user_title: Seq<char>,
    pub version: u32,
    pub time: u32,
    pub root_entries: Seq<EntrySpec>,
}

/// What decoding a whole archive source yields: the header decides the
/// metadata and where the root block lives; the root block decides the
/// tree.
pub open spec fn spec_read_file(d: Seq<u8>) -> Result<FileSpec, ErrorSpec> {
    match spec_read_header(d) {
        HeaderParse::Fail { err } => Err(err),
        HeaderParse::Parsed { header, end } => {
            match spec_read_block(
                d,
                header.root_dir_position,
                header.root_dir_size,
                MAX_DIRECTORY_DEPTH as nat,
            ) {
                Err(e) => Err(e),
                Ok(gs) => Ok(
                    FileSpec {
                        file_type: legacy_decode(header.file_type),
                        user_title: legacy_decode(header.user_title),
                        version: header.version,
                        time: header.time,
                        root_entries: gs,
                    },
                ),
            }
        },
    }
}

/// Whether an in-memory archive holds exactly the fields of its
/// mathematical image.
pub open spec fn file_matches(f: File, g: FileSpec) -> bool {
    &&& f.file_type@ == g.file_type
    &&& f.user_title@ == g.user_title
    &&& f.version == g.version
    &&& f.time == g.time
    &&& entries_match(f.root_entries@, g.root_entries)
}

impl File {
    /// Decode a whole archive source: the header, then the root directory
    /// block and every block it reaches.
    pub fn try_read(data: &[u8]) -> (r: Result<File, Error>)
        ensures
            (match spec_read_file(data@) {
                Ok(g) => r is Ok && file_matches(r->Ok_0, g),
                Err(e) => r is Err && r->Err_0@ == e,
            }),
    {
        let mut c = ByteCursor::new(data);
        let header = FileHeader::try_read(&mut c)?;
        let root_entries = read_directory_entries_recursive(
            data,
            header.root_dir_position,
            header.root_dir_size,
            MAX_DIRECTORY_DEPTH,
        )?;
        let file_type = iso88591_bytes_to_string(header.file_type.as_bytes());
        let user_title = iso88591_bytes_to_string(header.user_title.as_bytes());
        Ok(
            File {
                file_type,
                user_title,
                version: header.version,
                time: header.time,
                root_entries,
            },
        )
    }
}

} // verus!
