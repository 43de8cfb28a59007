//! Version 4 `.pak` archives as Conan Exiles ships them.
//!
//! The last 44 bytes of an archive are its footer: magic `0x5A6F12E1`, version 4,
//! the offset and size of the index (64 bits each) and a SHA-1 hash. The index is a
//! mount point string, an entry count and the entries. Each entry is its path, its
//! offset, compressed size and size (64 bits each), a compression method, a SHA-1
//! hash, for compressed entries a block count and the blocks (start and end, 64 bits
//! each; 16 bytes per block when the method is not zlib), an encryption flag, a block
//! size and four bytes that Conan Exiles adds. When a path occurs twice the first
//! entry counts.
//!
//! Reading the file is left to the caller: these functions say which bytes to read
//! and decode them.
use vstd::prelude::*;

use super::bytes::{
    read_fstring, read_u32, read_u64, read_u8, skip, skip_fstring, spec_fstring,
    spec_skip_fstring, spec_u32, spec_u64, spec_u8,
};
use crate::text::{chars_eq, chars_of, string_of};
use vstd::string::StringExecFns;
use std::io::Read;

verus! {

/// What can go wrong while reading the engine's files.
#[derive(Debug, Clone, PartialEq, Eq)]
pub enum EngineError {
    /// The data ended before a value did.
    UnexpectedEof,
    /// A position or size did not fit the machine.
    OutOfRange,
    /// The footer's magic number is wrong.
    NotPak,
    /// The archive has another version than 4.
    UnsupportedPakVersion(u32),
    /// The index lies beyond the footer.
    InvalidIndex,
    /// No entry has this path.
    EntryNotFound(String),
    /// The entry is encrypted.
    Encrypted,
    /// The entry uses another compression than zlib.
    UnsupportedCompression(u32),
    /// A zlib block did not decompress.
    Decompression,
    /// A `.uasset` file has the wrong magic number.
    NotUasset,
    /// A `.uasset` file has another version than -7.
    UnsupportedUassetVersion(i32),
    /// A header size, name index or export offset that the file gives is inconsistent.
    Malformed,
}

impl EngineError {
    /// A copy of this error.
    pub fn copy(&self) -> (r: EngineError)
        ensures
            r == *self,
    {
        match self {
            EngineError::UnexpectedEof => EngineError::UnexpectedEof,
            EngineError::OutOfRange => EngineError::OutOfRange,
            EngineError::NotPak => EngineError::NotPak,
            EngineError::UnsupportedPakVersion(v) => EngineError::UnsupportedPakVersion(*v),
            EngineError::InvalidIndex => EngineError::InvalidIndex,
            EngineError::EntryNotFound(p) => EngineError::EntryNotFound(p.clone()),
            EngineError::Encrypted => EngineError::Encrypted,
            EngineError::UnsupportedCompression(c) => EngineError::UnsupportedCompression(*c),
            EngineError::Decompression => EngineError::Decompression,
            EngineError::NotUasset => EngineError::NotUasset,
            EngineError::UnsupportedUassetVersion(v) => EngineError::UnsupportedUassetVersion(*v),
            EngineError::Malformed => EngineError::Malformed,
        }
    }
}

/// The size of the footer.
pub const FOOTER_SIZE: u64 = 44;

/// The size of the header that precedes the data of an uncompressed entry.
pub const INLINE_HEADER_SIZE: u64 = 57;

/// How an entry's data is stored.
#[derive(Debug, Clone)]
pub enum Compression {
    Uncompressed,
    Zlib { blocks: Vec<CompressionBlock> },
    Unsupported(u32),
}

/// A zlib block: the positions of its first byte and just past its last byte.
#[derive(Debug, Clone, Copy, PartialEq, Eq)]
pub struct CompressionBlock {
    pub start: u64,
    pub end: u64,
}

/// An entry of the index.
#[derive(Debug, Clone)]
pub struct ArchiveEntry {
    pub path: String,
    pub offset: u64,
    pub size: u64,
    pub compression: Compression,
    pub encrypted: bool,
}

/// The data of an entry, decoded.
#[derive(Debug, Clone)]
pub struct ArchiveEntryReader {
    pub path: String,
    pub data: Vec<u8>,
}

/// How an entry's data is stored, as plain values.
pub enum CompressionView {
    Uncompressed,
    Zlib(Seq<(u64, u64)>),
    Unsupported(u32),
}

/// An entry, as plain values: path, offset, size, compression, encrypted.
pub type EntryView = (Seq<char>, u64, u64, CompressionView, bool);

/// The blocks of a zlib entry as pairs.
pub open spec fn blocks_view(b: Seq<CompressionBlock>) -> Seq<(u64, u64)> {
    b.map_values(|x: CompressionBlock| (x.start, x.end))
}

impl Compression {
    /// The compression as plain values.
    pub open spec fn view(&self) -> CompressionView {
        match self {
            Compression::Uncompressed => CompressionView::Uncompressed,
            Compression::Zlib { blocks } => CompressionView::Zlib(blocks_view(blocks@)),
            Compression::Unsupported(m) => CompressionView::Unsupported(*m),
        }
    }
}

impl ArchiveEntry {
    /// The entry as plain values.
    pub open spec fn view(&self) -> EntryView {
        (self.path@, self.offset, self.size, self.compression.view(), self.encrypted)
    }
}

/// The views of a sequence of entries.
pub open spec fn entries_view(e: Seq<ArchiveEntry>) -> Seq<EntryView> {
    e.map_values(|x: ArchiveEntry| x.view())
}

/// Where the footer of a file of `file_len` bytes starts.
pub open spec fn spec_footer_offset(file_len: u64) -> Option<u64> {
    if file_len >= FOOTER_SIZE {
        Some((file_len - FOOTER_SIZE) as u64)
    } else {
        None
    }
}

/// Where the footer of a file of `file_len` bytes starts; an error when the file is
/// shorter than a footer.
pub fn footer_offset(file_len: u64) -> (r: Result<u64, EngineError>)
    ensures
        r matches Ok(o) ==> spec_footer_offset(file_len) == Some(o),
        r is Err ==> spec_footer_offset(file_len) is None && r == Err::<u64, EngineError>(
            EngineError::UnexpectedEof,
        ),
{
    if file_len >= FOOTER_SIZE {
        Ok(file_len - FOOTER_SIZE)
    } else {
        Err(EngineError::UnexpectedEof)
    }
}

/// The index location that a footer gives, read from the bytes `d` that start at
/// `footer_offset`, or the error.
pub open spec fn spec_footer(d: Seq<u8>, footer_offset: u64) -> Result<(u64, u64), EngineError> {
    match spec_u32(d, 0) {
        None => Err(EngineError::UnexpectedEof),
        Some((magic, p1)) => if magic != 0x5a6f12e1 {
            Err(EngineError::NotPak)
        } else {
            match spec_u32(d, p1) {
                None => Err(EngineError::UnexpectedEof),
                Some((version, p2)) => if version != 4 {
                    Err(EngineError::UnsupportedPakVersion(version))
                } else {
                    match spec_u64(d, p2) {
                        None => Err(EngineError::UnexpectedEof),
                        Some((offset, p3)) => match spec_u64(d, p3) {
                            None => Err(EngineError::UnexpectedEof),
                            Some((size, _)) => if offset + size > footer_offset {
                                Err(EngineError::InvalidIndex)
                            } else {
                                Ok((offset, size))
                            },
                        },
                    }
                },
            }
        },
    }
}

/// Reads the footer: the offset and size of the index.
pub fn parse_footer(d: &[u8], footer_offset: u64) -> (r: Result<(u64, u64), EngineError>)
    ensures
        r == spec_footer(d@, footer_offset),
{
    let (magic, p1) = match read_u32(d, 0) {
        Some(x) => x,
        None => return Err(EngineError::UnexpectedEof),
    };
    if magic != 0x5a6f12e1 {
        return Err(EngineError::NotPak);
    }
    let (version, p2) = match read_u32(d, p1) {
        Some(x) => x,
        None => return Err(EngineError::UnexpectedEof),
    };
    if version != 4 {
        return Err(EngineError::UnsupportedPakVersion(version));
    }
    let (offset, p3) = match read_u64(d, p2) {
        Some(x) => x,
        None => return Err(EngineError::UnexpectedEof),
    };
    let (size, _) = match read_u64(d, p3) {
        Some(x) => x,
        None => return Err(EngineError::UnexpectedEof),
    };
    if offset > footer_offset || size > footer_offset - offset {
        Err(EngineError::InvalidIndex)
    } else {
        Ok((offset, size))
    }
}

/// Reads `n` blocks of 16 bytes at `p`.
pub open spec fn spec_blocks(d: Seq<u8>, p: int, n: nat) -> Option<(Seq<(u64, u64)>, int)>
    decreases n,
{
    if n == 0 {
        Some((seq![], p))
    } else {
        match spec_blocks(d, p, (n - 1) as nat) {
            None => None,
            Some((bs, q)) => match spec_u64(d, q) {
                None => None,
                Some((start, q1)) => match spec_u64(d, q1) {
                    None => None,
                    Some((end, q2)) => Some((bs.push((start, end)), q2)),
                },
            },
        }
    }
}

/// Reads one index entry at `p`: the entry and where the next one starts.
pub open spec fn spec_entry(d: Seq<u8>, p: int) -> Option<(EntryView, int)> {
    match spec_fstring(d, p) {
        None => None,
        Some((path, q0)) => match spec_u64(d, q0) {
            None => None,
            Some((offset, q1)) => match spec_u64(d, q1) {
                None => None,
                Some((_, q2)) => match spec_u64(d, q2) {
                    None => None,
                    Some((size, q3)) => match spec_u32(d, q3) {
                        None => None,
                        Some((method, q4)) => {
                            let q5 = q4 + 20;
                            let comp: Option<(CompressionView, int)> = if method == 0 {
                                Some((CompressionView::Uncompressed, q5))
                            } else {
                                match spec_u32(d, q5) {
                                    None => None,
                                    Some((count, q6)) => if method == 1 {
                                        match spec_blocks(d, q6, count as nat) {
                                            None => None,
                                            Some((bs, q7)) => Some((CompressionView::Zlib(bs), q7)),
                                        }
                                    } else {
                                        Some(
                                            (
                                                CompressionView::Unsupported(method),
                                                q6 + 16 * (count as int),
                                            ),
                                        )
                                    },
                                }
                            };
                            match comp {
                                None => None,
                                Some((c, q7)) => match spec_u8(d, q7) {
                                    None => None,
                                    Some((enc, q8)) => match spec_u32(d, q8) {
                                        None => None,
                                        Some((_, q9)) => Some(
                                            ((path, offset, size, c, enc != 0), q9 + 4),
                                        ),
                                    },
                                },
                            }
                        },
                    },
                },
            },
        },
    }
}

/// Reads `n` index entries at `p`, in order.
pub open spec fn spec_entries(d: Seq<u8>, p: int, n: nat) -> Option<(Seq<EntryView>, int)>
    decreases n,
{
    if n == 0 {
        Some((seq![], p))
    } else {
        match spec_entries(d, p, (n - 1) as nat) {
            None => None,
            Some((es, q)) => match spec_entry(d, q) {
                None => None,
                Some((e, q2)) => Some((es.push(e), q2)),
            },
        }
    }
}

/// Whether an entry with path `path` occurs in `es`.
pub open spec fn has_path(es: Seq<EntryView>, path: Seq<char>) -> bool {
    exists|i: int| 0 <= i < es.len() && (#[trigger] es[i]).0 == path
}

/// Keeps the first entry of each path, in order.
pub open spec fn first_by_path(es: Seq<EntryView>) -> Seq<EntryView>
    decreases es.len(),
{
    if es.len() == 0 {
        seq![]
    } else {
        let prev = first_by_path(es.drop_last());
        if has_path(prev, es.last().0) {
            prev
        } else {
            prev.push(es.last())
        }
    }
}

/// The entries of an index (the first of each path), or `None` when the data ends early.
pub open spec fn spec_index(d: Seq<u8>) -> Option<Seq<EntryView>> {
    match spec_skip_fstring(d, 0) {
        None => None,
        Some(p) => match spec_u32(d, p) {
            None => None,
            Some((count, q)) => match spec_entries(d, q, count as nat) {
                None => None,
                Some((es, _)) => Some(first_by_path(es)),
            },
        },
    }
}

#[verifier::loop_isolation(false)]
fn read_entry(d: &[u8], p: usize) -> (r: Option<(ArchiveEntry, usize)>)
    ensures
        r matches Some((e, q)) ==> spec_entry(d@, p as int) == Some((e.view(), q as int)),
        r is None ==> spec_entry(d@, p as int) is None || d@.len() > usize::MAX - 4,
{
    let (path, q0) = match read_fstring(d, p) {
        Some(x) => x,
        None => return None,
    };
    let (offset, q1) = match read_u64(d, q0) {
        Some(x) => x,
        None => return None,
    };
    let (_csize, q2) = match read_u64(d, q1) {
        Some(x) => x,
        None => return None,
    };
    let (size, q3) = match read_u64(d, q2) {
        Some(x) => x,
        None => return None,
    };
    let (method, q4) = match read_u32(d, q3) {
        Some(x) => x,
        None => return None,
    };
    let q5 = match skip(q4, 20) {
        Some(x) => x,
        None => return None,
    };
    let (compression, q7) = if method == 0 {
        (Compression::Uncompressed, q5)
    } else {
        let (count, q6) = match read_u32(d, q5) {
            Some(x) => x,
            None => return None,
        };
        if method == 1 {
            let mut blocks: Vec<CompressionBlock> = Vec::new();
            let mut q = q6;
            let mut i: u32 = 0;
            while i < count
                invariant
                    i <= count,
                    spec_blocks(d@, q6 as int, i as nat) == Some((blocks_view(blocks@), q as int)),
                decreases count - i,
            {
                let (start, qa) = match read_u64(d, q) {
                    Some(x) => x,
                    None => {
                        proof {
                            lemma_blocks_none(d@, q6 as int, (i + 1) as nat, count as nat);
                        }
                        return None;
                    },
                };
                let (end, qb) = match read_u64(d, qa) {
                    Some(x) => x,
                    None => {
                        proof {
                            lemma_blocks_none(d@, q6 as int, (i + 1) as nat, count as nat);
                        }
                        return None;
                    },
                };
                let ghost old_blocks = blocks@;
                blocks.push(CompressionBlock { start, end });
                assert(blocks_view(blocks@) == blocks_view(old_blocks).push((start, end)));
                q = qb;
                i += 1;
            }
            (Compression::Zlib { blocks }, q)
        } else {
            let n = match skip(q6, 16 * (count as u64)) {
                Some(x) => x,
                None => return None,
            };
            (Compression::Unsupported(method), n)
        }
    };
    let (enc, q8) = match read_u8(d, q7) {
        Some(x) => x,
        None => return None,
    };
    let (_bsize, q9) = match read_u32(d, q8) {
        Some(x) => x,
        None => return None,
    };
    let end = match skip(q9, 4) {
        Some(x) => x,
        None => return None,
    };
    let entry = ArchiveEntry {
        path: string_of(path.as_slice()),
        offset,
        size,
        compression,
        encrypted: enc != 0,
    };
    Some((entry, end))
}

proof fn lemma_blocks_none(d: Seq<u8>, p: int, i: nat, n: nat)
    requires
        i <= n,
        spec_blocks(d, p, i) is None,
    ensures
        spec_blocks(d, p, n) is None,
    decreases n - i,
{
    if i < n {
        lemma_blocks_none(d, p, i + 1, n);
    }
}

proof fn lemma_entries_none(d: Seq<u8>, p: int, i: nat, n: nat)
    requires
        i <= n,
        spec_entries(d, p, i) is None,
    ensures
        spec_entries(d, p, n) is None,
    decreases n - i,
{
    if i < n {
        lemma_entries_none(d, p, i + 1, n);
    }
}

/// An archive's path and the entries of its index (the first of each path).
pub struct Archive {
    path: String,
    entries: Vec<ArchiveEntry>,
}

impl Archive {
    /// The entries.
    pub closed spec fn view(&self) -> Seq<EntryView> {
        entries_view(self.entries@)
    }

    /// The archive's path.
    pub closed spec fn archive_path(&self) -> Seq<char> {
        self.path@
    }

    /// The archive's path.
    pub fn path(&self) -> (r: &str)
        ensures
            r@ == self.archive_path(),
    {
        self.path.as_str()
    }

    /// No two entries share a path.
    pub closed spec fn wf(&self) -> bool {
        forall|i: int, j: int|
            0 <= i < j < self.entries@.len() ==> self.entries@[i].path@ != self.entries@[j].path@
    }

    #[verifier::loop_isolation(false)]
    /// Reads an index. `None` when the data ends before the index does
    /// (or a position does not fit the machine).
    pub fn from_index(path: String, index: &[u8]) -> (r: Option<Self>)
        ensures
            r matches Some(a) ==> a.wf() && spec_index(index@) == Some(a.view()) && a.archive_path() == path@,
            r is None ==> spec_index(index@) is None || index@.len() > usize::MAX - 4,
    {
        let p = match skip_fstring(index, 0) {
            Some(x) => x,
            None => return None,
        };
        let (count, q) = match read_u32(index, p) {
            Some(x) => x,
            None => return None,
        };
        let ghost mut all: Seq<EntryView> = seq![];
        let mut entries: Vec<ArchiveEntry> = Vec::new();
        let mut pos = q;
        let mut i: u32 = 0;
        while i < count
            invariant
                i <= count,
                spec_entries(index@, q as int, i as nat) == Some((all, pos as int)),
                entries_view(entries@) == first_by_path(all),
                forall|a: int, b: int|
                    0 <= a < b < entries@.len() ==> entries@[a].path@ != entries@[b].path@,
            decreases count - i,
        {
            let (e, next) = match read_entry(index, pos) {
                Some(x) => x,
                None => {
                    proof {
                        if spec_entry(index@, pos as int) is None {
                            lemma_entries_none(index@, q as int, (i + 1) as nat, count as nat);
                        }
                    }
                    return None;
                },
            };
            let ghost old_all = all;
            let ghost old_entries = entries@;
            let pc = chars_of(e.path.as_str());
            let mut found = false;
            let mut k: usize = 0;
            while k < entries.len() && !found
                invariant
                    k <= entries@.len(),
                    entries@ == old_entries,
                    found ==> k < entries@.len() && entries@[k as int].path@ == pc@,
                    !found ==> forall|j: int| 0 <= j < k ==> entries@[j].path@ != pc@,
                decreases entries.len() - k + (if found { 0int } else { 1int }),
            {
                let kc = chars_of(entries[k].path.as_str());
                if chars_eq(kc.as_slice(), pc.as_slice()) {
                    found = true;
                } else {
                    k += 1;
                }
            }
            proof {
                all = all.push(e.view());
                assert(all.drop_last() == old_all);
                assert(all.last() == e.view());
                if found {
                    assert(entries_view(old_entries)[k as int].0 == e.view().0);
                    assert(has_path(entries_view(old_entries), e.view().0));
                } else {
                    assert forall|j: int|
                        0 <= j < entries_view(old_entries).len() implies (#[trigger] entries_view(
                        old_entries,
                    )[j]).0 != e.view().0 by {
                        assert(entries_view(old_entries)[j].0 == old_entries[j].path@);
                    }
                }
            }
            if !found {
                entries.push(e);
                assert(entries_view(entries@) =~= entries_view(old_entries).push(all.last()));
            }
            pos = next;
            i += 1;
        }
        Some(Archive { path, entries })
    }

    /// The entry with path `path`, if any.
    pub fn entry(&self, path: &str) -> (r: Option<&ArchiveEntry>)
        ensures
            r matches Some(e) ==> e.path@ == path@ && has_path(self.view(), path@) && exists|
                i: int,
            |
                0 <= i < self.view().len() && self.view()[i] == e.view(),
            r is None ==> !has_path(self.view(), path@),
    {
        let pc = chars_of(path);
        let mut k: usize = 0;
        while k < self.entries.len()
            invariant
                k <= self.entries@.len(),
                pc@ == path@,
                forall|j: int| 0 <= j < k ==> self.entries@[j].path@ != path@,
            decreases self.entries.len() - k,
        {
            let kc = chars_of(self.entries[k].path.as_str());
            assert(kc@ == self.entries@[k as int].path@);
            if chars_eq(kc.as_slice(), pc.as_slice()) {
                assert(self.view()[k as int] == self.entries@[k as int].view());
                assert(self.view()[k as int].0 == path@);
                return Some(&self.entries[k]);
            }
            k += 1;
        }
        assert forall|j: int| 0 <= j < self.view().len() implies (#[trigger] self.view()[j]).0
            != path@ by {
            assert(self.view()[j] == self.entries@[j].view());
        }
        None
    }

    /// All entries.
    pub fn iter(&self) -> (r: &[ArchiveEntry])
        ensures
            entries_view(r@) == self.view(),
    {
        self.entries.as_slice()
    }

    /// The entry to read for `path`: an error when there is none or it is encrypted.
    pub fn open_entry(&self, path: &str) -> (r: Result<&ArchiveEntry, EngineError>)
        ensures
            r matches Ok(e) ==> e.path@ == path@ && !e.encrypted && exists|i: int|
                0 <= i < self.view().len() && self.view()[i] == e.view(),
            r matches Err(err) ==> (!has_path(self.view(), path@) && (err matches EngineError::EntryNotFound(s) && s@ == path@)) || (err
                == EngineError::Encrypted && exists|i: int|
                0 <= i < self.view().len() && self.view()[i].0 == path@ && self.view()[i].4),
    {
        match self.entry(path) {
            Some(e) => {
                if e.encrypted {
                    Err(EngineError::Encrypted)
                } else {
                    Ok(e)
                }
            },
            None => Err(EngineError::EntryNotFound(path.to_owned())),
        }
    }
}

/// The bytes that zlib-decompressing `data` gives, or `None` when it is not a valid
/// zlib stream.
pub uninterp spec fn zlib_inflate(data: Seq<u8>) -> Option<Seq<u8>>;

/// Calls `flate2::bufread::ZlibDecoder` and reads it to the end. The result is
/// what decompressing `data` gives, `None` when decompression fails.
#[verifier::external_body]
fn inflate(data: &[u8]) -> (r: Option<Vec<u8>>)
    ensures
        r matches Some(v) ==> zlib_inflate(data@) == Some(v@),
        r is None ==> zlib_inflate(data@) is None,
{
    let mut out = Vec::new();
    match flate2::bufread::ZlibDecoder::new(data).read_to_end(&mut out) {
        Ok(_) => Some(out),
        Err(_) => None,
    }
}

/// The ranges of the archive file (start and length) that hold an entry's data.
pub open spec fn spec_data_ranges(e: EntryView) -> Result<Seq<(u64, u64)>, EngineError> {
    match e.3 {
        CompressionView::Uncompressed => if e.1 + INLINE_HEADER_SIZE <= u64::MAX {
            Ok(seq![((e.1 + INLINE_HEADER_SIZE) as u64, e.2)])
        } else {
            Err(EngineError::OutOfRange)
        },
        CompressionView::Zlib(bs) => if forall|i: int| 0 <= i < bs.len() ==> (#[trigger] bs[i]).0 <= bs[i].1 {
            Ok(bs.map_values(|b: (u64, u64)| (b.0, (b.1 - b.0) as u64)))
        } else {
            Err(EngineError::Malformed)
        },
        CompressionView::Unsupported(m) => Err(EngineError::UnsupportedCompression(m)),
    }
}

/// The ranges of a zlib entry: one per compression block, in order, each starting where
/// its block starts and as long as the block is, when no block ends before it starts.
pub proof fn lemma_zlib_ranges(e: EntryView, bs: Seq<(u64, u64)>)
    requires
        e.3 == CompressionView::Zlib(bs),
        forall|i: int| 0 <= i < bs.len() ==> (#[trigger] bs[i]).0 <= bs[i].1,
    ensures
        spec_data_ranges(e) matches Ok(r) && r.len() == bs.len() && forall|k: int|
            0 <= k < bs.len() ==> #[trigger] r[k] == (bs[k].0, (bs[k].1 - bs[k].0) as u64) && r[k].0 + r[k].1
                == bs[k].1,
{
}

/// A stored entry is one range: its data right after the entry's own header.
pub proof fn lemma_stored_range(e: EntryView)
    requires
        e.3 == CompressionView::Uncompressed,
        e.1 + INLINE_HEADER_SIZE <= u64::MAX,
    ensures
        spec_data_ranges(e) matches Ok(r) && r.len() == 1 && r[0].0 == e.1 + INLINE_HEADER_SIZE && r[0].1 == e.2,
{
}

/// The data of a zlib entry: the decompressed blocks, concatenated.
pub open spec fn inflate_all(chunks: Seq<Seq<u8>>) -> Option<Seq<u8>>
    decreases chunks.len(),
{
    if chunks.len() == 0 {
        Some(seq![])
    } else {
        match inflate_all(chunks.drop_last()) {
            None => None,
            Some(prev) => match zlib_inflate(chunks.last()) {
                None => None,
                Some(b) => Some(prev + b),
            },
        }
    }
}

/// The views of byte vectors.
pub open spec fn chunks_view(c: Seq<Vec<u8>>) -> Seq<Seq<u8>> {
    c.map_values(|v: Vec<u8>| v@)
}

/// The data of an entry given the bytes of its ranges.
pub open spec fn spec_decode(e: EntryView, chunks: Seq<Seq<u8>>) -> Result<Seq<u8>, EngineError> {
    match e.3 {
        CompressionView::Zlib(_) => match inflate_all(chunks) {
            Some(d) => Ok(d),
            None => Err(EngineError::Decompression),
        },
        CompressionView::Uncompressed => if chunks.len() == 1 && chunks[0].len() == e.2 {
            Ok(chunks[0])
        } else {
            Err(EngineError::UnexpectedEof)
        },
        CompressionView::Unsupported(m) => Err(EngineError::UnsupportedCompression(m)),
    }
}

impl ArchiveEntry {
    /// The ranges of the archive file (start and length) to read for this entry.
    #[verifier::loop_isolation(false)]
    pub fn data_ranges(&self) -> (r: Result<Vec<(u64, u64)>, EngineError>)
        ensures
            r matches Ok(v) ==> spec_data_ranges(self.view()) == Ok::<
                Seq<(u64, u64)>,
                EngineError,
            >(v@),
            r matches Err(e) ==> spec_data_ranges(self.view()) == Err::<
                Seq<(u64, u64)>,
                EngineError,
            >(e),
    {
        match &self.compression {
            Compression::Uncompressed => {
                if self.offset <= u64::MAX - INLINE_HEADER_SIZE {
                    let mut v = Vec::new();
                    v.push((self.offset + INLINE_HEADER_SIZE, self.size));
                    assert(v@ == seq![((self.offset + INLINE_HEADER_SIZE) as u64, self.size)]);
                    Ok(v)
                } else {
                    Err(EngineError::OutOfRange)
                }
            },
            Compression::Zlib { blocks } => {
                let ghost bs = blocks_view(blocks@);
                let mut v: Vec<(u64, u64)> = Vec::new();
                let mut i: usize = 0;
                while i < blocks.len()
                    invariant
                        i <= blocks@.len(),
                        bs == blocks_view(blocks@),
                        forall|j: int| 0 <= j < i ==> (#[trigger] bs[j]).0 <= bs[j].1,
                        v@ == bs.take(i as int).map_values(|b: (u64, u64)| (b.0, (b.1 - b.0) as u64)),
                    decreases blocks.len() - i,
                {
                    let b = blocks[i];
                    assert(bs[i as int] == (b.start, b.end));
                    if b.start > b.end {
                        assert(!((bs[i as int]).0 <= bs[i as int].1));
                        return Err(EngineError::Malformed);
                    }
                    v.push((b.start, b.end - b.start));
                    assert(bs.take(i + 1) == bs.take(i as int).push(bs[i as int]));
                    assert(v@ =~= bs.take(i + 1).map_values(|b: (u64, u64)| (b.0, (b.1 - b.0) as u64)));
                    i += 1;
                }
                assert(bs.take(blocks@.len() as int) == bs);
                Ok(v)
            },
            Compression::Unsupported(m) => Err(EngineError::UnsupportedCompression(*m)),
        }
    }

    /// The data of the entry, given the bytes of the ranges that `data_ranges` gave, in order.
    #[verifier::loop_isolation(false)]
    pub fn decode(&self, chunks: &Vec<Vec<u8>>) -> (r: Result<ArchiveEntryReader, EngineError>)
        ensures
            r matches Ok(rd) ==> spec_decode(self.view(), chunks_view(chunks@)) == Ok::<
                Seq<u8>,
                EngineError,
            >(rd.data@) && rd.path@ == self.path@,
            r matches Err(e) ==> spec_decode(self.view(), chunks_view(chunks@)) == Err::<
                Seq<u8>,
                EngineError,
            >(e),
    {
        let ghost cv = chunks_view(chunks@);
        match &self.compression {
            Compression::Uncompressed => {
                if chunks.len() == 1 && chunks[0].len() as u64 == self.size {
                    let mut data: Vec<u8> = Vec::new();
                    data.extend_from_slice(chunks[0].as_slice());
                    assert(data@ =~= chunks@[0]@);
                    Ok(ArchiveEntryReader { path: self.path.clone(), data })
                } else {
                    Err(EngineError::UnexpectedEof)
                }
            },
            Compression::Zlib { .. } => {
                let mut data: Vec<u8> = Vec::new();
                let mut i: usize = 0;
                assert(cv.take(0) == Seq::<Seq<u8>>::empty());
                while i < chunks.len()
                    invariant
                        i <= chunks@.len(),
                        cv == chunks_view(chunks@),
                        inflate_all(cv.take(i as int)) == Some(data@),
                    decreases chunks.len() - i,
                {
                    assert(cv.take(i + 1).drop_last() == cv.take(i as int));
                    assert(cv.take(i + 1).last() == chunks@[i as int]@);
                    match inflate(chunks[i].as_slice()) {
                        Some(b) => {
                            let ghost old_data = data@;
                            data.extend_from_slice(b.as_slice());
                            assert(data@ =~= old_data + b@);
                        },
                        None => {
                            proof {
                                lemma_inflate_none(cv, (i + 1) as nat);
                            }
                            return Err(EngineError::Decompression);
                        },
                    }
                    i += 1;
                }
                assert(cv.take(chunks@.len() as int) == cv);
                Ok(ArchiveEntryReader { path: self.path.clone(), data })
            },
            Compression::Unsupported(m) => Err(EngineError::UnsupportedCompression(*m)),
        }
    }
}

proof fn lemma_inflate_none(c: Seq<Seq<u8>>, n: nat)
    requires
        n <= c.len(),
        inflate_all(c.take(n as int)) is None,
    ensures
        inflate_all(c) is None,
    decreases c.len() - n,
{
    if n < c.len() {
        assert(c.take((n + 1) as int).drop_last() == c.take(n as int));
        lemma_inflate_none(c, n + 1);
    } else {
        assert(c.take(n as int) == c);
    }
}

} // verus!
