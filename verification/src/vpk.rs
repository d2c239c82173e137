//! The binary archive (package) index used to locate game assets.
//!
//! An archive's directory file holds a tree of extension / path / file-name
//! entries, each carrying where the file's data lives: an archive number,
//! an offset, a length, and optionally some preloaded bytes. Reading files
//! from disk is a caller's concern; this module holds the parsed index,
//! the little-endian readers the directory format is made of, and the
//! lookup that locates an entry.

use vstd::prelude::*;

verus! {

/// Where one archived file's data lives.
#[derive(Debug)]
pub struct FileInfo {
    pub archive_index: u16,
    pub offset: u32,
    pub length: u32,
    pub preload_data: Vec<u8>,
}

/// One directory entry: the file's path (directory plus name) and
/// extension, and where its data lives.
#[derive(Debug)]
pub struct VpkEntry {
    pub path: String,
    pub extension: String,
    pub info: FileInfo,
}

/// A parsed archive index: the archive set's base path, the directory
/// tree's size in bytes (data in the directory file follows it), and the
/// entries.
#[derive(Debug)]
pub struct VPK {
    pub base_path: String,
    pub tree_size: u32,
    pub file_info: Vec<VpkEntry>,
}

/// The little-endian 32-bit value of four bytes.
pub open spec fn le_u32(b0: int, b1: int, b2: int, b3: int) -> int {
    b0 + b1 * 0x100 + b2 * 0x1_0000 + b3 * 0x100_0000
}

/// The little-endian 16-bit value of two bytes.
pub open spec fn le_u16(b0: int, b1: int) -> int {
    b0 + b1 * 0x100
}

/// Reads a little-endian 32-bit value at `pos`, advancing past it; absent
/// when fewer than four bytes remain.
pub fn read_uint(bytes: &Vec<u8>, pos: usize) -> (r: Option<(u32, usize)>)
    ensures
        match r {
            Some(v) => {
                &&& pos + 4 <= bytes@.len()
                &&& v.1 == pos + 4
                &&& v.0 as int == le_u32(
                    bytes@[pos as int] as int,
                    bytes@[pos + 1] as int,
                    bytes@[pos + 2] as int,
                    bytes@[pos + 3] as int,
                )
            },
            None => pos + 4 > bytes@.len(),
        },
{
    if pos >= bytes.len() || bytes.len() - pos < 4 {
        return None;
    }
    let b0 = bytes[pos] as u32;
    let b1 = bytes[pos + 1] as u32;
    let b2 = bytes[pos + 2] as u32;
    let b3 = bytes[pos + 3] as u32;
    Some((b0 + b1 * 0x100 + b2 * 0x1_0000 + b3 * 0x100_0000, pos + 4))
}

/// Reads a little-endian 16-bit value at `pos`, advancing past it.
pub fn read_ushort(bytes: &Vec<u8>, pos: usize) -> (r: Option<(u16, usize)>)
    ensures
        match r {
            Some(v) => {
                &&& pos + 2 <= bytes@.len()
                &&& v.1 == pos + 2
                &&& v.0 as int == le_u16(bytes@[pos as int] as int, bytes@[pos + 1] as int)
            },
            None => pos + 2 > bytes@.len(),
        },
{
    if pos >= bytes.len() || bytes.len() - pos < 2 {
        return None;
    }
    let b0 = bytes[pos] as u16;
    let b1 = bytes[pos + 1] as u16;
    Some((b0 + b1 * 0x100, pos + 2))
}

/// The position of the next zero byte at or after `pos`.
pub open spec fn nul_at(bytes: Seq<u8>, pos: int) -> Option<int>
    decreases bytes.len() - pos,
{
    if pos < 0 || pos >= bytes.len() {
        None
    } else if bytes[pos] == 0 {
        Some(pos)
    } else {
        nul_at(bytes, pos + 1)
    }
}

/// Reads a zero-terminated run of bytes at `pos`, advancing past the
/// terminator; absent when no terminator follows.
pub fn read_string(bytes: &Vec<u8>, pos: usize) -> (r: Option<(Vec<u8>, usize)>)
    ensures
        match r {
            Some(v) => nul_at(bytes@, pos as int) matches Some(e) && v.1 == e + 1 && v.0@
                == bytes@.subrange(pos as int, e),
            None => nul_at(bytes@, pos as int) is None,
        },
{
    if pos >= bytes.len() {
        return None;
    }
    let mut out: Vec<u8> = Vec::new();
    let mut i: usize = pos;
    proof {
        assert(out@ =~= bytes@.subrange(pos as int, pos as int));
    }
    while i < bytes.len() && bytes[i] != 0
        invariant
            pos <= i <= bytes@.len(),
            out@ == bytes@.subrange(pos as int, i as int),
            nul_at(bytes@, pos as int) == nul_at(bytes@, i as int),
        decreases bytes@.len() - i,
    {
        let b = bytes[i];
        out.push(b);
        i += 1;
        proof {
            assert(out@ =~= bytes@.subrange(pos as int, i as int));
        }
    }
    if i >= bytes.len() {
        return None;
    }
    Some((out, i + 1))
}

/// Position of the first entry with this path and extension.
pub open spec fn entry_match(s: Seq<VpkEntry>, path: Seq<char>, ext: Seq<char>, i: int) -> Option<
    int,
>
    decreases s.len() - i,
{
    if i < 0 || i >= s.len() {
        None
    } else if s[i].path@ == path && s[i].extension@ == ext {
        Some(i)
    } else {
        entry_match(s, path, ext, i + 1)
    }
}

impl VPK {
    /// Locates the entry for a file, by its path (with forward slashes) and
    /// extension.
    pub fn get_entry(&self, path: &str, extension: &str) -> (r: Option<&FileInfo>)
        ensures
            match r {
                Some(info) => entry_match(self.file_info@, path@, extension@, 0) matches Some(i)
                    && *info == self.file_info@[i].info,
                None => entry_match(self.file_info@, path@, extension@, 0) is None,
            },
    {
        let mut i: usize = 0;
        while i < self.file_info.len()
            invariant
                i <= self.file_info@.len(),
                entry_match(self.file_info@, path@, extension@, 0) == entry_match(
                    self.file_info@,
                    path@,
                    extension@,
                    i as int,
                ),
            decreases self.file_info@.len() - i,
        {
            if crate::keyvalue::str_eq(self.file_info[i].path.as_str(), path)
                && crate::keyvalue::str_eq(self.file_info[i].extension.as_str(), extension) {
                return Some(&self.file_info[i].info);
            }
            i += 1;
        }
        None
    }

    /// Where an entry's main data lies inside the directory file itself,
    /// when its archive number says so (`0x7fff`): the header and the tree
    /// precede it. Data in a numbered archive file starts at the entry's
    /// offset directly.
    pub fn data_range_in_directory(&self, info: &FileInfo) -> (r: Option<(u64, u64)>)
        ensures
            match r {
                Some(v) => info.archive_index == 0x7fff && v.0 == 28 + self.tree_size as int
                    + info.offset as int && v.1 == info.length as int,
                None => info.archive_index != 0x7fff,
            },
    {
        if info.archive_index == 0x7fff {
            Some((28u64 + self.tree_size as u64 + info.offset as u64, info.length as u64))
        } else {
            None
        }
    }
}

} // verus!