//! The kernel and initfs images: magic numbers and the ELF entry point.

use vstd::prelude::*;

use crate::thunk::le_u32;

verus! {

/// What an image loaded from the filesystem must be.
#[derive(Clone, Copy, Debug, PartialEq, Eq, Structural)]
pub enum Filetype {
    /// An ELF executable: the kernel.
    Elf,
    /// An initial filesystem image.
    Initfs,
}

/// Why the entry point of an ELF image could not be read.
#[derive(Clone, Copy, Debug, PartialEq, Eq, Structural)]
pub enum ElfError {
    /// The image is shorter than the part of the header that holds the entry point.
    Truncated,
    /// The class and data encoding bytes name no supported combination.
    Unsupported { class: u8, data: u8 },
}

/// The bytes of the header up to and including a 64-bit entry point.
pub const ELF_ENTRY_END: usize = 0x20;

/// The magic of an ELF image.
pub open spec fn elf_magic() -> Seq<u8> {
    seq![0x7fu8, 0x45u8, 0x4cu8, 0x46u8]
}

/// The magic of an initfs image: "RedoxFtw".
pub open spec fn initfs_magic() -> Seq<u8> {
    seq![0x52u8, 0x65u8, 0x64u8, 0x6fu8, 0x78u8, 0x46u8, 0x74u8, 0x77u8]
}

/// The magic that an image of type `t` starts with.
pub open spec fn magic_of(t: Filetype) -> Seq<u8> {
    match t {
        Filetype::Elf => elf_magic(),
        Filetype::Initfs => initfs_magic(),
    }
}

/// The big-endian value of the four bytes of `b` at `off`.
pub open spec fn be_u32(b: Seq<u8>, off: int) -> u32 {
    (b[off + 3] as u32) | ((b[off + 2] as u32) << 8) | ((b[off + 1] as u32) << 16) | ((b[off] as u32) << 24)
}

/// The little-endian value of the eight bytes of `b` at `off`.
pub open spec fn le_u64(b: Seq<u8>, off: int) -> u64 {
    (le_u32(b, off) as u64) | ((le_u32(b, off + 4) as u64) << 32)
}

/// The big-endian value of the eight bytes of `b` at `off`.
pub open spec fn be_u64(b: Seq<u8>, off: int) -> u64 {
    (be_u32(b, off + 4) as u64) | ((be_u32(b, off) as u64) << 32)
}

/// The entry point of the ELF image `b` and whether it is a 64-bit image.
pub open spec fn spec_elf_entry(b: Seq<u8>) -> Result<(u64, bool), ElfError> {
    if b.len() < ELF_ENTRY_END {
        Err(ElfError::Truncated)
    } else if b[4] == 1 && b[5] == 1 {
        Ok((le_u32(b, 0x18) as u64, false))
    } else if b[4] == 1 && b[5] == 2 {
        Ok((be_u32(b, 0x18) as u64, false))
    } else if b[4] == 2 && b[5] == 1 {
        Ok((le_u64(b, 0x18), true))
    } else if b[4] == 2 && b[5] == 2 {
        Ok((be_u64(b, 0x18), true))
    } else {
        Err(ElfError::Unsupported { class: b[4], data: b[5] })
    }
}

fn read_le_u32(b: &[u8], off: usize) -> (r: u32)
    requires
        off + 4 <= b@.len(),
    ensures
        r == le_u32(b@, off as int),
{
    (b[off] as u32) | ((b[off + 1] as u32) << 8) | ((b[off + 2] as u32) << 16) | ((b[off + 3] as u32) << 24)
}

fn read_be_u32(b: &[u8], off: usize) -> (r: u32)
    requires
        off + 4 <= b@.len(),
        b@.len() <= usize::MAX,
    ensures
        r == be_u32(b@, off as int),
{
    let o3: usize = off + 3;
    (b[o3] as u32) | ((b[off + 2] as u32) << 8) | ((b[off + 1] as u32) << 16) | ((b[off] as u32) << 24)
}

/// Reads the entry point at offset 0x18 of an ELF image, as a 32- or 64-bit
/// value in the byte order that the header names, and tells whether the image
/// is a 64-bit one.
pub fn elf_entry(data: &[u8]) -> (r: Result<(u64, bool), ElfError>)
    ensures
        r == spec_elf_entry(data@),
{
    if data.len() < ELF_ENTRY_END {
        return Err(ElfError::Truncated);
    }
    let class = data[4];
    let encoding = data[5];
    if class == 1 && encoding == 1 {
        Ok((read_le_u32(data, 0x18) as u64, false))
    } else if class == 1 && encoding == 2 {
        Ok((read_be_u32(data, 0x18) as u64, false))
    } else if class == 2 && encoding == 1 {
        Ok(((read_le_u32(data, 0x18) as u64) | ((read_le_u32(data, 0x1c) as u64) << 32), true))
    } else if class == 2 && encoding == 2 {
        Ok(((read_be_u32(data, 0x1c) as u64) | ((read_be_u32(data, 0x18) as u64) << 32), true))
    } else {
        Err(ElfError::Unsupported { class, data: encoding })
    }
}

/// The magic of an image of type `filetype`.
fn magic_bytes(filetype: Filetype) -> (r: Vec<u8>)
    ensures
        r@ == magic_of(filetype),
{
    let r = match filetype {
        Filetype::Elf => vec![0x7fu8, 0x45, 0x4c, 0x46],
        Filetype::Initfs => vec![0x52u8, 0x65, 0x64, 0x6f, 0x78, 0x46, 0x74, 0x77],
    };
    assert(r@ =~= magic_of(filetype));
    r
}

/// Whether `data` starts with the magic of an image of type `filetype`.
pub fn has_magic(data: &[u8], filetype: Filetype) -> (r: bool)
    ensures
        r == (data@.len() >= magic_of(filetype).len() && data@.subrange(0, magic_of(filetype).len() as int)
            == magic_of(filetype)),
{
    let magic = magic_bytes(filetype);
    if data.len() < magic.len() {
        return false;
    }
    let mut i: usize = 0;
    while i < magic.len()
        invariant
            magic@ == magic_of(filetype),
            data@.len() >= magic@.len(),
            i <= magic@.len(),
            forall|j: int| 0 <= j < i ==> data@[j] == magic@[j],
        decreases magic@.len() - i,
    {
        if data[i] != magic[i] {
            proof {
                assert(data@.subrange(0, magic@.len() as int)[i as int] != magic@[i as int]);
            }
            return false;
        }
        i = i + 1;
    }
    assert(data@.subrange(0, magic@.len() as int) =~= magic@);
    true
}

/// The size of the page-aligned copy of an image of `len` bytes.
pub fn page_aligned_size(len: u64) -> (r: u64)
    requires
        len + 4095 <= u64::MAX,
    ensures
        r % 4096 == 0,
        len <= r < len + 4096,
{
    let r = (len + 4095) / 4096 * 4096;
    assert(r % 4096 == 0 && len <= r < len + 4096) by (nonlinear_arith)
        requires
            r == (len + 4095) / 4096 * 4096;
    r
}

} // verus!
