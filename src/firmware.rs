//! Decoding what the firmware reports: memory maps, VBE modes, EDID data,
//! keystrokes and text modes, and the register frames of the BIOS calls
//! that ask for them.

use vstd::prelude::*;

use crate::area::{OsMemoryEntry, OsMemoryKind};
use crate::os::{OsKey, OsVideoMode};
use crate::thunk::{le_u16, le_u32, ThunkData};
use crate::image::le_u64;

verus! {

/// Where one E820 entry is returned.
pub const MEMORY_MAP_ADDR: u64 = 0x1380;
/// The size of an E820 entry: base, size and type.
pub const E820_ENTRY_SIZE: u32 = 20;
/// "SMAP", the signature of the E820 call.
pub const E820_SIGNATURE: u32 = 0x534D4150;
/// Where VBE card information is returned.
pub const VBE_CARD_INFO_ADDR: u64 = 0x1000;
/// Where VBE mode information is returned.
pub const VBE_MODE_INFO_ADDR: u64 = 0x1200;
/// Where the VBE EDID block is returned.
pub const VBE_EDID_ADDR: u64 = 0x1300;
/// The start of the heap: the first address above the first MiB.
pub const HEAP_START: u64 = 0x10_0000;

/// Why a firmware answer was rejected.
#[derive(Clone, Copy, Debug, PartialEq, Eq, Structural)]
pub enum FirmwareError {
    /// The E820 call did not answer with its signature and entry size.
    BadE820,
    /// A returned block is shorter than its format.
    Truncated,
}

/// The kind of an E820 memory type.
pub open spec fn spec_e820_kind(t: u32) -> OsMemoryKind {
    if t == 1 {
        OsMemoryKind::Free
    } else if t == 3 {
        OsMemoryKind::Reclaim
    } else if t == 0 {
        OsMemoryKind::Null
    } else {
        OsMemoryKind::Reserved
    }
}

/// Classifies an E820 memory type.
pub fn e820_kind(t: u32) -> (r: OsMemoryKind)
    ensures
        r == spec_e820_kind(t),
{
    if t == 1 {
        OsMemoryKind::Free
    } else if t == 3 {
        OsMemoryKind::Reclaim
    } else if t == 0 {
        OsMemoryKind::Null
    } else {
        OsMemoryKind::Reserved
    }
}

/// The frame of the E820 call that continues from `continuation`.
pub fn e820_frame(continuation: u32) -> (r: ThunkData)
    ensures
        r == (ThunkData {
            es: 0,
            edi: MEMORY_MAP_ADDR as u32,
            esi: 0,
            ebp: 0,
            ebx: continuation,
            edx: E820_SIGNATURE,
            ecx: E820_ENTRY_SIZE,
            eax: 0xE820,
        }),
{
    let mut d = ThunkData::new();
    d.eax = 0xE820;
    d.ebx = continuation;
    d.ecx = E820_ENTRY_SIZE;
    d.edx = E820_SIGNATURE;
    d.edi = MEMORY_MAP_ADDR as u32;
    d
}

/// Whether another E820 call follows: after the first call, only while the
/// continuation value is not zero.
pub fn e820_more(first: bool, continuation: u32) -> (r: bool)
    ensures
        r == (first || continuation != 0),
{
    first || continuation != 0
}

/// The entry that an E820 call returned in `entry`, checked against the
/// returned frame.
pub fn e820_entry(data: &ThunkData, entry: &[u8]) -> (r: Result<OsMemoryEntry, FirmwareError>)
    ensures
        data.eax != E820_SIGNATURE || data.ecx != E820_ENTRY_SIZE ==> r == Err::<OsMemoryEntry, FirmwareError>(FirmwareError::BadE820),
        data.eax == E820_SIGNATURE && data.ecx == E820_ENTRY_SIZE && entry@.len() < 20 ==> r == Err::<OsMemoryEntry, FirmwareError>(FirmwareError::Truncated),
        data.eax == E820_SIGNATURE && data.ecx == E820_ENTRY_SIZE && entry@.len() >= 20 ==> r == Ok::<OsMemoryEntry, FirmwareError>(
            OsMemoryEntry { base: le_u64(entry@, 0), size: le_u64(entry@, 8), kind: spec_e820_kind(le_u32(entry@, 16)) },
        ),
{
    if data.eax != E820_SIGNATURE || data.ecx != E820_ENTRY_SIZE {
        return Err(FirmwareError::BadE820);
    }
    if entry.len() < 20 {
        return Err(FirmwareError::Truncated);
    }
    let base = (read_u32(entry, 0) as u64) | ((read_u32(entry, 4) as u64) << 32);
    let size = (read_u32(entry, 8) as u64) | ((read_u32(entry, 12) as u64) << 32);
    Ok(OsMemoryEntry { base, size, kind: e820_kind(read_u32(entry, 16)) })
}

fn read_u32(b: &[u8], off: usize) -> (r: u32)
    requires
        off + 4 <= b@.len(),
    ensures
        r == le_u32(b@, off as int),
{
    (b[off] as u32) | ((b[off + 1] as u32) << 8) | ((b[off + 2] as u32) << 16) | ((b[off + 3] as u32) << 24)
}

fn read_u16(b: &[u8], off: usize) -> (r: u16)
    requires
        off + 2 <= b@.len(),
    ensures
        r == le_u16(b@, off as int),
{
    ((b[off] as u16) | ((b[off + 1] as u16) << 8)) as u16
}

/// The heap that a free entry offers: from `HEAP_START` to its end, when it
/// contains `HEAP_START`.
pub open spec fn heap_of(e: OsMemoryEntry) -> Option<(u64, u64)> {
    if e.kind == OsMemoryKind::Free && e.base <= HEAP_START && e.base + e.size >= HEAP_START {
        Some((HEAP_START, (e.base + e.size - HEAP_START) as u64))
    } else {
        None
    }
}

/// Chooses the bootloader heap among the entries of the memory map: the
/// largest heap that a free entry containing the first MiB's end offers,
/// the first such when several are equal.
pub fn find_heap(entries: &[OsMemoryEntry]) -> (r: Option<(u64, u64)>)
    requires
        forall|i: int| 0 <= i < entries@.len() ==> #[trigger] entries@[i].base + entries@[i].size <= u64::MAX,
    ensures
        r is None <==> forall|i: int| 0 <= i < entries@.len() ==> #[trigger] heap_of(entries@[i]) is None,
        r matches Some(h) ==> exists|i: int| 0 <= i < entries@.len() && #[trigger] heap_of(entries@[i]) == Some(h),
        r matches Some(h) ==> forall|i: int| 0 <= i < entries@.len() && #[trigger] heap_of(entries@[i]) is Some
            ==> heap_of(entries@[i]).unwrap().1 <= h.1,
{
    let mut best: Option<(u64, u64)> = None;
    let mut i: usize = 0;
    while i < entries.len()
        invariant
            i <= entries@.len(),
            forall|j: int| 0 <= j < entries@.len() ==> #[trigger] entries@[j].base + entries@[j].size <= u64::MAX,
            best is None <==> forall|j: int| 0 <= j < i ==> #[trigger] heap_of(entries@[j]) is None,
            best matches Some(h) ==> exists|j: int| 0 <= j < i && #[trigger] heap_of(entries@[j]) == Some(h),
            best matches Some(h) ==> forall|j: int| 0 <= j < i && #[trigger] heap_of(entries@[j]) is Some
                ==> heap_of(entries@[j]).unwrap().1 <= h.1,
        decreases entries@.len() - i,
    {
        let e = entries[i];
        if e.kind == OsMemoryKind::Free && e.base <= HEAP_START && e.base + e.size >= HEAP_START {
            let size = e.base + e.size - HEAP_START;
            match best {
                Some((_, s)) => {
                    if size > s {
                        best = Some((HEAP_START, size));
                    }
                },
                None => {
                    best = Some((HEAP_START, size));
                },
            }
            proof {
                assert(heap_of(entries@[i as int]) == Some((HEAP_START, size)));
            }
        }
        i = i + 1;
    }
    best
}

/// The kind of a UEFI memory type: loader and boot-services memory and
/// conventional memory are free once the firmware is left.
pub open spec fn spec_efi_kind(t: u32) -> OsMemoryKind {
    if t == 1 || t == 2 || t == 3 || t == 4 || t == 7 {
        OsMemoryKind::Free
    } else {
        OsMemoryKind::Reserved
    }
}

/// The bytes that `pages` pages span, saturating at the top of the address space.
pub open spec fn pages_bytes(pages: u64) -> u64 {
    if pages <= u64::MAX / 4096 { (pages * 4096) as u64 } else { u64::MAX }
}

/// The entry of a UEFI memory descriptor of type `t` covering `pages` pages at `phys`.
pub fn efi_memory_entry(t: u32, phys: u64, pages: u64) -> (r: OsMemoryEntry)
    ensures
        r == (OsMemoryEntry { base: phys, size: pages_bytes(pages), kind: spec_efi_kind(t) }),
{
    let kind = if t == 1 || t == 2 || t == 3 || t == 4 || t == 7 {
        OsMemoryKind::Free
    } else {
        OsMemoryKind::Reserved
    };
    let size = if pages <= u64::MAX / 4096 { pages * 4096 } else { u64::MAX };
    OsMemoryEntry { base: phys, size, kind }
}

/// The size of a UEFI memory descriptor: type, physical and virtual start,
/// page count and attributes.
pub const EFI_DESCRIPTOR_SIZE: usize = 40;

/// Why a UEFI memory map was refused.
#[derive(Clone, Copy, Debug, PartialEq, Eq, Structural)]
pub enum MemoryMapError {
    /// Descriptors are smaller than the format needs.
    DescriptorTooSmall,
    /// The descriptor format is not version 1.
    BadVersion,
    /// The reported size exceeds the buffer.
    TooLarge,
}

/// The entry of descriptor `i` of the map `m` with descriptors of `size` bytes.
pub open spec fn efi_descriptor_entry(m: Seq<u8>, size: int, i: int) -> OsMemoryEntry {
    let o = i * size;
    OsMemoryEntry {
        base: le_u64(m, o + 8),
        size: pages_bytes(le_u64(m, o + 24)),
        kind: spec_efi_kind(le_u32(m, o)),
    }
}

/// A walk through the UEFI memory map, one descriptor at a time.
pub struct MemoryMapIter {
    map: Vec<u8>,
    descriptor_size: usize,
    i: usize,
}

impl MemoryMapIter {
    /// The map's bytes.
    pub closed spec fn spec_map(&self) -> Seq<u8> {
        self.map@
    }

    /// The size of a descriptor.
    pub closed spec fn spec_descriptor_size(&self) -> int {
        self.descriptor_size as int
    }

    /// The index of the next descriptor.
    pub closed spec fn spec_index(&self) -> int {
        self.i as int
    }

    /// The number of whole descriptors in the map.
    pub open spec fn spec_count(&self) -> int {
        (self.spec_map().len() as int) / self.spec_descriptor_size()
    }

    /// The walk is over a map of whole-sized descriptors.
    pub open spec fn wf(&self) -> bool {
        &&& self.spec_descriptor_size() >= EFI_DESCRIPTOR_SIZE
        &&& 0 <= self.spec_index() <= self.spec_count()
    }

    /// A walk over the first `map_size` bytes of `map`, whose descriptors
    /// are `descriptor_size` bytes of format `descriptor_version`.
    pub fn new(map: Vec<u8>, map_size: usize, descriptor_size: usize, descriptor_version: u32) -> (r: Result<
        MemoryMapIter,
        MemoryMapError,
    >)
        ensures
            descriptor_size < EFI_DESCRIPTOR_SIZE ==> r == Err::<MemoryMapIter, MemoryMapError>(MemoryMapError::DescriptorTooSmall),
            descriptor_size >= EFI_DESCRIPTOR_SIZE && descriptor_version != 1 ==> r == Err::<MemoryMapIter, MemoryMapError>(MemoryMapError::BadVersion),
            descriptor_size >= EFI_DESCRIPTOR_SIZE && descriptor_version == 1 && map_size > map@.len()
                ==> r == Err::<MemoryMapIter, MemoryMapError>(MemoryMapError::TooLarge),
            r matches Ok(it) ==> {
                &&& it.wf()
                &&& it.spec_map() == map@.take(map_size as int)
                &&& it.spec_descriptor_size() == descriptor_size
                &&& it.spec_index() == 0
            },
            descriptor_size >= EFI_DESCRIPTOR_SIZE && descriptor_version == 1 && map_size <= map@.len() ==> r is Ok,
    {
        if descriptor_size < EFI_DESCRIPTOR_SIZE {
            return Err(MemoryMapError::DescriptorTooSmall);
        }
        if descriptor_version != 1 {
            return Err(MemoryMapError::BadVersion);
        }
        if map_size > map.len() {
            return Err(MemoryMapError::TooLarge);
        }
        let mut map = map;
        map.truncate(map_size);
        Ok(MemoryMapIter { map, descriptor_size, i: 0 })
    }

    /// The next descriptor's entry, or `None` after the last.
    pub fn next(&mut self) -> (r: Option<OsMemoryEntry>)
        requires
            old(self).wf(),
        ensures
            final(self).wf(),
            final(self).spec_map() == old(self).spec_map(),
            final(self).spec_descriptor_size() == old(self).spec_descriptor_size(),
            old(self).spec_index() < old(self).spec_count() ==> r == Some(
                efi_descriptor_entry(old(self).spec_map(), old(self).spec_descriptor_size(), old(self).spec_index()),
            ) && final(self).spec_index() == old(self).spec_index() + 1,
            old(self).spec_index() >= old(self).spec_count() ==> r is None && final(self).spec_index() == old(self).spec_index(),
    {
        let count = self.map.len() / self.descriptor_size;
        if self.i >= count {
            return None;
        }
        proof {
            let (i, c, sz, l) = (self.i as int, count as int, self.descriptor_size as int, self.map@.len() as int);
            assert(i * sz + sz <= l) by (nonlinear_arith)
                requires
                    i < c,
                    c == l / sz,
                    sz > 0;
        }
        let o = self.i * self.descriptor_size;
        let t = read_u32(self.map.as_slice(), o);
        let base = read_u64(self.map.as_slice(), o + 8);
        let pages = read_u64(self.map.as_slice(), o + 24);
        self.i = self.i + 1;
        Some(efi_memory_entry(t, base, pages))
    }

    /// Sets each descriptor's virtual start to its physical start, for an
    /// identity map of every region once the firmware's runtime services
    /// are relocated.
    #[verifier::spinoff_prover]
    pub fn identity_map_virtual(&mut self)
        requires
            old(self).wf(),
        ensures
            final(self).wf(),
            final(self).spec_descriptor_size() == old(self).spec_descriptor_size(),
            final(self).spec_index() == old(self).spec_index(),
            final(self).spec_map().len() == old(self).spec_map().len(),
            forall|b: int| 0 <= b < old(self).spec_map().len() ==> #[trigger] final(self).spec_map()[b] == ({
                let sz = old(self).spec_descriptor_size();
                let o = b % sz;
                if b < old(self).spec_count() * sz && 16 <= o < 24 { old(self).spec_map()[b - 8] } else { old(self).spec_map()[b] }
            }),
    {
        let n = self.map.len();
        let count = n / self.descriptor_size;
        let sz = self.descriptor_size;
        let ghost m0 = self.map@;
        let ghost i0 = self.i;
        let mut i: usize = 0;
        while i < count
            invariant
                sz == self.descriptor_size,
                sz >= EFI_DESCRIPTOR_SIZE,
                count == (self.map@.len() as int) / (sz as int),
                self.map@.len() == m0.len(),
                n == m0.len(),
                i <= count,
                self.i == i0,
                i0 <= count,
                forall|b: int| 0 <= b < m0.len() ==> #[trigger] self.map@[b] == ({
                    let o = b % (sz as int);
                    if b < i * sz && 16 <= o < 24 { m0[b - 8] } else { m0[b] }
                }),
            decreases count - i,
        {
            proof {
                let (ii, c, z, l) = (i as int, count as int, sz as int, self.map@.len() as int);
                assert(ii * z + z <= l) by (nonlinear_arith)
                    requires
                        ii < c,
                        c == l / z,
                        z > 0;
            }
            let o = i * sz;
            let mut k: usize = 0;
            while k < 8
                invariant
                    sz == self.descriptor_size,
                    sz >= EFI_DESCRIPTOR_SIZE,
                    o == i * sz,
                    o + sz <= self.map@.len(),
                    self.map@.len() == m0.len(),
                    n == m0.len(),
                    count == (self.map@.len() as int) / (sz as int),
                    i < count,
                    self.i == i0,
                    i0 <= count,
                    k <= 8,
                    forall|b: int| 0 <= b < m0.len() ==> #[trigger] self.map@[b] == ({
                        let r = b % (sz as int);
                        if (b < i * sz && 16 <= r < 24) || (o + 16 <= b < o + 16 + k) { m0[b - 8] } else { m0[b] }
                    }),
                decreases 8 - k,
            {
                let byte = self.map[o + 8 + k];
                proof {
                    let b8 = (o + 8 + k) as int;
                    assert(self.map@[b8] == m0[b8]);
                }
                let ghost before = self.map@;
                self.map.set(o + 16 + k, byte);
                proof {
                    assert forall|b: int| 0 <= b < m0.len() implies #[trigger] self.map@[b] == ({
                        let r = b % (sz as int);
                        if (b < i * sz && 16 <= r < 24) || (o + 16 <= b < o + 16 + k + 1) { m0[b - 8] } else { m0[b] }
                    }) by {
                        if b == o + 16 + k {
                            assert(self.map@[b] == byte);
                        } else {
                            assert(self.map@[b] == before[b]);
                        }
                    }
                }
                k = k + 1;
            }
            proof {
                assert forall|b: int| 0 <= b < m0.len() implies #[trigger] self.map@[b] == ({
                    let r = b % (sz as int);
                    if b < (i + 1) * sz && 16 <= r < 24 { m0[b - 8] } else { m0[b] }
                }) by {
                    let z = sz as int;
                    let r = b % z;
                    assert((i + 1) * z == i * z + z) by (nonlinear_arith);
                    assert(o == i * z);
                    assert(self.map@[b] == (if (b < i * z && 16 <= r < 24) || (o + 16 <= b < o + 16 + 8) { m0[b - 8] } else { m0[b] }));
                    if i * z <= b < (i + 1) * z {
                        assert(b - i * z == r) by (nonlinear_arith)
                            requires
                                i * z <= b < (i + 1) * z,
                                r == b % z,
                                z > 0;
                    } else if b < i * z {
                    } else {
                        assert(b >= (i + 1) * z);
                    }
                }
            }
            i = i + 1;
        }
    }

    /// Rewinds the walk to the first descriptor.
    pub fn rewind(&mut self)
        requires
            old(self).wf(),
        ensures
            final(self).wf(),
            final(self).spec_map() == old(self).spec_map(),
            final(self).spec_descriptor_size() == old(self).spec_descriptor_size(),
            final(self).spec_index() == 0,
    {
        self.i = 0;
    }

    /// The map, to hand to the firmware.
    pub fn map(&self) -> (r: &[u8])
        ensures
            r@ == self.spec_map(),
    {
        self.map.as_slice()
    }
}

fn read_u64(b: &[u8], off: usize) -> (r: u64)
    requires
        off + 8 <= b@.len(),
    ensures
        r == le_u64(b@, off as int),
{
    let _len = b.len();
    let hi: usize = off + 4;
    (read_u32(b, off) as u64) | ((read_u32(b, hi) as u64) << 32)
}

/// A real-mode segment:offset pointer.
#[derive(Clone, Copy, Debug, PartialEq, Eq, Structural)]
pub struct VbeFarPtr {
    pub offset: u16,
    pub segment: u16,
}

impl VbeFarPtr {
    /// The linear address the pointer designates.
    pub fn as_ptr(&self) -> (r: u64)
        ensures
            r == self.segment as int * 16 + self.offset as int,
    {
        self.segment as u64 * 16 + self.offset as u64
    }
}

/// The frame that asks for VBE card information.
pub fn vbe_card_info_frame() -> (r: ThunkData)
    ensures
        r == (ThunkData { es: 0, edi: VBE_CARD_INFO_ADDR as u32, esi: 0, ebp: 0, ebx: 0, edx: 0, ecx: 0, eax: 0x4F00 }),
{
    let mut d = ThunkData::new();
    d.eax = 0x4F00;
    d.edi = VBE_CARD_INFO_ADDR as u32;
    d
}

/// The mode number to ask for: the listed number with the linear
/// framebuffer bit set, or `None` at the end of the list.
pub fn vbe_mode_number(listed: u16) -> (r: Option<u16>)
    ensures
        (listed | 0x4000) == 0xFFFF ==> r is None,
        (listed | 0x4000) != 0xFFFF ==> r == Some(listed | 0x4000),
{
    let mode = listed | 0x4000;
    if mode == 0xFFFF {
        None
    } else {
        Some(mode)
    }
}

/// The frame that asks for information on mode `mode`.
pub fn vbe_mode_info_frame(mode: u16) -> (r: ThunkData)
    ensures
        r == (ThunkData { es: 0, edi: VBE_MODE_INFO_ADDR as u32, esi: 0, ebp: 0, ebx: 0, edx: 0, ecx: mode as u32, eax: 0x4F01 }),
{
    let mut d = ThunkData::new();
    d.eax = 0x4F01;
    d.ecx = mode as u32;
    d.edi = VBE_MODE_INFO_ADDR as u32;
    d
}

/// The frame that sets mode `id`.
pub fn vbe_set_mode_frame(id: u32) -> (r: ThunkData)
    ensures
        r == (ThunkData { es: 0, edi: 0, esi: 0, ebp: 0, ebx: id, edx: 0, ecx: 0, eax: 0x4F02 }),
{
    let mut d = ThunkData::new();
    d.eax = 0x4F02;
    d.ebx = id;
    d
}

/// The frame that reads the monitor's EDID block.
pub fn vbe_edid_frame() -> (r: ThunkData)
    ensures
        r == (ThunkData { es: 0, edi: VBE_EDID_ADDR as u32, esi: 0, ebp: 0, ebx: 1, edx: 0, ecx: 0, eax: 0x4F15 }),
{
    let mut d = ThunkData::new();
    d.eax = 0x4F15;
    d.ebx = 0x01;
    d.edi = VBE_EDID_ADDR as u32;
    d
}

/// Whether a VBE call succeeded.
pub fn vbe_ok(data: &ThunkData) -> (r: bool)
    ensures
        r == (data.eax == 0x004F),
{
    data.eax == 0x004F
}

/// The fields of a VBE controller information block that the loader reads.
#[derive(Clone, Copy, Debug, PartialEq, Eq, Structural)]
pub struct VbeCardInfo {
    pub version: u16,
    pub videomodeptr: VbeFarPtr,
    pub totalmemory: u16,
}

impl VbeCardInfo {
    /// Decodes a controller information block.
    pub fn from_bytes(b: &[u8]) -> (r: Option<VbeCardInfo>)
        ensures
            b@.len() < 20 ==> r is None,
            b@.len() >= 20 ==> r == Some(
                VbeCardInfo {
                    version: le_u16(b@, 4),
                    videomodeptr: VbeFarPtr { offset: le_u16(b@, 14), segment: le_u16(b@, 16) },
                    totalmemory: le_u16(b@, 18),
                },
            ),
    {
        if b.len() < 20 {
            return None;
        }
        Some(
            VbeCardInfo {
                version: read_u16(b, 4),
                videomodeptr: VbeFarPtr { offset: read_u16(b, 14), segment: read_u16(b, 16) },
                totalmemory: read_u16(b, 18),
            },
        )
    }
}

/// The fields of a VBE mode information block that the loader reads.
#[derive(Clone, Copy, Debug, PartialEq, Eq, Structural)]
pub struct VbeModeInfo {
    pub bytesperscanline: u16,
    pub xresolution: u16,
    pub yresolution: u16,
    pub bitsperpixel: u8,
    pub physbaseptr: u32,
}

impl VbeModeInfo {
    /// Decodes a mode information block.
    pub fn from_bytes(b: &[u8]) -> (r: Option<VbeModeInfo>)
        ensures
            b@.len() < 44 ==> r is None,
            b@.len() >= 44 ==> r == Some(
                VbeModeInfo {
                    bytesperscanline: le_u16(b@, 16),
                    xresolution: le_u16(b@, 18),
                    yresolution: le_u16(b@, 20),
                    bitsperpixel: b@[25],
                    physbaseptr: le_u32(b@, 40),
                },
            ),
    {
        if b.len() < 44 {
            return None;
        }
        Some(
            VbeModeInfo {
                bytesperscanline: read_u16(b, 16),
                xresolution: read_u16(b, 18),
                yresolution: read_u16(b, 20),
                bitsperpixel: b[25],
                physbaseptr: read_u32(b, 40),
            },
        )
    }
}

/// The size of a VBE mode information block.
pub const VBE_MODE_INFO_SIZE: usize = 256;

/// The mode that the VBE mode information `info` describes for mode `id`,
/// or `None` when it is not a 32-bit mode with a width divisible by 4.
pub open spec fn spec_vbe_mode(id: u16, info: Seq<u8>) -> Option<OsVideoMode> {
    let width = le_u16(info, 18) as u32;
    if info[25] != 32 || width % 4 != 0 {
        None
    } else {
        Some(OsVideoMode {
            id: id as u32,
            width,
            height: le_u16(info, 20) as u32,
            stride: (le_u16(info, 16) / 4) as u32,
            base: le_u32(info, 40) as u64,
        })
    }
}

/// Decodes the mode information block of mode `id`.
pub fn vbe_mode(id: u16, info: &[u8]) -> (r: Result<Option<OsVideoMode>, FirmwareError>)
    ensures
        info@.len() < 44 ==> r == Err::<Option<OsVideoMode>, FirmwareError>(FirmwareError::Truncated),
        info@.len() >= 44 ==> r == Ok::<Option<OsVideoMode>, FirmwareError>(spec_vbe_mode(id, info@)),
{
    let m = match VbeModeInfo::from_bytes(info) {
        Some(m) => m,
        None => {
            return Err(FirmwareError::Truncated);
        },
    };
    let width = m.xresolution as u32;
    if m.bitsperpixel != 32 || width % 4 != 0 {
        return Ok(None);
    }
    Ok(
        Some(
            OsVideoMode {
                id: id as u32,
                width,
                height: m.yresolution as u32,
                stride: (m.bytesperscanline / 4) as u32,
                base: m.physbaseptr as u64,
            },
        ),
    )
}

/// A walk through the modes of a UEFI graphics output, by mode number.
pub struct VideoModeIter {
    i: u32,
    max_mode: u32,
}

impl VideoModeIter {
    /// The next mode number.
    pub closed spec fn spec_next(&self) -> u32 {
        self.i
    }

    /// The number of modes.
    pub closed spec fn spec_max_mode(&self) -> u32 {
        self.max_mode
    }

    /// A walk over modes `0..max_mode`.
    pub fn new(max_mode: u32) -> (r: VideoModeIter)
        ensures
            r.spec_next() == 0,
            r.spec_max_mode() == max_mode,
    {
        VideoModeIter { i: 0, max_mode }
    }

    /// The next mode number to query, or `None` after the last.
    pub fn next_id(&mut self) -> (r: Option<u32>)
        ensures
            final(self).spec_max_mode() == old(self).spec_max_mode(),
            old(self).spec_next() < old(self).spec_max_mode() ==> r == Some(old(self).spec_next())
                && final(self).spec_next() == old(self).spec_next() + 1,
            old(self).spec_next() >= old(self).spec_max_mode() ==> r is None && final(self).spec_next() == old(self).spec_next(),
    {
        if self.i < self.max_mode {
            let id = self.i;
            self.i = self.i + 1;
            Some(id)
        } else {
            None
        }
    }

    /// The mode that a query of mode `id` reported; its framebuffer base is
    /// known only once the mode is set.
    pub fn mode(id: u32, width: u32, height: u32, stride: u32) -> (r: OsVideoMode)
        ensures
            r == (OsVideoMode { id, width, height, stride, base: 0 }),
    {
        OsVideoMode { id, width, height, stride, base: 0 }
    }
}

/// The preferred resolution that an EDID block gives in its first detailed timing.
pub open spec fn spec_edid_resolution(edid: Seq<u8>) -> (u32, u32) {
    (
        (edid[0x38] as u32) | (((edid[0x3A] as u32) & 0xF0) << 4),
        (edid[0x3B] as u32) | (((edid[0x3D] as u32) & 0xF0) << 4),
    )
}

/// The preferred resolution of an EDID block, or `None` when it is too short.
pub fn edid_resolution(edid: &[u8]) -> (r: Option<(u32, u32)>)
    ensures
        edid@.len() <= 0x3D ==> r is None,
        edid@.len() > 0x3D ==> r == Some(spec_edid_resolution(edid@)),
{
    if edid.len() <= 0x3D {
        return None;
    }
    Some(
        (
            (edid[0x38] as u32) | (((edid[0x3A] as u32) & 0xF0) << 4),
            (edid[0x3B] as u32) | (((edid[0x3D] as u32) & 0xF0) << 4),
        ),
    )
}

/// The key that a BIOS keyboard call returned in `eax`: the scan code in
/// AH names the special keys, else AL holds the character.
pub open spec fn spec_bios_key(eax: u32) -> OsKey {
    let scan = (eax >> 8) as u8;
    let ascii = eax as u8;
    if scan == 0x4B {
        OsKey::Left
    } else if scan == 0x4D {
        OsKey::Right
    } else if scan == 0x48 {
        OsKey::Up
    } else if scan == 0x50 {
        OsKey::Down
    } else if scan == 0x0E {
        OsKey::Backspace
    } else if scan == 0x53 {
        OsKey::Delete
    } else if scan == 0x1C {
        OsKey::Enter
    } else if ascii == 0 {
        OsKey::Other
    } else {
        OsKey::Char(ascii as char)
    }
}

/// Decodes a BIOS keystroke.
pub fn bios_key(eax: u32) -> (r: OsKey)
    ensures
        r == spec_bios_key(eax),
{
    let scan = (eax >> 8) as u8;
    let ascii = eax as u8;
    if scan == 0x4B {
        OsKey::Left
    } else if scan == 0x4D {
        OsKey::Right
    } else if scan == 0x48 {
        OsKey::Up
    } else if scan == 0x50 {
        OsKey::Down
    } else if scan == 0x0E {
        OsKey::Backspace
    } else if scan == 0x53 {
        OsKey::Delete
    } else if scan == 0x1C {
        OsKey::Enter
    } else if ascii == 0 {
        OsKey::Other
    } else {
        OsKey::Char(ascii as char)
    }
}

/// The code points that are characters.
pub open spec fn is_char_code(w: u32) -> bool {
    w < 0xD800 || (0xE000 <= w && w <= 0x10FFFF)
}

/// Relies on `char::from_u32`: `Some` exactly for the code points that are
/// characters, holding the character with that code.
#[verifier::external_body]
fn char_from_u32(w: u32) -> (r: Option<char>)
    ensures
        r is Some <==> is_char_code(w),
        r matches Some(c) ==> c as u32 == w,
{
    char::from_u32(w)
}

/// Decodes a UEFI keystroke: a scan code names the special keys, and with
/// no scan code the character is the key.
pub fn efi_key(scan: u16, unicode: u16) -> (r: OsKey)
    ensures
        scan == 0 && unicode == 8 ==> r == OsKey::Backspace,
        scan == 0 && unicode == 13 ==> r == OsKey::Enter,
        scan == 0 && unicode != 8 && unicode != 13 && is_char_code(unicode as u32) ==> (r matches OsKey::Char(c) && c as u32 == unicode as u32),
        scan == 0 && unicode != 8 && unicode != 13 && !is_char_code(unicode as u32) ==> r == OsKey::Other,
        scan == 1 ==> r == OsKey::Up,
        scan == 2 ==> r == OsKey::Down,
        scan == 3 ==> r == OsKey::Right,
        scan == 4 ==> r == OsKey::Left,
        scan == 8 ==> r == OsKey::Delete,
        scan != 0 && scan != 1 && scan != 2 && scan != 3 && scan != 4 && scan != 8 ==> r == OsKey::Other,
{
    if scan == 0 {
        if unicode == 8 {
            OsKey::Backspace
        } else if unicode == 13 {
            OsKey::Enter
        } else {
            match char_from_u32(unicode as u32) {
                Some(c) => OsKey::Char(c),
                None => OsKey::Other,
            }
        }
    } else if scan == 1 {
        OsKey::Up
    } else if scan == 2 {
        OsKey::Down
    } else if scan == 3 {
        OsKey::Right
    } else if scan == 4 {
        OsKey::Left
    } else if scan == 8 {
        OsKey::Delete
    } else {
        OsKey::Other
    }
}

/// The text mode chosen among `modes` (columns and rows, `None` where the
/// firmware could not report a mode): the last one that is at least as
/// wide and as tall as every reported mode before it that was chosen.
pub open spec fn spec_max_text_mode(modes: Seq<Option<(usize, usize)>>) -> Option<(usize, usize, usize)>
    decreases modes.len(),
{
    if modes.len() == 0 {
        None
    } else {
        let prev = spec_max_text_mode(modes.drop_last());
        let (mw, mh): (usize, usize) = match prev {
            Some((_, w, h)) => (w, h),
            None => (0, 0),
        };
        match modes.last() {
            Some((w, h)) => if w >= mw && h >= mh {
                Some(((modes.len() - 1) as usize, w, h))
            } else {
                prev
            },
            None => prev,
        }
    }
}

/// Chooses the largest text mode: the result is its index, columns and rows.
pub fn max_text_mode(modes: &Vec<Option<(usize, usize)>>) -> (r: Option<(usize, usize, usize)>)
    ensures
        r == spec_max_text_mode(modes@),
{
    let mut best: Option<(usize, usize, usize)> = None;
    let mut mw: usize = 0;
    let mut mh: usize = 0;
    let mut i: usize = 0;
    while i < modes.len()
        invariant
            i <= modes@.len(),
            best == spec_max_text_mode(modes@.take(i as int)),
            best matches Some((_, w, h)) ==> mw == w && mh == h,
            best is None ==> mw == 0 && mh == 0,
        decreases modes@.len() - i,
    {
        proof {
            assert(modes@.take(i + 1).drop_last() =~= modes@.take(i as int));
        }
        if let Some((w, h)) = modes[i] {
            if w >= mw && h >= mh {
                best = Some((i, w, h));
                mw = w;
                mh = h;
            }
        }
        i = i + 1;
    }
    assert(modes@.take(modes@.len() as int) =~= modes@);
    best
}

/// Output `i` is kept: it has a framebuffer, and no earlier output has the same one.
pub open spec fn output_kept(bases: Seq<u64>, i: int) -> bool {
    bases[i] != 0 && forall|j: int| 0 <= j < i ==> bases[j] != bases[i]
}

/// The graphics outputs to use, given each one's framebuffer base: those
/// with a framebuffer, each framebuffer once, in order.
pub fn distinct_outputs(bases: &Vec<u64>) -> (r: Vec<usize>)
    ensures
        r@ == Seq::new(bases@.len(), |i: int| i as usize).filter(|i: usize| output_kept(bases@, i as int)),
{
    let ghost all = Seq::new(bases@.len(), |i: int| i as usize);
    let mut r: Vec<usize> = Vec::new();
    let mut i: usize = 0;
    while i < bases.len()
        invariant
            i <= bases@.len(),
            all == Seq::new(bases@.len(), |i: int| i as usize),
            r@ == all.take(i as int).filter(|k: usize| output_kept(bases@, k as int)),
        decreases bases@.len() - i,
    {
        proof {
            reveal(Seq::filter);
            assert(all.take(i + 1).drop_last() =~= all.take(i as int));
            assert(all.take(i + 1).last() == i);
        }
        let b = bases[i];
        let mut dup = false;
        let mut j: usize = 0;
        while j < i
            invariant
                j <= i,
                i < bases@.len(),
                b == bases@[i as int],
                dup <==> exists|k: int| 0 <= k < j && bases@[k] == b,
            decreases i - j,
        {
            if bases[j] == b {
                dup = true;
            }
            j = j + 1;
        }
        if b != 0 && !dup {
            r.push(i);
        }
        i = i + 1;
    }
    proof {
        assert(all.take(bases@.len() as int) =~= all);
    }
    r
}

/// The preferred resolution of a UEFI output: its EDID block's, when it
/// has one long enough, else the mode it is in.
pub fn efi_best_resolution(edid: Option<&[u8]>, current: (u32, u32)) -> (r: (u32, u32))
    ensures
        r == match edid {
            Some(e) => if e@.len() > 0x3D { spec_edid_resolution(e@) } else { current },
            None => current,
        },
{
    match edid {
        Some(e) => match edid_resolution(e) {
            Some(res) => res,
            None => current,
        },
        None => current,
    }
}

} // verus!
