//! Block reads from the boot disk: the BIOS disk address packet, CHS
//! geometry, the split of a read into transfers, and reads served from an
//! in-memory copy of the filesystem.
//!
//! The filesystem's blocks are `BLOCK_SIZE` bytes; BIOS sectors are
//! `SECTOR_SIZE` bytes.

use vstd::prelude::*;

use crate::thunk::ThunkData;

verus! {

pub const BLOCK_SIZE: u64 = 4096;
pub const SECTOR_SIZE: u64 = 512;
/// Sectors in a block.
pub const SECTORS_PER_BLOCK: u64 = 8;
/// The most sectors that one BIOS transfer may move.
pub const MAX_SECTORS: u64 = 127;
/// The most blocks that one BIOS transfer moves.
pub const MAX_BLOCKS: u64 = 15;
/// The real-mode buffer that BIOS transfers land in.
pub const DISK_BIOS_ADDR: u64 = 0x70000;
/// Where the disk address packet is placed.
pub const DISK_ADDRESS_PACKET_ADDR: u64 = 0x1398;

/// Why a disk operation failed.
#[derive(Clone, Copy, Debug, PartialEq, Eq, Structural)]
pub enum DiskError {
    /// The BIOS reported an error in AH.
    Bios(u8),
    /// The sector lies beyond what CHS addressing can reach.
    OutOfGeometry,
    /// The caller's buffer is misaligned and larger than the bounce buffer.
    Misaligned,
}

/// The packet of an extended (LBA) read.
#[derive(Clone, Copy, Debug, PartialEq, Eq, Structural)]
pub struct DiskAddressPacket {
    pub size: u8,
    pub reserved: u8,
    pub sectors: u16,
    pub buffer: u16,
    pub segment: u16,
    pub address: u64,
}

impl DiskAddressPacket {
    /// The packet that reads `count` blocks from block `block` into the
    /// real-mode disk buffer.
    pub fn from_block(block: u64, count: u64) -> (r: DiskAddressPacket)
        requires
            count <= MAX_BLOCKS,
            block <= u64::MAX / 8,
        ensures
            r == (DiskAddressPacket {
                size: 16,
                reserved: 0,
                sectors: (count * 8) as u16,
                buffer: 0,
                segment: 0x7000,
                address: (block * 8) as u64,
            }),
    {
        assert(DISK_BIOS_ADDR & 0xF == 0 && DISK_BIOS_ADDR >> 4 == 0x7000) by (bit_vector);
        DiskAddressPacket {
            size: 16,
            reserved: 0,
            sectors: (count * SECTORS_PER_BLOCK) as u16,
            buffer: (DISK_BIOS_ADDR & 0xF) as u16,
            segment: (DISK_BIOS_ADDR >> 4) as u16,
            address: block * SECTORS_PER_BLOCK,
        }
    }
}

/// The high byte of the low word of `eax`: the BIOS status.
pub open spec fn status_of(eax: u32) -> u8 {
    ((eax >> 8) & 0xff) as u8
}

/// The BIOS status in a returned frame.
pub fn bios_status(data: &ThunkData) -> (r: u8)
    ensures
        r == status_of(data.eax),
{
    ((data.eax >> 8) & 0xff) as u8
}

/// The frame that asks whether the disk supports extended reads.
pub fn ext_probe_frame(boot_disk: u8) -> (r: ThunkData)
    ensures
        r == (ThunkData { es: 0, edi: 0, esi: 0, ebp: 0, ebx: 0x55AA, edx: boot_disk as u32, ecx: 0, eax: 0x4100 }),
{
    let mut d = ThunkData::new();
    d.eax = 0x4100;
    d.ebx = 0x55AA;
    d.edx = boot_disk as u32;
    d
}

/// Whether the returned probe frame reports extended reads.
pub fn ext_present(data: &ThunkData) -> (r: bool)
    ensures
        r == (data.ebx & 0xFFFF == 0xAA55),
{
    data.ebx & 0xFFFF == 0xAA55
}

/// The frame that asks for the disk's geometry.
pub fn geometry_frame(boot_disk: u8) -> (r: ThunkData)
    ensures
        r == (ThunkData { es: 0, edi: 0, esi: 0, ebp: 0, ebx: 0, edx: boot_disk as u32, ecx: 0, eax: 0x0800 }),
{
    let mut d = ThunkData::new();
    d.eax = 0x0800;
    d.edx = boot_disk as u32;
    d
}

/// The cylinders, heads and sectors per track that a returned geometry frame reports.
pub open spec fn spec_geometry(data: ThunkData) -> (u32, u32, u32) {
    (
        ((data.ecx >> 8) & 0xFF) | (((data.ecx >> 6) & 0x3) << 8),
        (((data.edx >> 8) & 0xFF) + 1) as u32,
        data.ecx & 0x3F,
    )
}

/// Decodes a returned geometry frame, or the BIOS error it reports.
pub fn geometry_from(data: &ThunkData) -> (r: Result<(u32, u32, u32), DiskError>)
    ensures
        status_of(data.eax) != 0 ==> r == Err::<(u32, u32, u32), DiskError>(DiskError::Bios(status_of(data.eax))),
        status_of(data.eax) == 0 ==> r == Ok::<(u32, u32, u32), DiskError>(spec_geometry(*data)),
{
    let ah = bios_status(data);
    if ah != 0 {
        return Err(DiskError::Bios(ah));
    }
    let c = ((data.ecx >> 8) & 0xFF) | (((data.ecx >> 6) & 0x3) << 8);
    let e = data.edx;
    assert((e >> 8) & 0xFF <= 0xFF) by (bit_vector);
    let h = ((data.edx >> 8) & 0xFF) + 1;
    let s = data.ecx & 0x3F;
    Ok((c, h, s))
}

/// The cylinder, head and sector (from 1) of sector `lba`, or `None` when
/// they exceed what a CHS read can address.
pub open spec fn spec_chs(lba: u64, heads: u32, sectors: u32) -> Option<(u64, u64, u64)> {
    let s = (lba as int) % (sectors as int) + 1;
    let tmp = (lba as int) / (sectors as int);
    let h = tmp % (heads as int);
    let c = tmp / (heads as int);
    if s <= 63 && h <= 255 && c <= 1023 {
        Some((c as u64, h as u64, s as u64))
    } else {
        None
    }
}

/// The frame of a CHS read of the transfer `dap` from `boot_disk`, with a
/// geometry of `heads` heads and `sectors` sectors per track.
pub fn chs_read_frame(boot_disk: u8, dap: &DiskAddressPacket, heads: u32, sectors: u32) -> (r: Result<
    ThunkData,
    DiskError,
>)
    requires
        heads > 0,
        sectors > 0,
        dap.sectors <= MAX_SECTORS,
    ensures
        spec_chs(dap.address, heads, sectors) is None ==> r == Err::<ThunkData, DiskError>(DiskError::OutOfGeometry),
        spec_chs(dap.address, heads, sectors) matches Some((c, h, s)) ==> r == Ok::<ThunkData, DiskError>(
            ThunkData {
                es: dap.segment,
                edi: 0,
                esi: 0,
                ebp: 0,
                ebx: dap.buffer as u32,
                edx: (boot_disk as u32) | ((h as u32) << 8),
                ecx: (s as u32) | (((c as u32) & 0xFF) << 8) | ((((c as u32) >> 8) & 0x3) << 6),
                eax: 0x0200 | (dap.sectors as u32),
            },
        ),
{
    let s = dap.address % (sectors as u64) + 1;
    let tmp = dap.address / (sectors as u64);
    let h = tmp % (heads as u64);
    let c = tmp / (heads as u64);
    if s > 63 || h > 255 || c > 1023 {
        return Err(DiskError::OutOfGeometry);
    }
    let mut d = ThunkData::new();
    d.eax = 0x0200 | (dap.sectors as u32);
    d.ebx = dap.buffer as u32;
    d.ecx = (s as u32) | (((c as u32) & 0xFF) << 8) | ((((c as u32) >> 8) & 0x3) << 6);
    d.edx = (boot_disk as u32) | ((h as u32) << 8);
    d.es = dap.segment;
    Ok(d)
}

/// The frame of an extended read from `boot_disk` of the packet placed at
/// `DISK_ADDRESS_PACKET_ADDR`.
pub fn lba_read_frame(boot_disk: u8) -> (r: ThunkData)
    ensures
        r == (ThunkData {
            es: 0,
            edi: 0,
            esi: DISK_ADDRESS_PACKET_ADDR as u32,
            ebp: 0,
            ebx: 0,
            edx: boot_disk as u32,
            ecx: 0,
            eax: 0x4200,
        }),
{
    let mut d = ThunkData::new();
    d.eax = 0x4200;
    d.edx = boot_disk as u32;
    d.esi = DISK_ADDRESS_PACKET_ADDR as u32;
    d
}

/// The transfer that moves chunk `i` of a read of `len` bytes from block
/// `block`: chunks are `MAX_BLOCKS` blocks long, the last one shorter.
pub open spec fn spec_transfer(block: u64, len: nat, i: nat) -> (u64, u64) {
    let chunk: int = (MAX_BLOCKS * BLOCK_SIZE) as int;
    let rest: int = len - i * chunk;
    let bytes: int = if rest < chunk { rest } else { chunk };
    ((block + i * MAX_BLOCKS) as u64, (bytes / (BLOCK_SIZE as int)) as u64)
}

/// The number of transfers that a read of `len` bytes takes.
pub open spec fn spec_transfers(len: nat) -> nat {
    ((len as int + (MAX_BLOCKS * BLOCK_SIZE) as int - 1) / ((MAX_BLOCKS * BLOCK_SIZE) as int)) as nat
}

/// The transfers, as first block and block count, that read `len` bytes
/// from block `block`.
pub fn read_plan(block: u64, len: u64) -> (r: Vec<(u64, u64)>)
    requires
        block + len / BLOCK_SIZE + MAX_BLOCKS <= u64::MAX / 8,
        len + MAX_BLOCKS * BLOCK_SIZE <= u64::MAX,
    ensures
        r@.len() == spec_transfers(len as nat),
        forall|i: int| 0 <= i < r@.len() ==> #[trigger] r@[i] == spec_transfer(block, len as nat, i as nat),
        forall|i: int| 0 <= i < r@.len() ==> r@[i].1 <= MAX_BLOCKS,
{
    let chunk: u64 = MAX_BLOCKS * BLOCK_SIZE;
    let n = (len + chunk - 1) / chunk;
    let mut r: Vec<(u64, u64)> = Vec::new();
    let mut i: u64 = 0;
    while i < n
        invariant
            chunk == MAX_BLOCKS * BLOCK_SIZE,
            n == spec_transfers(len as nat),
            i <= n,
            r@.len() == i,
            block + len / BLOCK_SIZE + MAX_BLOCKS <= u64::MAX / 8,
            len + MAX_BLOCKS * BLOCK_SIZE <= u64::MAX,
            forall|j: int| 0 <= j < i ==> #[trigger] r@[j] == spec_transfer(block, len as nat, j as nat),
            forall|j: int| 0 <= j < i ==> r@[j].1 <= MAX_BLOCKS,
        decreases n - i,
    {
        proof {
            let (ii, nn, cc, ll) = (i as int, n as int, chunk as int, len as int);
            assert(ii * cc < ll) by (nonlinear_arith)
                requires
                    ii < nn,
                    nn == (ll + cc - 1) / cc,
                    cc > 0;
            assert(ii * 15 <= ll / 4096) by (nonlinear_arith)
                requires
                    ii * cc < ll,
                    cc == 15 * 4096;
        }
        let rest = len - i * chunk;
        let bytes = if rest < chunk { rest } else { chunk };
        r.push((block + i * MAX_BLOCKS, bytes / BLOCK_SIZE));
        i = i + 1;
    }
    r
}

/// The bytes of an in-memory filesystem copy, starting at block
/// `live_block` and `live_len` bytes long, that a read of `len` bytes from
/// block `block` covers: `None` when the read is not wholly inside the copy.
pub open spec fn spec_live_range(block: u64, len: nat, live_block: u64, live_len: nat) -> Option<(nat, nat)> {
    if block >= live_block && (block - live_block) * BLOCK_SIZE + len <= live_len {
        Some((((block - live_block) * BLOCK_SIZE) as nat, ((block - live_block) * BLOCK_SIZE + len) as nat))
    } else {
        None
    }
}

/// The byte range of the in-memory copy that serves a read, if it can.
pub fn live_range(block: u64, len: usize, live_block: u64, live_len: usize) -> (r: Option<(usize, usize)>)
    ensures
        r matches Some((s, e)) ==> spec_live_range(block, len as nat, live_block, live_len as nat) == Some((s as nat, e as nat)),
        r is None ==> spec_live_range(block, len as nat, live_block, live_len as nat) is None,
{
    if block < live_block {
        return None;
    }
    let off = block - live_block;
    if off > (live_len as u64) / BLOCK_SIZE {
        return None;
    }
    let start = off * BLOCK_SIZE;
    if start > live_len as u64 || (live_len as u64) - start < len as u64 {
        return None;
    }
    Some((start as usize, start as usize + len))
}

/// The block of the device that holds filesystem block `block`, for a
/// device with blocks of `device_block` bytes.
pub fn device_lba(block: u64, device_block: u32) -> (r: u64)
    requires
        device_block > 0,
        block * BLOCK_SIZE <= u64::MAX,
    ensures
        r == (block * BLOCK_SIZE) as int / (device_block as int),
{
    block * BLOCK_SIZE / device_block as u64
}

/// Whether a read into a buffer at `addr` of `len` bytes must go through
/// the aligned bounce buffer of `bounce_len` bytes, for a device that asks
/// for alignment `io_align` (zero for none); misaligned buffers larger than
/// the bounce buffer cannot be read.
pub fn needs_bounce(addr: u64, len: usize, io_align: u32, bounce_len: usize) -> (r: Result<bool, DiskError>)
    ensures
        io_align == 0 || addr % (io_align as u64) == 0 ==> r == Ok::<bool, DiskError>(false),
        io_align != 0 && addr % (io_align as u64) != 0 && len <= bounce_len ==> r == Ok::<bool, DiskError>(true),
        io_align != 0 && addr % (io_align as u64) != 0 && len > bounce_len ==> r == Err::<bool, DiskError>(DiskError::Misaligned),
{
    if io_align == 0 || addr % (io_align as u64) == 0 {
        Ok(false)
    } else if len <= bounce_len {
        Ok(true)
    } else {
        Err(DiskError::Misaligned)
    }
}

/// A UEFI block device: its block size, the alignment its transfers need
/// (zero for none), and the size of the aligned bounce buffer kept for it.
#[derive(Clone, Copy, Debug, PartialEq, Eq, Structural)]
pub struct DiskEfi {
    pub block_size: u32,
    pub io_align: u32,
    pub bounce_len: usize,
}

impl DiskEfi {
    /// The device block at which a read of filesystem block `block` into a
    /// buffer at `addr` of `len` bytes starts, and whether it goes through
    /// the bounce buffer.
    pub fn read_request(&self, block: u64, addr: u64, len: usize) -> (r: Result<(u64, bool), DiskError>)
        requires
            self.block_size > 0,
            block * BLOCK_SIZE <= u64::MAX,
        ensures
            r matches Ok((lba, _)) ==> lba == (block * BLOCK_SIZE) as int / (self.block_size as int),
            self.io_align == 0 || addr % (self.io_align as u64) == 0 ==> (r matches Ok((_, b)) && !b),
            self.io_align != 0 && addr % (self.io_align as u64) != 0 && len <= self.bounce_len ==> (r matches Ok((_, b)) && b),
            self.io_align != 0 && addr % (self.io_align as u64) != 0 && len > self.bounce_len ==> r == Err::<(u64, bool), DiskError>(DiskError::Misaligned),
    {
        let bounce = match needs_bounce(addr, len, self.io_align, self.bounce_len) {
            Ok(b) => b,
            Err(e) => {
                return Err(e);
            },
        };
        Ok((device_lba(block, self.block_size), bounce))
    }
}

/// The disk that the BIOS booted from, with its CHS geometry when it lacks
/// extended reads.
pub struct DiskBios {
    pub boot_disk: u8,
    pub chs: Option<(u32, u32, u32)>,
}

impl DiskBios {
    /// The boot disk `boot_disk`, read with CHS addressing when `chs` gives
    /// its geometry and with extended reads otherwise.
    pub fn new(boot_disk: u8, chs: Option<(u32, u32, u32)>) -> (r: DiskBios)
        ensures
            r.boot_disk == boot_disk,
            r.chs == chs,
    {
        DiskBios { boot_disk, chs }
    }
}

} // verus!
