//! The firmware's hardware descriptor: a flattened device tree, its device
//! memory ranges, and the choice among ACPI tables.

use vstd::prelude::*;

use crate::image::be_u32;

verus! {

/// The magic number of a flattened device tree.
pub const FDT_MAGIC: u32 = 0xd00dfeed;

/// The size of a flattened device tree's header.
pub const FDT_HEADER_SIZE: usize = 40;

/// `data` starts with a device-tree header that `fdt` accepts: a whole
/// header, the magic number, and at least `totalsize` bytes.
pub open spec fn fdt_accepts(data: Seq<u8>) -> bool {
    data.len() >= FDT_HEADER_SIZE && be_u32(data, 0) == FDT_MAGIC && data.len() >= be_u32(data, 4)
}

/// Relies on `fdt::Fdt::new`, which reads the ten big-endian header words,
/// checks the magic and that `data` holds `totalsize` bytes, and on
/// `Fdt::total_size`, which returns the header's `totalsize`.
#[verifier::external_body]
fn fdt_total_size(data: &[u8]) -> (r: Option<usize>)
    ensures
        r is Some <==> fdt_accepts(data@),
        r matches Some(n) ==> n == be_u32(data@, 4),
{
    fdt::Fdt::new(data).ok().map(|f| f.total_size())
}

/// The size of the device tree at the start of `data`, which is the size
/// to stage and to report, or `None` when `data` holds no device tree.
pub fn dtb_size(data: &[u8]) -> (r: Option<usize>)
    ensures
        r is Some <==> fdt_accepts(data@),
        r matches Some(n) ==> n == be_u32(data@, 4) && n <= data@.len(),
{
    fdt_total_size(data)
}

/// `addr` lies in one of the device memory regions `regions`, given as base and size.
pub open spec fn in_regions(regions: Seq<(u64, u64)>, addr: u64) -> bool {
    exists|i: int| 0 <= i < regions.len() && regions[i].0 <= addr && addr < regions[i].0 + regions[i].1
}

/// Whether `addr` lies in a device memory region.
pub fn is_in_dev_mem_region(regions: &[(u64, u64)], addr: u64) -> (r: bool)
    ensures
        r == in_regions(regions@, addr),
{
    let mut i: usize = 0;
    while i < regions.len()
        invariant
            i <= regions@.len(),
            forall|j: int| 0 <= j < i ==> !(regions@[j].0 <= addr && addr < regions@[j].0 + regions@[j].1),
        decreases regions@.len() - i,
    {
        let (base, size) = regions[i];
        if base <= addr && (addr - base) < size {
            return true;
        }
        i = i + 1;
    }
    false
}

/// The ACPI table to stage: the ACPI 2.0 one when valid, else the 1.0 one.
pub fn choose_rsdp(acpi1: Option<(u64, usize)>, acpi2: Option<(u64, usize)>) -> (r: Option<(u64, usize)>)
    ensures
        r == (if acpi2 is Some { acpi2 } else { acpi1 }),
{
    match acpi2 {
        Some(a) => Some(a),
        None => acpi1,
    }
}

} // verus!
