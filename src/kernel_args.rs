//! The record handed to the kernel at entry.

use vstd::prelude::*;

use crate::area::AREA_CAPACITY;

verus! {

/// The size of one area table entry as the kernel reads it: base, size and kind.
pub const AREA_ENTRY_SIZE: u64 = 24;

/// Physical bounds of everything the kernel receives.
#[derive(Clone, Copy, Debug, PartialEq, Eq, Structural)]
pub struct KernelArgs {
    pub kernel_base: u64,
    pub kernel_size: u64,
    pub stack_base: u64,
    pub stack_size: u64,
    pub env_base: u64,
    pub env_size: u64,
    /// The staged hardware descriptor, or zero when none was found.
    pub acpi_rsdp_base: u64,
    pub acpi_rsdp_size: u64,
    pub areas_base: u64,
    pub areas_size: u64,
    pub bootstrap_base: u64,
    pub bootstrap_size: u64,
}

/// The bytes of an area table of `AREA_CAPACITY` entries.
pub fn areas_size() -> (r: u64)
    ensures
        r == AREA_CAPACITY * AREA_ENTRY_SIZE,
        r % AREA_ENTRY_SIZE == 0,
{
    AREA_CAPACITY as u64 * AREA_ENTRY_SIZE
}

/// The stack pointer the kernel starts with: the top of its stack, seen
/// through the higher-half mirror at `phys_offset`.
pub fn kernel_stack_top(stack_base: u64, stack_size: u64, phys_offset: u64) -> (r: u64)
    requires
        stack_base + stack_size + phys_offset <= u64::MAX,
    ensures
        r == stack_base + stack_size + phys_offset,
{
    stack_base + stack_size + phys_offset
}

} // verus!
