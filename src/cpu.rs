//! The values written to translation and system control registers when
//! the new page tables are switched on.

use vstd::prelude::*;

verus! {

/// The Sv48 translation mode of `satp`.
pub const SATP_MODE_SV48: u64 = 9;

/// AArch64 memory attributes: index 0 normal write-back, index 1 normal
/// non-cacheable, index 2 device nGnRnE.
pub const MAIR_EL1: u64 = 0x0000_0000_0000_44FF;

/// AArch64 translation control before the physical address size is inserted.
pub const TCR_EL1_BASE: u64 = 0x10_8510_0510;

/// SCTLR_EL1 bits cleared: EE, EOE, IESB, WXN, UMA, ITD, THEE, A.
pub const SCTLR_CLEAR: u64 = 0x0328_02c2;

/// SCTLR_EL1 bits set: LSMAOE, nTLSMD, UCI, SPAN, nTWW, nTWI, UCT, DZE, I,
/// SED, SA0, SA, C, M, CP15BEN.
pub const SCTLR_SET: u64 = 0x3485_d13d;

/// The RISC-V `satp` value that selects Sv48 translation rooted at `root`.
pub fn satp_value(root: u64) -> (r: u64)
    requires
        root < 0x100_0000_0000_0000,
    ensures
        r == (root >> 12u64) | (SATP_MODE_SV48 << 60u64),
        r >> 60u64 == SATP_MODE_SV48,
        r & 0xFFF_FFFF_FFFF == root >> 12u64,
{
    let r = (root >> 12) | (SATP_MODE_SV48 << 60);
    assert(r >> 60u64 == 9 && r & 0xFFF_FFFF_FFFF == root >> 12u64) by (bit_vector)
        requires
            root < 0x100_0000_0000_0000,
            r == (root >> 12u64) | (9u64 << 60u64),
    ;
    r
}

/// The AArch64 `TCR_EL1` value: the base value with the physical address
/// range field of `ID_AA64MMFR0_EL1` (its low three bits) inserted at bit 32.
pub fn tcr_value(mmfr0: u64) -> (r: u64)
    ensures
        r == (TCR_EL1_BASE & !(7u64 << 32u64)) | ((mmfr0 & 7) << 32u64),
        (r >> 32u64) & 7 == mmfr0 & 7,
        r & 0xFFFF_FFFF == TCR_EL1_BASE & 0xFFFF_FFFF,
{
    let r = (TCR_EL1_BASE & !(7u64 << 32)) | ((mmfr0 & 7) << 32);
    assert((r >> 32u64) & 7 == mmfr0 & 7 && r & 0xFFFF_FFFF == 0x10_8510_0510u64 & 0xFFFF_FFFF) by (bit_vector)
        requires
            r == (0x10_8510_0510u64 & !(7u64 << 32u64)) | ((mmfr0 & 7) << 32u64),
    ;
    r
}

/// `SCTLR_EL1` with the MMU enable bit cleared.
pub fn sctlr_mmu_off(sctlr: u64) -> (r: u64)
    ensures
        r == sctlr & !1u64,
        r & 1 == 0,
{
    let r = sctlr & !1u64;
    assert(r & 1 == 0) by (bit_vector)
        requires
            r == sctlr & !1u64,
    ;
    r
}

/// `SCTLR_EL1` for running the kernel: the cleared bits off, the set bits on.
pub fn sctlr_value(sctlr: u64) -> (r: u64)
    ensures
        r == (sctlr & !SCTLR_CLEAR) | SCTLR_SET,
        r & SCTLR_SET == SCTLR_SET,
        r & SCTLR_CLEAR == 0,
        r & !(SCTLR_CLEAR | SCTLR_SET) == sctlr & !(SCTLR_CLEAR | SCTLR_SET),
{
    let r = (sctlr & !SCTLR_CLEAR) | SCTLR_SET;
    assert(r & 0x3485_d13d == 0x3485_d13d && r & 0x0328_02c2 == 0 && r & !(0x0328_02c2u64 | 0x3485_d13du64) == sctlr
        & !(0x0328_02c2u64 | 0x3485_d13du64)) by (bit_vector)
        requires
            r == (sctlr & !0x0328_02c2u64) | 0x3485_d13du64,
    ;
    r
}

} // verus!
