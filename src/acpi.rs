//! Recognising the ACPI Root System Description Pointer.

use vstd::prelude::*;

use crate::thunk::le_u32;

verus! {

/// Why a candidate RSDP was rejected.
#[derive(Clone, Copy, Debug, PartialEq, Eq, Structural)]
pub enum RsdpError {
    /// Fewer bytes than the structure needs.
    Truncated,
    /// The signature is not "RSD PTR ".
    BadSignature,
    /// The first 20 bytes do not sum to zero.
    BadChecksum,
    /// The `length` bytes of a revision-2 structure do not sum to zero.
    BadExtendedChecksum,
}

/// The size of the revision-1 structure.
pub const RSDP_V1_SIZE: usize = 20;

/// The offset of the revision byte.
pub const RSDP_REVISION: usize = 15;

/// The offset of the 32-bit length of a revision-2 structure.
pub const RSDP_LENGTH: usize = 20;

/// "RSD PTR ".
pub open spec fn rsdp_signature() -> Seq<u8> {
    seq![0x52u8, 0x53u8, 0x44u8, 0x20u8, 0x50u8, 0x54u8, 0x52u8, 0x20u8]
}

/// The sum of the bytes of `s`.
pub open spec fn byte_sum(s: Seq<u8>) -> int
    decreases s.len(),
{
    if s.len() == 0 {
        0
    } else {
        byte_sum(s.drop_last()) + s.last()
    }
}

/// The bytes of `s` sum to zero modulo 256.
pub open spec fn sums_to_zero(s: Seq<u8>) -> bool {
    byte_sum(s) % 256 == 0
}

/// `b` carries the RSDP signature at `off`.
pub open spec fn signature_at(b: Seq<u8>, off: int) -> bool {
    off + 8 <= b.len() && b.subrange(off, off + 8) == rsdp_signature()
}

/// The outcome of validating the RSDP at the start of `b`: the number of
/// bytes it occupies.
pub open spec fn spec_validate_rsdp(b: Seq<u8>) -> Result<usize, RsdpError> {
    if b.len() < RSDP_V1_SIZE {
        Err(RsdpError::Truncated)
    } else if !signature_at(b, 0) {
        Err(RsdpError::BadSignature)
    } else if !sums_to_zero(b.subrange(0, 20)) {
        Err(RsdpError::BadChecksum)
    } else if b[RSDP_REVISION as int] == 2 {
        if b.len() < RSDP_LENGTH + 4 || b.len() < le_u32(b, RSDP_LENGTH as int) {
            Err(RsdpError::Truncated)
        } else if !sums_to_zero(b.subrange(0, le_u32(b, RSDP_LENGTH as int) as int)) {
            Err(RsdpError::BadExtendedChecksum)
        } else {
            Ok(le_u32(b, RSDP_LENGTH as int) as usize)
        }
    } else {
        Ok(RSDP_V1_SIZE)
    }
}

fn read_u32(b: &[u8], off: usize) -> (r: u32)
    requires
        off + 4 <= b@.len(),
    ensures
        r == le_u32(b@, off as int),
{
    (b[off] as u32) | ((b[off + 1] as u32) << 8) | ((b[off + 2] as u32) << 16) | ((b[off + 3] as u32) << 24)
}

/// Whether the first `n` bytes of `b` sum to zero modulo 256.
fn checksum_ok(b: &[u8], n: usize) -> (r: bool)
    requires
        n <= b@.len(),
        n <= u32::MAX,
    ensures
        r == sums_to_zero(b@.subrange(0, n as int)),
{
    let mut sum: u64 = 0;
    let mut i: usize = 0;
    while i < n
        invariant
            i <= n,
            n <= b@.len(),
            n <= u32::MAX,
            sum == byte_sum(b@.subrange(0, i as int)),
            sum <= 255 * i,
        decreases n - i,
    {
        proof {
            assert(b@.subrange(0, i + 1).drop_last() =~= b@.subrange(0, i as int));
        }
        sum = sum + b[i] as u64;
        i = i + 1;
    }
    sum % 256 == 0
}

/// Whether `b` carries the RSDP signature at `off`.
fn has_signature(b: &[u8], off: usize) -> (r: bool)
    ensures
        r == signature_at(b@, off as int),
{
    let n = b.len();
    if off > n || n - off < 8 {
        return false;
    }
    let sig: Vec<u8> = vec![0x52u8, 0x53, 0x44, 0x20, 0x50, 0x54, 0x52, 0x20];
    assert(sig@ =~= rsdp_signature());
    let mut i: usize = 0;
    while i < 8
        invariant
            i <= 8,
            n == b@.len(),
            off + 8 <= n,
            sig@ == rsdp_signature(),
            forall|j: int| 0 <= j < i ==> b@[off + j] == sig@[j],
        decreases 8 - i,
    {
        if b[off + i] != sig[i] {
            assert(b@.subrange(off as int, off + 8)[i as int] != rsdp_signature()[i as int]);
            return false;
        }
        i = i + 1;
    }
    assert(b@.subrange(off as int, off + 8) =~= rsdp_signature());
    true
}

/// Validates the RSDP at the start of `b`: its signature, the checksum of
/// its first 20 bytes and, for revision 2, the checksum of its `length`
/// bytes. Returns the number of bytes it occupies: `length` for revision 2,
/// 20 otherwise.
pub fn validate_rsdp(b: &[u8]) -> (r: Result<usize, RsdpError>)
    ensures
        r == spec_validate_rsdp(b@),
{
    if b.len() < RSDP_V1_SIZE {
        return Err(RsdpError::Truncated);
    }
    if !has_signature(b, 0) {
        return Err(RsdpError::BadSignature);
    }
    if !checksum_ok(b, RSDP_V1_SIZE) {
        return Err(RsdpError::BadChecksum);
    }
    if b[RSDP_REVISION] == 2 {
        if b.len() < RSDP_LENGTH + 4 {
            return Err(RsdpError::Truncated);
        }
        let length = read_u32(b, RSDP_LENGTH);
        if (b.len() as u64) < length as u64 {
            return Err(RsdpError::Truncated);
        }
        if !checksum_ok(b, length as usize) {
            return Err(RsdpError::BadExtendedChecksum);
        }
        Ok(length as usize)
    } else {
        Ok(RSDP_V1_SIZE)
    }
}

/// An RSDP that a scan of legacy BIOS memory accepts at offset `off` of `b`:
/// the signature, and revision 0 or revision 2 with its length field present.
pub open spec fn scan_hit(b: Seq<u8>, off: int) -> bool {
    &&& off + RSDP_V1_SIZE <= b.len()
    &&& signature_at(b, off)
    &&& (b[off + RSDP_REVISION] == 0 || (b[off + RSDP_REVISION] == 2 && off + RSDP_LENGTH + 4 <= b.len()))
}

/// The bytes that the RSDP found at offset `off` of `b` occupies.
pub open spec fn scan_size(b: Seq<u8>, off: int) -> u64 {
    if b[off + RSDP_REVISION] == 0 {
        RSDP_V1_SIZE as u64
    } else {
        le_u32(b, off + RSDP_LENGTH) as u64
    }
}

/// Offset `off` of a region that starts at physical address `base` is on a
/// 16-byte boundary.
pub open spec fn scan_aligned(base: u64, off: int) -> bool {
    (base + off) % 16 == 0
}

/// Scans the memory `mem`, which starts at physical address `base`, for an
/// RSDP on a 16-byte boundary, and returns the address and size of the first.
#[verifier::spinoff_prover]
pub fn search_rsdp(mem: &[u8], base: u64) -> (r: Option<(u64, u64)>)
    requires
        base + mem@.len() <= u64::MAX,
    ensures
        r is None ==> forall|off: int| 0 <= off < mem@.len() && #[trigger] scan_aligned(base, off) ==> !scan_hit(mem@, off),
        r matches Some((addr, size)) ==> {
            let off = addr - base;
            &&& base <= addr < base + mem@.len()
            &&& scan_aligned(base, off)
            &&& scan_hit(mem@, off)
            &&& size == scan_size(mem@, off)
            &&& forall|o: int| 0 <= o < off && #[trigger] scan_aligned(base, o) ==> !scan_hit(mem@, o)
        },
{
    let n = mem.len();
    let mut off: usize = ((16 - base % 16) % 16) as usize;
    proof {
        assert forall|o: int| 0 <= o < off && #[trigger] scan_aligned(base, o) implies !scan_hit(mem@, o) by {
            assert((base + o) % 16 != 0) by (nonlinear_arith)
                requires
                    0 <= o < (16 - base % 16) % 16;
        }
        assert(scan_aligned(base, off as int)) by (nonlinear_arith)
            requires
                off == (16 - base % 16) % 16;
    }
    while off < n
        invariant
            n == mem@.len(),
            base + n <= u64::MAX,
            scan_aligned(base, off as int),
            forall|o: int| 0 <= o < off && #[trigger] scan_aligned(base, o) ==> !scan_hit(mem@, o),
        decreases n - off,
    {
        if n - off >= RSDP_V1_SIZE && has_signature(mem, off) {
            let rev = mem[off + RSDP_REVISION];
            if rev == 0 {
                return Some((base + off as u64, RSDP_V1_SIZE as u64));
            }
            if rev == 2 && n - off >= RSDP_LENGTH + 4 {
                let length = read_u32(mem, off + RSDP_LENGTH);
                return Some((base + off as u64, length as u64));
            }
        }
        proof {
            assert forall|o: int| off < o < off + 16 implies !scan_aligned(base, o) by {
                assert((base + o) % 16 != 0) by (nonlinear_arith)
                    requires
                        (base + off) % 16 == 0,
                        off < o < off + 16;
            }
        }
        if n - off <= 16 {
            proof {
                assert forall|o: int| 0 <= o < n && #[trigger] scan_aligned(base, o) implies !scan_hit(mem@, o) by {
                    if o > off {
                        assert(!scan_aligned(base, o));
                    }
                }
            }
            return None;
        }
        off = off + 16;
        proof {
            assert(scan_aligned(base, off as int)) by (nonlinear_arith)
                requires
                    (base + (off - 16)) % 16 == 0;
        }
    }
    None
}

/// The fields of an RSDP that the loader reads.
#[derive(Clone, Copy, Debug, PartialEq, Eq, Structural)]
pub struct Rsdp {
    pub checksum: u8,
    pub revision: u8,
    pub rsdt_address: u32,
}

/// The fields of an ACPI 2.0 RSDP beyond the first 20 bytes.
#[derive(Clone, Copy, Debug, PartialEq, Eq, Structural)]
pub struct Xsdp {
    pub rsdp: Rsdp,
    pub length: u32,
    pub extended_checksum: u8,
}

impl Rsdp {
    /// The RSDP at the start of `b`, when `b` holds one with its signature.
    pub fn from_bytes(b: &[u8]) -> (r: Option<Rsdp>)
        ensures
            r is Some <==> b@.len() >= RSDP_V1_SIZE && signature_at(b@, 0),
            r matches Some(x) ==> x.checksum == b@[8] && x.revision == b@[15] && x.rsdt_address == le_u32(b@, 16),
    {
        if b.len() < RSDP_V1_SIZE || !has_signature(b, 0) {
            return None;
        }
        Some(Rsdp { checksum: b[8], revision: b[RSDP_REVISION], rsdt_address: read_u32(b, 16) })
    }
}

impl Xsdp {
    /// The ACPI 2.0 RSDP at the start of `b`, when `b` holds its 36 bytes and signature.
    pub fn from_bytes(b: &[u8]) -> (r: Option<Xsdp>)
        ensures
            r is Some <==> b@.len() >= 36 && signature_at(b@, 0),
            r matches Some(x) ==> x.rsdp.checksum == b@[8] && x.rsdp.revision == b@[15] && x.rsdp.rsdt_address
                == le_u32(b@, 16) && x.length == le_u32(b@, 20) && x.extended_checksum == b@[32],
    {
        if b.len() < 36 {
            return None;
        }
        match Rsdp::from_bytes(b) {
            Some(rsdp) => Some(Xsdp { rsdp, length: read_u32(b, RSDP_LENGTH), extended_checksum: b[32] }),
            None => None,
        }
    }
}

} // verus!
