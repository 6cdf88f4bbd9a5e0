//! The register frame exchanged with the real-mode BIOS stub.
//!
//! The stub pops the frame from a fixed slot below the thunk stack into the
//! CPU registers, runs the interrupt, and pushes the registers back. The
//! frame's image in that slot is packed: `es` as two bytes, then `edi`,
//! `esi`, `ebp`, `ebx`, `edx`, `ecx` and `eax` as four bytes each, all
//! little endian.

use vstd::prelude::*;

verus! {

/// The top of the stack that the real-mode stub runs on; it grows downwards.
pub const THUNK_STACK_ADDR: u64 = 0x7C00;

/// Where the frame's image is placed.
pub const THUNK_FRAME_ADDR: u64 = 0x7BC0;

/// The size of the frame's image in bytes.
pub const THUNK_FRAME_SIZE: usize = 30;

/// A real-mode register frame.
#[derive(Clone, Copy, Debug, PartialEq, Eq, Structural)]
pub struct ThunkData {
    pub es: u16,
    pub edi: u32,
    pub esi: u32,
    pub ebp: u32,
    pub ebx: u32,
    pub edx: u32,
    pub ecx: u32,
    pub eax: u32,
}

/// The four bytes of `x`, least significant first.
pub open spec fn u32_bytes(x: u32) -> Seq<u8> {
    seq![(x & 0xff) as u8, ((x >> 8u32) & 0xff) as u8, ((x >> 16u32) & 0xff) as u8, ((x >> 24u32) & 0xff) as u8]
}

/// The two bytes of `x`, least significant first.
pub open spec fn u16_bytes(x: u16) -> Seq<u8> {
    seq![(x & 0xff) as u8, (x >> 8) as u8]
}

/// The little-endian value of the two bytes of `b` at `off`.
pub open spec fn le_u16(b: Seq<u8>, off: int) -> u16 {
    ((b[off] as u16) | ((b[off + 1] as u16) << 8)) as u16
}

/// The little-endian value of the four bytes of `b` at `off`.
pub open spec fn le_u32(b: Seq<u8>, off: int) -> u32 {
    (b[off] as u32) | ((b[off + 1] as u32) << 8) | ((b[off + 2] as u32) << 16) | ((b[off + 3] as u32) << 24)
}

/// The packed image of a frame.
pub open spec fn frame_bytes(d: ThunkData) -> Seq<u8> {
    u16_bytes(d.es) + u32_bytes(d.edi) + u32_bytes(d.esi) + u32_bytes(d.ebp) + u32_bytes(d.ebx) + u32_bytes(d.edx)
        + u32_bytes(d.ecx) + u32_bytes(d.eax)
}

/// The frame that a packed image holds.
pub open spec fn frame_of(b: Seq<u8>) -> ThunkData {
    ThunkData {
        es: le_u16(b, 0),
        edi: le_u32(b, 2),
        esi: le_u32(b, 6),
        ebp: le_u32(b, 10),
        ebx: le_u32(b, 14),
        edx: le_u32(b, 18),
        ecx: le_u32(b, 22),
        eax: le_u32(b, 26),
    }
}

proof fn lemma_u32_round_trip(x: u32)
    ensures
        le_u32(u32_bytes(x), 0) == x,
{
    let b0 = (x & 0xff) as u8;
    let b1 = ((x >> 8u32) & 0xff) as u8;
    let b2 = ((x >> 16u32) & 0xff) as u8;
    let b3 = ((x >> 24u32) & 0xff) as u8;
    assert((b0 as u32) | ((b1 as u32) << 8) | ((b2 as u32) << 16) | ((b3 as u32) << 24) == x) by (bit_vector)
        requires
            b0 == (x & 0xff) as u8,
            b1 == ((x >> 8u32) & 0xff) as u8,
            b2 == ((x >> 16u32) & 0xff) as u8,
            b3 == ((x >> 24u32) & 0xff) as u8,
    ;
}

proof fn lemma_u16_round_trip(x: u16)
    ensures
        le_u16(u16_bytes(x), 0) == x,
{
    let b0 = (x & 0xff) as u8;
    let b1 = (x >> 8) as u8;
    assert(((b0 as u16) | ((b1 as u16) << 8)) as u16 == x) by (bit_vector)
        requires
            b0 == (x & 0xff) as u8,
            b1 == (x >> 8) as u8,
    ;
}

proof fn lemma_le_u32_shift(a: Seq<u8>, b: Seq<u8>, off: int)
    requires
        0 <= off,
        off + 4 <= b.len(),
        a.len() >= 4,
        forall|i: int| 0 <= i < 4 ==> a[i] == b[off + i],
    ensures
        le_u32(b, off) == le_u32(a, 0),
{
    assert(a[0] == b[off]);
    assert(a[1] == b[off + 1]);
    assert(a[2] == b[off + 2]);
    assert(a[3] == b[off + 3]);
}

/// Loading the image that a frame saves gives back the same frame.
pub proof fn lemma_save_load(d: ThunkData)
    ensures
        frame_of(frame_bytes(d)) == d,
{
    let b = frame_bytes(d);
    assert(b.len() == 30);
    lemma_u16_round_trip(d.es);
    assert(b[0] == u16_bytes(d.es)[0] && b[1] == u16_bytes(d.es)[1]);
    let regs = seq![d.edi, d.esi, d.ebp, d.ebx, d.edx, d.ecx, d.eax];
    let p1 = u16_bytes(d.es);
    let p2 = p1 + u32_bytes(d.edi);
    let p3 = p2 + u32_bytes(d.esi);
    let p4 = p3 + u32_bytes(d.ebp);
    let p5 = p4 + u32_bytes(d.ebx);
    let p6 = p5 + u32_bytes(d.edx);
    let p7 = p6 + u32_bytes(d.ecx);
    assert(b == p7 + u32_bytes(d.eax));
    lemma_u32_round_trip(d.edi);
    lemma_u32_round_trip(d.esi);
    lemma_u32_round_trip(d.ebp);
    lemma_u32_round_trip(d.ebx);
    lemma_u32_round_trip(d.edx);
    lemma_u32_round_trip(d.ecx);
    lemma_u32_round_trip(d.eax);
    lemma_le_u32_shift(u32_bytes(d.edi), b, 2);
    lemma_le_u32_shift(u32_bytes(d.esi), b, 6);
    lemma_le_u32_shift(u32_bytes(d.ebp), b, 10);
    lemma_le_u32_shift(u32_bytes(d.ebx), b, 14);
    lemma_le_u32_shift(u32_bytes(d.edx), b, 18);
    lemma_le_u32_shift(u32_bytes(d.ecx), b, 22);
    lemma_le_u32_shift(u32_bytes(d.eax), b, 26);
}

fn push_u32(v: &mut Vec<u8>, x: u32)
    ensures
        final(v)@ == old(v)@ + u32_bytes(x),
{
    v.push((x & 0xff) as u8);
    v.push(((x >> 8) & 0xff) as u8);
    v.push(((x >> 16) & 0xff) as u8);
    v.push(((x >> 24) & 0xff) as u8);
    assert(v@ =~= old(v)@ + u32_bytes(x));
}

fn read_u32(b: &[u8], off: usize) -> (r: u32)
    requires
        off + 4 <= b@.len(),
    ensures
        r == le_u32(b@, off as int),
{
    (b[off] as u32) | ((b[off + 1] as u32) << 8) | ((b[off + 2] as u32) << 16) | ((b[off + 3] as u32) << 24)
}

impl ThunkData {
    /// A frame with every register zero.
    pub fn new() -> (r: ThunkData)
        ensures
            r == (ThunkData { es: 0, edi: 0, esi: 0, ebp: 0, ebx: 0, edx: 0, ecx: 0, eax: 0 }),
    {
        ThunkData { es: 0, edi: 0, esi: 0, ebp: 0, ebx: 0, edx: 0, ecx: 0, eax: 0 }
    }

    /// The packed image of this frame, to be written at `THUNK_FRAME_ADDR`.
    pub fn save(&self) -> (r: Vec<u8>)
        ensures
            r@ == frame_bytes(*self),
            r@.len() == THUNK_FRAME_SIZE,
    {
        let mut v: Vec<u8> = Vec::new();
        v.push((self.es & 0xff) as u8);
        v.push((self.es >> 8) as u8);
        assert(v@ =~= u16_bytes(self.es));
        push_u32(&mut v, self.edi);
        push_u32(&mut v, self.esi);
        push_u32(&mut v, self.ebp);
        push_u32(&mut v, self.ebx);
        push_u32(&mut v, self.edx);
        push_u32(&mut v, self.ecx);
        push_u32(&mut v, self.eax);
        v
    }

    /// Replaces this frame with the one that the packed image `image` holds.
    pub fn load(&mut self, image: &[u8])
        requires
            image@.len() >= THUNK_FRAME_SIZE,
        ensures
            *final(self) == frame_of(image@),
    {
        self.es = ((image[0] as u16) | ((image[1] as u16) << 8)) as u16;
        self.edi = read_u32(image, 2);
        self.esi = read_u32(image, 6);
        self.ebp = read_u32(image, 10);
        self.ebx = read_u32(image, 14);
        self.edx = read_u32(image, 18);
        self.ecx = read_u32(image, 22);
        self.eax = read_u32(image, 26);
    }
}

} // verus!
