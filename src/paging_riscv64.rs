//! Sv48 page tables for RISC-V: an identity map of the first 8 GiB with
//! 1 GiB leaves, seen both at address zero and at `PHYS_OFFSET`, and the
//! kernel image mapped with 4 KiB leaves at `KERNEL_BASE`.
//!
//! An entry holds a physical page number shifted to bit 10, that is the
//! address shifted right by 2, with its flag bits below.

use vstd::prelude::*;

use crate::paging::{
    fb_first_slot, fb_root_index, fb_slots, lemma_fb_indices,
    frame_addr_ok, lemma_high_kernel_indices, lemma_kernel_page, lemma_low_bit_nonzero, lemma_mirror_indices,
    lemma_page_aligned_bits, pt_entry, tables_grow, FrameAlloc, PageTables, PAGE_SIZE, PHYS_LIMIT,
};

verus! {

/// Where the physical address space is mirrored in the higher half.
pub const PHYS_OFFSET: u64 = 0xFFFF_8000_0000_0000;

/// The virtual address of the kernel image: root entry 510.
pub const KERNEL_BASE: u64 = 0xFFFF_FF00_0000_0000;

/// The identity-mapped span of physical memory.
pub const IDENTITY_SIZE: u64 = 0x2_0000_0000;

/// The largest kernel image that one second-level table can map.
pub const KERNEL_MAX: u64 = 0x80_0000_0000;

pub const VALID: u64 = 1;
/// Readable, writable and executable: the entry is a leaf.
pub const RWX: u64 = 0xE;

/// The entry is valid.
pub open spec fn valid(e: u64) -> bool {
    e & VALID == VALID
}

/// The entry is a leaf.
pub open spec fn leaf(e: u64) -> bool {
    e & RWX != 0
}

/// The physical address an entry holds.
pub open spec fn pte_addr(e: u64) -> u64 {
    ((e >> 10u64) & 0xFFF_FFFF_FFFF) << 12u64
}

/// The table index that `v` selects at the level whose pages are `1 << shift` bytes.
pub open spec fn index_of(v: u64, shift: u64) -> u64 {
    (v >> shift) & 0x1ff
}

/// The physical address to which `v` translates under the root table at
/// `root`, following the Sv48 walk: `None` where the walk faults.
pub open spec fn translate(t: Map<u64, Seq<u64>>, root: u64, v: u64) -> Option<u64> {
    let e0 = pt_entry(t, root, index_of(v, 39));
    if !valid(e0) || leaf(e0) {
        None
    } else {
        let e1 = pt_entry(t, pte_addr(e0), index_of(v, 30));
        if !valid(e1) {
            None
        } else if leaf(e1) {
            Some((pte_addr(e1) & !0x3fff_ffffu64) | (v & 0x3fff_ffff))
        } else {
            let e2 = pt_entry(t, pte_addr(e1), index_of(v, 21));
            if !valid(e2) {
                None
            } else if leaf(e2) {
                Some((pte_addr(e2) & !0x1f_ffffu64) | (v & 0x1f_ffff))
            } else {
                let e3 = pt_entry(t, pte_addr(e2), index_of(v, 12));
                if !valid(e3) || !leaf(e3) {
                    None
                } else {
                    Some(pte_addr(e3) | (v & 0xfff))
                }
            }
        }
    }
}

/// An entry pointing to the table at `p`.
pub open spec fn link(p: u64) -> u64 {
    (p >> 2u64) | VALID
}

/// A leaf entry mapping the page at `p`.
pub open spec fn leaf_entry(p: u64) -> u64 {
    (p >> 2u64) | RWX | VALID
}

/// The address of the `f`-th frame handed out from `base`.
pub open spec fn frame_at(base: u64, f: int) -> u64 {
    (base + f * PAGE_SIZE) as u64
}

/// The number of second-level tables of a kernel of `size` bytes.
pub open spec fn kernel_l2s(size: u64) -> int {
    (size + 0x3fff_ffff) / 0x4000_0000
}

/// The number of last-level tables of a kernel of `size` bytes.
pub open spec fn kernel_l3s(size: u64) -> int {
    (size + 0x1f_ffff) / 0x20_0000
}

/// The number of frames that `paging_create` takes for a kernel of `size` bytes.
pub open spec fn create_frames(size: u64) -> int {
    3 + kernel_l2s(size) + kernel_l3s(size)
}

/// Entry `i` of frame `f` in the tables built from `base`: frame 0 is the
/// root, 1 the identity table, 2 the kernel's first-level table, then its
/// second-level tables, then its last-level tables.
pub open spec fn layout_entry(base: u64, kphys: u64, ksize: u64, f: int, i: int) -> u64 {
    let n2 = kernel_l2s(ksize);
    if f == 0 {
        if i == 0 || i == 256 {
            link(frame_at(base, 1))
        } else if i == 510 {
            link(frame_at(base, 2))
        } else {
            0
        }
    } else if f == 1 {
        if i < 8 {
            leaf_entry((i as u64) << 30u64)
        } else {
            0
        }
    } else if f == 2 {
        if i < n2 {
            link(frame_at(base, 3 + i))
        } else {
            0
        }
    } else if f < 3 + n2 {
        let t = (f - 3) * 512 + i;
        if t < kernel_l3s(ksize) {
            link(frame_at(base, 3 + n2 + t))
        } else {
            0
        }
    } else {
        let off = ((((f - 3 - n2) as u64) << 9u64) | (i as u64)) << 12u64;
        if off < ksize {
            leaf_entry((kphys + off) as u64)
        } else {
            0
        }
    }
}

/// The `f`-th frame of the tables built from `base`.
pub open spec fn layout_frame(base: u64, kphys: u64, ksize: u64, f: int) -> Seq<u64> {
    Seq::new(512, |i: int| layout_entry(base, kphys, ksize, f, i))
}

/// `t` holds every frame of the layout built from `base`.
pub open spec fn holds_layout(t: Map<u64, Seq<u64>>, base: u64, kphys: u64, ksize: u64) -> bool {
    forall|f: int|
        0 <= f < create_frames(ksize) ==> #[trigger] t.contains_key(frame_at(base, f)) && t[frame_at(base, f)]
            == layout_frame(base, kphys, ksize, f)
}

proof fn lemma_link_bits(x: u64)
    requires
        x & 0xfff == 0,
        x < 0x10_0000_0000_0000,
    ensures
        valid(link(x)),
        !leaf(link(x)),
        pte_addr(link(x)) == x,
        valid(leaf_entry(x)),
        leaf(leaf_entry(x)),
        pte_addr(leaf_entry(x)) == x,
{
    assert(((x >> 2u64) | 1) & 1 == 1 && ((x >> 2u64) | 1) & 0xE == 0 && ((((x >> 2u64) | 1) >> 10u64)
        & 0xFFF_FFFF_FFFF) << 12u64 == x && ((x >> 2u64) | 0xE | 1) & 1 == 1 && ((x >> 2u64) | 0xE | 1) & 0xE
        != 0 && ((((x >> 2u64) | 0xE | 1) >> 10u64) & 0xFFF_FFFF_FFFF) << 12u64 == x) by (bit_vector)
        requires
            x & 0xfff == 0,
            x < 0x10_0000_0000_0000,
    ;
}

proof fn lemma_frame_at_ok(base: u64, f: int, n: int)
    requires
        base % PAGE_SIZE == 0,
        0 <= f < n,
        base + n * PAGE_SIZE <= PHYS_LIMIT,
    ensures
        frame_addr_ok(frame_at(base, f)),
        frame_at(base, f) & 0xfff == 0,
{
    assert((base + f * 4096) % 4096 == 0) by (nonlinear_arith)
        requires
            base % 4096 == 0,
    ;
    assert(f * 4096 < n * 4096) by (nonlinear_arith)
        requires
            f < n,
    ;
    lemma_page_aligned_bits(frame_at(base, f));
}

/// How an address of the identity span splits into table indices, seen at
/// zero and in the higher half.
proof fn lemma_identity_indices(x: u64)
    requires
        x < IDENTITY_SIZE,
    ensures
        index_of(x, 39) == 0,
        index_of((x + PHYS_OFFSET) as u64, 39) == 256,
        index_of(x, 30) == x >> 30u64,
        index_of((x + PHYS_OFFSET) as u64, 30) == x >> 30u64,
        x >> 30u64 < 8,
        (x >> 30u64) << 30u64 & 0xfff == 0,
        (x >> 30u64) << 30u64 < 0x10_0000_0000_0000,
        (((x >> 30u64) << 30u64) & !0x3fff_ffffu64) | (x & 0x3fff_ffff) == x,
        ((x + PHYS_OFFSET) as u64) & 0x3fff_ffff == x & 0x3fff_ffff,
{
    let v = (x + PHYS_OFFSET) as u64;
    assert(v == x + 0xFFFF_8000_0000_0000);
    assert(((x >> 39u64) & 0x1ff) == 0 && ((v >> 39u64) & 0x1ff) == 256 && ((x >> 30u64) & 0x1ff) == x >> 30u64
        && ((v >> 30u64) & 0x1ff) == x >> 30u64 && x >> 30u64 < 8 && (x >> 30u64) << 30u64 & 0xfff == 0 && (x >> 30u64) << 30u64 < 0x10_0000_0000_0000 && (((x
        >> 30u64) << 30u64) & !0x3fff_ffffu64) | (x & 0x3fff_ffff) == x && v & 0x3fff_ffff == x & 0x3fff_ffff)
        by (bit_vector)
        requires
            x < 0x2_0000_0000,
            v == x + 0xFFFF_8000_0000_0000,
    ;
}

/// How an address of the kernel image splits into table indices.
proof fn lemma_kernel_indices(k: u64)
    requires
        k < KERNEL_MAX,
    ensures
        index_of((k + KERNEL_BASE) as u64, 39) == 510,
        index_of((k + KERNEL_BASE) as u64, 30) == k >> 30u64,
        index_of((k + KERNEL_BASE) as u64, 21) == index_of(k, 21),
        index_of((k + KERNEL_BASE) as u64, 12) == index_of(k, 12),
        ((k + KERNEL_BASE) as u64) & 0xfff == k & 0xfff,
        (k >> 30u64) * 512 + index_of(k, 21) == k >> 21u64,
        ((k >> 21u64) << 9u64 | index_of(k, 12)) << 12u64 == (k >> 12u64) << 12u64,
        (k >> 12u64) << 12u64 <= k,
        k >> 30u64 == k / 0x4000_0000,
        k >> 21u64 == k / 0x20_0000,
        index_of(k, 21) < 512,
        index_of(k, 12) < 512,
{
    lemma_high_kernel_indices(k);
}

/// The walk through the tables built from `base` reaches physical address
/// `x` from `x + PHYS_OFFSET` and from `x` itself, for every `x` of the
/// identity span.
pub proof fn lemma_layout_identity(t: Map<u64, Seq<u64>>, base: u64, kphys: u64, ksize: u64, x: u64)
    requires
        holds_layout(t, base, kphys, ksize),
        base % PAGE_SIZE == 0,
        base + create_frames(ksize) * PAGE_SIZE <= PHYS_LIMIT,
        x < IDENTITY_SIZE,
    ensures
        translate(t, frame_at(base, 0), (x + PHYS_OFFSET) as u64) == Some(x),
        translate(t, frame_at(base, 0), x) == Some(x),
{
    let n = create_frames(ksize);
    let root = frame_at(base, 0);
    let i = x >> 30u64;
    lemma_identity_indices(x);
    assert(t.contains_key(frame_at(base, 0)));
    assert(t.contains_key(frame_at(base, 1)));
    lemma_frame_at_ok(base, 1, n);
    lemma_link_bits(frame_at(base, 1));
    lemma_link_bits(i << 30u64);
    assert(t[frame_at(base, 1)][i as int] == layout_entry(base, kphys, ksize, 1, i as int));
    assert(pt_entry(t, frame_at(base, 1), i) == leaf_entry(i << 30u64));
    assert(pt_entry(t, root, 256) == link(frame_at(base, 1)));
    assert(pt_entry(t, root, 0) == link(frame_at(base, 1)));
}

/// The walk through the tables built from `base` reaches byte `k` of the
/// kernel image from `KERNEL_BASE + k`.
pub proof fn lemma_layout_kernel(t: Map<u64, Seq<u64>>, base: u64, kphys: u64, ksize: u64, k: u64)
    requires
        holds_layout(t, base, kphys, ksize),
        base % PAGE_SIZE == 0,
        base + create_frames(ksize) * PAGE_SIZE <= PHYS_LIMIT,
        kphys % PAGE_SIZE == 0,
        kphys + ksize <= PHYS_LIMIT,
        ksize <= KERNEL_MAX,
        k < ksize,
    ensures
        translate(t, frame_at(base, 0), (k + KERNEL_BASE) as u64) == Some((kphys + k) as u64),
{
    let n = create_frames(ksize);
    let n2 = kernel_l2s(ksize);
    let root = frame_at(base, 0);
    let a = k >> 30u64;
    let b = index_of(k, 21);
    let tt = k >> 21u64;
    let c = index_of(k, 12);
    lemma_kernel_indices(k);
    lemma_page_aligned_bits(kphys);
    lemma_kernel_page(kphys, k);
    assert(a < n2) by (nonlinear_arith)
        requires
            a == k / 0x4000_0000,
            k < ksize,
            n2 == (ksize + 0x3fff_ffff) / 0x4000_0000;
    assert(tt < kernel_l3s(ksize)) by (nonlinear_arith)
        requires
            tt == k / 0x20_0000,
            k < ksize,
            kernel_l3s(ksize) == (ksize + 0x1f_ffff) / 0x20_0000;
    let f2 = 3 + a;
    let f3 = 3 + n2 + tt;
    assert(t.contains_key(frame_at(base, 0)));
    assert(t.contains_key(frame_at(base, 2)));
    assert(t.contains_key(frame_at(base, f2)));
    assert(t.contains_key(frame_at(base, f3)));
    lemma_frame_at_ok(base, 2, n);
    lemma_frame_at_ok(base, f2, n);
    lemma_frame_at_ok(base, f3, n);
    lemma_link_bits(frame_at(base, 2));
    lemma_link_bits(frame_at(base, f2));
    lemma_link_bits(frame_at(base, f3));
    let off = (((tt as u64) << 9u64) | c) << 12u64;
    let page = (kphys + off) as u64;
    assert(off == (k >> 12u64) << 12u64);
    assert(off < ksize);
    lemma_link_bits(page);
    assert(t[frame_at(base, f3)][c as int] == layout_entry(base, kphys, ksize, f3, c as int));
    assert(((f3 - 3 - n2) as u64) == tt);
    assert(pt_entry(t, frame_at(base, f3), c) == leaf_entry(page));
    assert(t[frame_at(base, f2)][b as int] == layout_entry(base, kphys, ksize, f2, b as int));
    assert((f2 - 3) * 512 + b == tt);
    assert(pt_entry(t, frame_at(base, f2), b) == link(frame_at(base, f3)));
    assert(pt_entry(t, frame_at(base, 2), a) == link(frame_at(base, f2)));
    assert(pt_entry(t, root, 510) == link(frame_at(base, 2)));
}

/// Entry `i` of frame `f` of the layout built from `base`.
fn layout_value(base: u64, kphys: u64, ksize: u64, f: u64, i: u64) -> (r: u64)
    requires
        f < create_frames(ksize),
        i < 512,
        base + create_frames(ksize) * PAGE_SIZE <= PHYS_LIMIT,
        kphys + ksize <= PHYS_LIMIT,
        ksize <= KERNEL_MAX,
    ensures
        r == layout_entry(base, kphys, ksize, f as int, i as int),
{
    let n2 = (ksize + 0x3fff_ffff) / 0x4000_0000;
    let n3 = (ksize + 0x1f_ffff) / 0x20_0000;
    if f == 0 {
        if i == 0 || i == 256 {
            ((base + PAGE_SIZE) >> 2) | VALID
        } else if i == 510 {
            ((base + 2 * PAGE_SIZE) >> 2) | VALID
        } else {
            0
        }
    } else if f == 1 {
        if i < 8 {
            ((i << 30) >> 2) | RWX | VALID
        } else {
            0
        }
    } else if f == 2 {
        if i < n2 {
            ((base + (3 + i) * PAGE_SIZE) >> 2) | VALID
        } else {
            0
        }
    } else if f < 3 + n2 {
        let t = (f - 3) * 512 + i;
        if t < n3 {
            ((base + (3 + n2 + t) * PAGE_SIZE) >> 2) | VALID
        } else {
            0
        }
    } else {
        let off = (((f - 3 - n2) << 9u64) | i) << 12u64;
        if off < ksize {
            ((kphys + off) >> 2) | RWX | VALID
        } else {
            0
        }
    }
}

/// Frame `f` of the layout built from `base`.
fn layout_frame_vec(base: u64, kphys: u64, ksize: u64, f: u64) -> (r: Vec<u64>)
    requires
        f < create_frames(ksize),
        base + create_frames(ksize) * PAGE_SIZE <= PHYS_LIMIT,
        kphys + ksize <= PHYS_LIMIT,
        ksize <= KERNEL_MAX,
    ensures
        r@ == layout_frame(base, kphys, ksize, f as int),
{
    let mut v: Vec<u64> = Vec::new();
    let mut i: u64 = 0;
    while i < 512
        invariant
            i <= 512,
            v@.len() == i,
            f < create_frames(ksize),
            base + create_frames(ksize) * PAGE_SIZE <= PHYS_LIMIT,
            kphys + ksize <= PHYS_LIMIT,
            ksize <= KERNEL_MAX,
            forall|j: int| 0 <= j < i ==> v@[j] == layout_entry(base, kphys, ksize, f as int, j),
        decreases 512 - i,
    {
        let e = layout_value(base, kphys, ksize, f, i);
        v.push(e);
        i = i + 1;
    }
    assert(v@ =~= layout_frame(base, kphys, ksize, f as int));
    v
}

/// The number of frames that `paging_create` takes for a kernel of `kernel_size` bytes.
pub fn paging_create_frames(kernel_size: u64) -> (r: u64)
    requires
        kernel_size <= KERNEL_MAX,
    ensures
        r == create_frames(kernel_size),
{
    3 + (kernel_size + 0x3fff_ffff) / 0x4000_0000 + (kernel_size + 0x1f_ffff) / 0x20_0000
}

/// Builds the Sv48 tables that identity-map the first 8 GiB (at zero and at
/// `PHYS_OFFSET`) and map the kernel image at `KERNEL_BASE`, taking their
/// frames from `alloc`. Returns the tables and the address of the root, or
/// `None` when `alloc` has too few pages left.
#[verifier::spinoff_prover]
pub fn paging_create(alloc: &mut FrameAlloc, kernel_phys: u64, kernel_size: u64) -> (r: Option<(PageTables, u64)>)
    requires
        old(alloc).wf(),
        kernel_phys % PAGE_SIZE == 0,
        kernel_phys + kernel_size <= PHYS_LIMIT,
        kernel_size <= KERNEL_MAX,
    ensures
        final(alloc).wf(),
        final(alloc).spec_start() == old(alloc).spec_start(),
        final(alloc).spec_end() == old(alloc).spec_end(),
        r is Some <==> create_frames(kernel_size) <= old(alloc).spec_free_pages(),
        r is None ==> final(alloc).spec_next() == old(alloc).spec_next(),
        r matches Some((t, root)) ==> {
            &&& t.wf()
            &&& root == old(alloc).spec_next()
            &&& final(alloc).spec_next() == old(alloc).spec_next() + create_frames(kernel_size) * PAGE_SIZE
            &&& forall|p: u64| #[trigger] t@.contains_key(p) ==> root <= p < final(alloc).spec_next()
            &&& holds_layout(t@, root, kernel_phys, kernel_size)
            &&& forall|x: u64| x < IDENTITY_SIZE ==> #[trigger] translate(t@, root, (x + PHYS_OFFSET) as u64) == Some(x)
                && translate(t@, root, x) == Some(x)
            &&& forall|k: u64| k < kernel_size ==> #[trigger] translate(t@, root, (k + KERNEL_BASE) as u64)
                == Some((kernel_phys + k) as u64)
        },
{
    let n = paging_create_frames(kernel_size);
    let base = match alloc.alloc_pages(n) {
        Some(b) => b,
        None => {
            return None;
        },
    };
    let mut t = PageTables::new();
    let mut f: u64 = 0;
    while f < n
        invariant
            n == create_frames(kernel_size),
            f <= n,
            t.wf(),
            base % PAGE_SIZE == 0,
            base + n * PAGE_SIZE <= PHYS_LIMIT,
            kernel_phys + kernel_size <= PHYS_LIMIT,
            kernel_size <= KERNEL_MAX,
            forall|p: u64| #[trigger] t@.contains_key(p) <==> exists|g: int| 0 <= g < f && p == frame_at(base, g),
            forall|g: int| 0 <= g < f ==> #[trigger] t@.contains_key(frame_at(base, g)) && t@[frame_at(base, g)]
                == layout_frame(base, kernel_phys, kernel_size, g),
        decreases n - f,
    {
        let v = layout_frame_vec(base, kernel_phys, kernel_size, f);
        proof {
            lemma_frame_at_ok(base, f as int, n as int);
            if t@.contains_key(frame_at(base, f as int)) {
                let g = choose|g: int| 0 <= g < f && frame_at(base, f as int) == frame_at(base, g);
                assert(false);
            }
        }
        let ghost before = t@;
        t.add_frame(base + f * PAGE_SIZE, v);
        proof {
            assert forall|g: int| 0 <= g < f + 1 implies #[trigger] t@.contains_key(frame_at(base, g)) && t@[frame_at(base, g)]
                == layout_frame(base, kernel_phys, kernel_size, g) by {
                if g < f {
                    assert(before.contains_key(frame_at(base, g)));
                    assert(frame_at(base, g) != frame_at(base, f as int));
                } else {
                    assert(frame_at(base, g) == base + f * PAGE_SIZE);
                }
            }
        }
        f = f + 1;
    }
    proof {
        assert forall|p: u64| #[trigger] t@.contains_key(p) implies base <= p < base + n * PAGE_SIZE by {
            let g = choose|g: int| 0 <= g < n && p == frame_at(base, g);
            assert(g * 4096 < n * 4096) by (nonlinear_arith)
                requires g < n;
        }
        assert forall|x: u64| x < IDENTITY_SIZE implies #[trigger] translate(t@, base, (x + PHYS_OFFSET) as u64)
            == Some(x) && translate(t@, base, x) == Some(x) by {
            lemma_layout_identity(t@, base, kernel_phys, kernel_size, x);
        }
        assert forall|k: u64| k < kernel_size implies #[trigger] translate(t@, base, (k + KERNEL_BASE) as u64)
            == Some((kernel_phys + k) as u64) by {
            lemma_layout_kernel(t@, base, kernel_phys, kernel_size, k);
        }
    }
    Some((t, base))
}

/// How the higher-half mirror splits into table indices.
proof fn lemma_offset_indices(x: u64)
    requires
        x < 0x8000_0000_0000,
    ensures
        index_of((x + PHYS_OFFSET) as u64, 39) == 256 + (x >> 39u64),
        index_of((x + PHYS_OFFSET) as u64, 30) == index_of(x, 30),
        index_of((x + PHYS_OFFSET) as u64, 21) == index_of(x, 21),
        ((x + PHYS_OFFSET) as u64) & 0x1f_ffff == x & 0x1f_ffff,
{
    lemma_mirror_indices(x);
}

/// A frame of zeros.
fn zero_frame() -> (r: Vec<u64>)
    ensures
        r@ == Seq::new(512, |i: int| 0u64),
{
    let mut v: Vec<u64> = Vec::new();
    let mut i: u64 = 0;
    while i < 512
        invariant
            i <= 512,
            v@.len() == i,
            forall|j: int| 0 <= j < i ==> v@[j] == 0u64,
        decreases 512 - i,
    {
        v.push(0);
        i = i + 1;
    }
    assert(v@ =~= Seq::new(512, |i: int| 0u64));
    v
}

/// Growing the tables keeps every translation that already succeeded.
pub proof fn lemma_grow_keeps_translate(old: Map<u64, Seq<u64>>, new: Map<u64, Seq<u64>>, root: u64, v: u64)
    requires
        tables_grow(old, new),
        translate(old, root, v) is Some,
    ensures
        translate(new, root, v) == translate(old, root, v),
{
    let e0 = pt_entry(old, root, index_of(v, 39));
    lemma_low_bit_nonzero(e0);
    assert(pt_entry(new, root, index_of(v, 39)) == e0);
    let e1 = pt_entry(old, pte_addr(e0), index_of(v, 30));
    lemma_low_bit_nonzero(e1);
    assert(pt_entry(new, pte_addr(e0), index_of(v, 30)) == e1);
    if !leaf(e1) {
        let e2 = pt_entry(old, pte_addr(e1), index_of(v, 21));
        lemma_low_bit_nonzero(e2);
        assert(pt_entry(new, pte_addr(e1), index_of(v, 21)) == e2);
        if !leaf(e2) {
            let e3 = pt_entry(old, pte_addr(e2), index_of(v, 12));
            lemma_low_bit_nonzero(e3);
            assert(pt_entry(new, pte_addr(e2), index_of(v, 12)) == e3);
        }
    }
}

/// A range that reaches above the identity span can be mapped by
/// `paging_physmem`: it is 2 MiB aligned, lies within one 512 GiB root
/// slot of the higher half, and the first-level slots it needs are
/// free, either under an existing first-level table or under none.
pub open spec fn fb_mappable(t: Map<u64, Seq<u64>>, root: u64, phys: u64, size: u64) -> bool {
    let e4 = pt_entry(t, root, fb_root_index(phys));
    &&& phys % 0x20_0000 == 0
    &&& phys / 0x80_0000_0000 < 256
    &&& phys % 0x80_0000_0000 + size <= 0x80_0000_0000
    &&& e4 == 0 || {
        &&& valid(e4)
        &&& !leaf(e4)
        &&& t.contains_key(pte_addr(e4))
        &&& forall|s: int| 0 <= s < fb_slots(phys, size) ==> #[trigger] pt_entry(t, pte_addr(e4), (fb_first_slot(phys) + s) as u64) == 0
    }
}

/// The frames that `paging_physmem` takes.
pub open spec fn fb_frames(t: Map<u64, Seq<u64>>, root: u64, phys: u64, size: u64) -> int {
    if pt_entry(t, root, fb_root_index(phys)) == 0 { 1 + fb_slots(phys, size) } else { fb_slots(phys, size) }
}

/// Entry `j` of the `s`-th second-level table that `paging_physmem` adds:
/// the 2 MiB page at its address when that page belongs to the framebuffer.
pub open spec fn fb_pd_entry(phys: u64, size: u64, s: int, j: int) -> u64 {
    let a = ((((phys >> 30u64) + (s as u64)) as u64) << 30u64) | ((j as u64) << 21u64);
    if phys <= a && a < phys + size {
        leaf_entry(a)
    } else {
        0
    }
}

/// The `s`-th second-level table that `paging_physmem` adds.
pub open spec fn fb_pd_frame(phys: u64, size: u64, s: int) -> Seq<u64> {
    Seq::new(512, |j: int| fb_pd_entry(phys, size, s, j))
}

/// Growth is transitive.
proof fn lemma_grow_trans(a: Map<u64, Seq<u64>>, b: Map<u64, Seq<u64>>, c: Map<u64, Seq<u64>>)
    requires
        tables_grow(a, b),
        tables_grow(b, c),
    ensures
        tables_grow(a, c),
{
    assert forall|table: u64, i: u64| #[trigger] pt_entry(c, table, i) == pt_entry(a, table, i) || pt_entry(a, table, i) == 0 by {
        assert(pt_entry(b, table, i) == pt_entry(a, table, i) || pt_entry(a, table, i) == 0);
        assert(pt_entry(c, table, i) == pt_entry(b, table, i) || pt_entry(b, table, i) == 0);
    }
}

/// Adding a frame at a fresh address is growth.
proof fn lemma_grow_insert(t: Map<u64, Seq<u64>>, p: u64, e: Seq<u64>)
    requires
        !t.contains_key(p),
    ensures
        tables_grow(t, t.insert(p, e)),
        forall|tb: u64, k: u64| tb != p ==> #[trigger] pt_entry(t.insert(p, e), tb, k) == pt_entry(t, tb, k),
{
    assert forall|tb: u64, k: u64| tb != p implies #[trigger] pt_entry(t.insert(p, e), tb, k) == pt_entry(t, tb, k) by {
        if t.contains_key(tb) {
            assert(t.insert(p, e)[tb] == t[tb]);
        }
    }
    assert forall|table: u64, i: u64| #[trigger] pt_entry(t.insert(p, e), table, i) == pt_entry(t, table, i) || pt_entry(t, table, i) == 0 by {
        if table != p && t.contains_key(table) {
            assert(t.insert(p, e)[table] == t[table]);
        }
    }
}

/// Filling a zero entry is growth.
proof fn lemma_grow_fill(t: Map<u64, Seq<u64>>, table: u64, i: u64, v: u64)
    requires
        t.contains_key(table),
        pt_entry(t, table, i) == 0,
        i < t[table].len(),
    ensures
        tables_grow(t, t.insert(table, t[table].update(i as int, v))),
        pt_entry(t.insert(table, t[table].update(i as int, v)), table, i) == v,
        forall|tb: u64, k: u64| (tb != table || k != i) ==> #[trigger] pt_entry(t.insert(table, t[table].update(i as int, v)), tb, k) == pt_entry(t, tb, k),
{
    let n = t.insert(table, t[table].update(i as int, v));
    assert forall|tb: u64, k: u64| (tb != table || k != i) implies #[trigger] pt_entry(n, tb, k) == pt_entry(t, tb, k) by {
        if tb == table {
            assert(n[tb] == t[table].update(i as int, v));
        } else if t.contains_key(tb) {
            assert(n[tb] == t[tb]);
        }
    }
    assert forall|tb: u64, k: u64| #[trigger] pt_entry(n, tb, k) == pt_entry(t, tb, k) || pt_entry(t, tb, k) == 0 by {
        if tb != table || k != i {
            assert(pt_entry(n, tb, k) == pt_entry(t, tb, k));
        }
    }
}

/// Entry `j` of the `s`-th added second-level table.
fn fb_pd_value(phys: u64, size: u64, s: u64, j: u64) -> (r: u64)
    requires
        phys + size <= u64::MAX,
        phys / 0x80_0000_0000 < 256,
        s < 512,
        j < 512,
    ensures
        r == fb_pd_entry(phys, size, s as int, j as int),
{
    assert((phys >> 30u64) + s < 0x40_0000) by (bit_vector)
        requires
            phys / 0x80_0000_0000 < 256,
            s < 512,
    ;
    let a = (((phys >> 30u64) + s) << 30u64) | (j << 21u64);
    if phys <= a && a < phys + size {
        (a >> 2) | RWX | VALID
    } else {
        0
    }
}

/// The `s`-th second-level table that `paging_physmem` adds.
fn fb_pd_vec(phys: u64, size: u64, s: u64) -> (r: Vec<u64>)
    requires
        phys + size <= u64::MAX,
        phys / 0x80_0000_0000 < 256,
        s < 512,
    ensures
        r@ == fb_pd_frame(phys, size, s as int),
{
    let mut v: Vec<u64> = Vec::new();
    let mut j: u64 = 0;
    while j < 512
        invariant
            j <= 512,
            v@.len() == j,
            phys + size <= u64::MAX,
            phys / 0x80_0000_0000 < 256,
            s < 512,
            forall|k: int| 0 <= k < j ==> v@[k] == fb_pd_entry(phys, size, s as int, k),
        decreases 512 - j,
    {
        v.push(fb_pd_value(phys, size, s, j));
        j = j + 1;
    }
    assert(v@ =~= fb_pd_frame(phys, size, s as int));
    v
}

/// Maps the physical range of `fb_size` bytes at `fb_phys`, such as a
/// framebuffer, at `fb_phys + PHYS_OFFSET` in the tables rooted at `root`
/// with 2 MiB leaves, taking new frames from `alloc`, and returns that
/// virtual address. A range within the identity span is already mapped:
/// nothing changes and nothing is taken. Returns `None`, with nothing
/// changed, when `alloc` has too few pages.
#[verifier::spinoff_prover]
pub fn paging_physmem(
    tables: &mut PageTables,
    alloc: &mut FrameAlloc,
    root: u64,
    fb_phys: u64,
    fb_size: u64,
) -> (r: Option<u64>)
    requires
        old(tables).wf(),
        old(alloc).wf(),
        old(tables)@.contains_key(root),
        forall|p: u64| #[trigger] old(tables)@.contains_key(p) ==> p < old(alloc).spec_next() || p >= old(alloc).spec_end(),
        fb_phys + fb_size <= u64::MAX,
        fb_phys + fb_size > IDENTITY_SIZE ==> fb_mappable(old(tables)@, root, fb_phys, fb_size),
    ensures
        final(tables).wf(),
        final(alloc).wf(),
        final(alloc).spec_start() == old(alloc).spec_start(),
        final(alloc).spec_end() == old(alloc).spec_end(),
        fb_phys + fb_size <= IDENTITY_SIZE ==> r == Some((fb_phys + PHYS_OFFSET) as u64) && final(tables)@ == old(tables)@
            && final(alloc).spec_next() == old(alloc).spec_next(),
        fb_phys + fb_size > IDENTITY_SIZE ==> (r is Some <==> fb_frames(old(tables)@, root, fb_phys, fb_size)
            <= old(alloc).spec_free_pages()),
        r is None ==> final(tables)@ == old(tables)@ && final(alloc).spec_next() == old(alloc).spec_next(),
        fb_phys + fb_size > IDENTITY_SIZE && r is Some ==> {
            &&& r == Some((fb_phys + PHYS_OFFSET) as u64)
            &&& final(alloc).spec_next() == old(alloc).spec_next() + fb_frames(old(tables)@, root, fb_phys, fb_size)
                * PAGE_SIZE
            &&& tables_grow(old(tables)@, final(tables)@)
            &&& forall|p: u64| #[trigger] final(tables)@.contains_key(p) ==> old(tables)@.contains_key(p) || (
            old(alloc).spec_next() <= p < final(alloc).spec_next())
            &&& forall|f: u64| f < fb_size ==> #[trigger] translate(final(tables)@, root, (fb_phys + f + PHYS_OFFSET) as u64)
                == Some((fb_phys + f) as u64)
        },
{
    if fb_phys + fb_size <= IDENTITY_SIZE {
        return Some(fb_phys + PHYS_OFFSET);
    }
    let ghost old_t = tables@;
    let pi = 256 + fb_phys / 0x80_0000_0000;
    let g0 = (fb_phys / 0x4000_0000) % 512;
    let count = ((fb_phys % 0x4000_0000) + fb_size + 0x3fff_ffff) / 0x4000_0000;
    let e4 = tables.entry(root, pi as usize);
    let needed = if e4 == 0 { 1 + count } else { count };
    let base = match alloc.alloc_pages(needed) {
        Some(b) => b,
        None => {
            return None;
        },
    };
    proof {
        assert(g0 + count <= 512) by (nonlinear_arith)
            requires
                g0 == (fb_phys / 0x4000_0000) % 512,
                count == ((fb_phys % 0x4000_0000) + fb_size + 0x3fff_ffff) / 0x4000_0000,
                fb_phys % 0x80_0000_0000 + fb_size <= 0x80_0000_0000,
        {
            assert(fb_phys % 0x80_0000_0000 == ((fb_phys / 0x4000_0000) % 512) * 0x4000_0000 + fb_phys % 0x4000_0000) by (nonlinear_arith);
        }
        assert(needed * 4096 <= alloc.spec_end() - base);
        old(tables).lemma_wf_view();
    }
    let ghost nbase: u64 = if e4 == 0 { (base + PAGE_SIZE) as u64 } else { base };
    let pdp = if e4 == 0 {
        let z = zero_frame();
        proof {
            lemma_page_aligned_bits(base);
            lemma_grow_insert(tables@, base, z@);
        }
        tables.add_frame(base, z);
        let ghost mid = tables@;
        proof {
            lemma_link_bits(base);
        }
        tables.set_entry(root, pi as usize, (base >> 2) | VALID);
        proof {
            lemma_grow_fill(mid, root, pi, (base >> 2) | VALID);
            lemma_grow_trans(old_t, mid, tables@);
        }
        base
    } else {
        ((e4 >> 10u64) & 0xFFF_FFFF_FFFF) << 12u64
    };
    proof {
        assert(g0 == fb_first_slot(fb_phys));
        assert(count == fb_slots(fb_phys, fb_size));
        if e4 == 0 {
            assert(root != base);
            assert forall|q: int| 0 <= q < count implies #[trigger] pt_entry(tables@, pdp, (g0 + q) as u64) == 0 by {
                assert(tables@[base] =~= Seq::new(512, |i: int| 0u64));
            }
        } else {
            assert(tables@ == old_t);
            assert forall|q: int| 0 <= q < count implies #[trigger] pt_entry(tables@, pdp, (g0 + q) as u64) == 0 by {
                assert(pt_entry(old_t, pte_addr(e4), (fb_first_slot(fb_phys) + q) as u64) == 0);
            }
        }
    }
    let mut s: u64 = 0;
    while s < count
        invariant
            tables.wf(),
            alloc.wf(),
            old(tables).wf(),
            0 <= s <= count,
            g0 + count <= 512,
            g0 == fb_first_slot(fb_phys),
            pi == fb_root_index(fb_phys),
            count == fb_slots(fb_phys, fb_size),
            fb_phys + fb_size <= u64::MAX,
            fb_phys / 0x80_0000_0000 < 256,
            nbase + count * PAGE_SIZE <= alloc.spec_end(),
            nbase == (if e4 == 0 { base + PAGE_SIZE } else { base as int }),
            e4 == 0 ==> pdp == base,
            e4 != 0 ==> old_t.contains_key(pdp),
            base % PAGE_SIZE == 0,
            old(alloc).spec_next() == base,
            alloc.spec_end() <= PHYS_LIMIT,
            forall|p: u64| #[trigger] old_t.contains_key(p) ==> p < base || p >= alloc.spec_end(),
            tables@.contains_key(pdp),
            pdp == base || old_t.contains_key(pdp),
            valid(pt_entry(tables@, root, pi)),
            !leaf(pt_entry(tables@, root, pi)),
            pte_addr(pt_entry(tables@, root, pi)) == pdp,
            tables_grow(old_t, tables@),
            forall|q: int| s <= q < count ==> #[trigger] pt_entry(tables@, pdp, (g0 + q) as u64) == 0,
            forall|q: int| 0 <= q < s ==> #[trigger] pt_entry(tables@, pdp, (g0 + q) as u64) == link(frame_at(nbase, q)),
            forall|q: int| 0 <= q < s ==> #[trigger] tables@.contains_key(frame_at(nbase, q))
                && tables@[frame_at(nbase, q)] == fb_pd_frame(fb_phys, fb_size, q),
            forall|p: u64| #[trigger] tables@.contains_key(p) ==> old_t.contains_key(p) || (base <= p < nbase + s * PAGE_SIZE),
            forall|p: u64| #[trigger] tables@.contains_key(p) ==> frame_addr_ok(p) && tables@[p].len() == 512,
        decreases count - s,
    {
        let pd = nbase_of(base, e4 == 0) + s * PAGE_SIZE;
        let v = fb_pd_vec(fb_phys, fb_size, s);
        proof {
            assert(pd == nbase + s * PAGE_SIZE);
            assert(s * 4096 < count * 4096) by (nonlinear_arith)
                requires
                    s < count;
            assert(pd < alloc.spec_end());
            assert(!old_t.contains_key(pd));
            assert(!tables@.contains_key(pd));
            assert((pd as int) % 4096 == 0) by (nonlinear_arith)
                requires
                    pd == nbase + s * 4096,
                    nbase % 4096 == 0;
            lemma_grow_insert(tables@, pd, v@);
        }
        let ghost before = tables@;
        let ghost vv = v@;
        tables.add_frame(pd, v);
        proof {
            lemma_grow_trans(old_t, before, tables@);
            tables.lemma_wf_view();
            assert(pt_entry(before, pdp, (g0 + s) as u64) == 0);
            assert(pt_entry(tables@, pdp, (g0 + s) as u64) == 0);
            let e = pt_entry(before, root, pi);
            lemma_low_bit_nonzero(e);
            assert(pt_entry(tables@, root, pi) == e);
        }
        let ghost mid = tables@;
        proof {
            let e = pt_entry(mid, root, pi);
            lemma_low_bit_nonzero(e);
        }
        tables.set_entry(pdp, (g0 + s) as usize, (pd >> 2) | VALID);
        proof {
            lemma_grow_fill(mid, pdp, (g0 + s) as u64, (pd >> 2) | VALID);
            lemma_grow_trans(old_t, mid, tables@);
            assert(pdp != pd);
            assert forall|q: int| s + 1 <= q < count implies #[trigger] pt_entry(tables@, pdp, (g0 + q) as u64) == 0 by {
                assert(pt_entry(before, pdp, (g0 + q) as u64) == 0);
                assert(pt_entry(mid, pdp, (g0 + q) as u64) == 0);
            }
            assert forall|q: int| 0 <= q < s + 1 implies #[trigger] pt_entry(tables@, pdp, (g0 + q) as u64) == link(frame_at(nbase, q)) by {
                if q < s {
                    assert(pt_entry(before, pdp, (g0 + q) as u64) == link(frame_at(nbase, q)));
                    assert(pt_entry(mid, pdp, (g0 + q) as u64) == link(frame_at(nbase, q)));
                }
            }
            assert forall|q: int| 0 <= q < s + 1 implies #[trigger] tables@.contains_key(frame_at(nbase, q))
                && tables@[frame_at(nbase, q)] == fb_pd_frame(fb_phys, fb_size, q) by {
                let pq = frame_at(nbase, q);
                assert(pq >= nbase);
                assert(pq < alloc.spec_end()) by (nonlinear_arith)
                    requires
                        pq == nbase + q * 4096,
                        q < count,
                        nbase + count * 4096 <= alloc.spec_end();
                assert(!old_t.contains_key(pq));
                assert(pq != pdp);
                if q < s {
                    assert(before.contains_key(pq));
                    assert(pq != pd);
                    assert(mid[pq] == before[pq]);
                    assert(tables@[pq] == mid[pq]);
                } else {
                    assert(pq == pd);
                    assert(mid[pd] == vv);
                    assert(tables@[pq] == mid[pq]);
                }
            }
        }
        proof {
            assert(tables@.contains_key(frame_at(nbase, s as int)));
            assert(tables@[frame_at(nbase, s as int)] == fb_pd_frame(fb_phys, fb_size, s as int));
            assert(forall|q: int| 0 <= q < s + 1 ==> #[trigger] tables@.contains_key(frame_at(nbase, q))
                && tables@[frame_at(nbase, q)] == fb_pd_frame(fb_phys, fb_size, q));
        }
        s = s + 1;
    }
    proof {
        assert forall|f: u64| f < fb_size implies #[trigger] translate(tables@, root, (fb_phys + f + PHYS_OFFSET) as u64)
            == Some((fb_phys + f) as u64) by {
            let x = (fb_phys + f) as u64;
            lemma_fb_indices(fb_phys, fb_size, x);
            lemma_offset_indices(x);
            let q = (x >> 30u64) - (fb_phys >> 30u64);
            let pd = frame_at(nbase, q);
            assert(pt_entry(tables@, pdp, (g0 + q) as u64) == link(pd));
            assert(tables@.contains_key(pd));
            lemma_page_aligned_bits(pd);
            lemma_link_bits(pd);
            let j = index_of(x, 21);
            let a = (x >> 21u64) << 21u64;
            assert((((fb_phys >> 30u64) + (q as u64)) as u64) == x >> 30u64);
            assert(tables@[pd][j as int] == fb_pd_entry(fb_phys, fb_size, q, j as int));
            assert(a & 0xfff == 0 && a & !0x1f_ffffu64 == a) by (bit_vector)
                requires
                    a & 0x1f_ffff == 0;
            lemma_link_bits(a);
            assert(pt_entry(tables@, pd, j) == leaf_entry(a));
        }
    }
    Some(fb_phys + PHYS_OFFSET)
}

/// The first frame that receives a second-level table.
fn nbase_of(base: u64, with_pdp: bool) -> (r: u64)
    requires
        base + PAGE_SIZE <= u64::MAX,
    ensures
        r == if with_pdp { base + PAGE_SIZE } else { base as int },
{
    if with_pdp {
        base + PAGE_SIZE
    } else {
        base
    }
}

} // verus!
