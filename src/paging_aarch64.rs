//! AArch64 stage-1 translation tables with a 4 KiB granule: the first
//! 8 GiB mapped with 2 MiB blocks, seen both at address zero and at
//! `PHYS_OFFSET`, device memory with the device attributes and everything
//! else as normal memory, and the kernel image mapped with 4 KiB pages at
//! `KERNEL_BASE`.

use vstd::prelude::*;

use crate::hwdesc::{in_regions, is_in_dev_mem_region};
use crate::paging::{
    fb_first_slot, fb_root_index, fb_slots, lemma_fb_indices,
    frame_addr_ok, lemma_high_kernel_indices, lemma_kernel_page, lemma_low_bit_nonzero, lemma_mirror_indices,
    lemma_page_aligned_bits, pt_entry, tables_grow, FrameAlloc, PageTables, PAGE_SIZE, PHYS_LIMIT,
};

verus! {

pub const PF_PRESENT: u64 = 1;
/// At levels 0 to 2 the descriptor points to a table; at level 3 it is a page.
pub const PF_TABLE: u64 = 2;
pub const PF_OUTER_SHAREABLE: u64 = 0x100;
pub const PF_INNER_SHAREABLE: u64 = 0x300;
pub const PF_ACCESS: u64 = 0x400;
/// Device memory: outer shareable, memory attribute index 2.
pub const PF_DEV: u64 = 0x108;
/// Normal memory: inner shareable, memory attribute index 0.
pub const PF_RAM: u64 = 0x300;

/// Where the physical address space is mirrored in the higher half.
pub const PHYS_OFFSET: u64 = 0xFFFF_8000_0000_0000;

/// The virtual address of the kernel image: level-0 entry 510.
pub const KERNEL_BASE: u64 = 0xFFFF_FF00_0000_0000;

/// The identity-mapped span of physical memory.
pub const IDENTITY_SIZE: u64 = 0x2_0000_0000;

/// The largest kernel image that one level-1 table can map.
pub const KERNEL_MAX: u64 = 0x80_0000_0000;

/// The address bits of a table or page descriptor.
pub const ENTRY_ADDRESS_MASK: u64 = 0x000F_FFFF_FFFF_F000;

/// The address bits of a 2 MiB block descriptor.
pub const BLOCK_ADDRESS_MASK: u64 = 0x000F_FFFF_FFE0_0000;

/// The address bits of a 1 GiB block descriptor.
pub const HUGE_ADDRESS_MASK: u64 = 0x000F_FFFF_C000_0000;

/// The descriptor is valid.
pub open spec fn valid(e: u64) -> bool {
    e & PF_PRESENT == PF_PRESENT
}

/// The descriptor points to a table (levels 0 to 2) or is a page (level 3).
pub open spec fn table(e: u64) -> bool {
    e & PF_TABLE == PF_TABLE
}

/// The memory attribute index of a block or page descriptor.
pub open spec fn attr_index(e: u64) -> u64 {
    (e >> 2u64) & 7
}

/// The table index that `v` selects at the level whose pages are `1 << shift` bytes.
pub open spec fn index_of(v: u64, shift: u64) -> u64 {
    (v >> shift) & 0x1ff
}

/// The last descriptor of the walk of `v` under the root table at `root`
/// and the physical address it reaches: `None` where the walk faults.
pub open spec fn walk(t: Map<u64, Seq<u64>>, root: u64, v: u64) -> Option<(u64, u64)> {
    let e0 = pt_entry(t, root, index_of(v, 39));
    if !valid(e0) || !table(e0) {
        None
    } else {
        let e1 = pt_entry(t, e0 & ENTRY_ADDRESS_MASK, index_of(v, 30));
        if !valid(e1) {
            None
        } else if !table(e1) {
            Some((e1, (e1 & HUGE_ADDRESS_MASK) | (v & 0x3fff_ffff)))
        } else {
            let e2 = pt_entry(t, e1 & ENTRY_ADDRESS_MASK, index_of(v, 21));
            if !valid(e2) {
                None
            } else if !table(e2) {
                Some((e2, (e2 & BLOCK_ADDRESS_MASK) | (v & 0x1f_ffff)))
            } else {
                let e3 = pt_entry(t, e2 & ENTRY_ADDRESS_MASK, index_of(v, 12));
                if !valid(e3) || !table(e3) {
                    None
                } else {
                    Some((e3, (e3 & ENTRY_ADDRESS_MASK) | (v & 0xfff)))
                }
            }
        }
    }
}

/// The physical address to which `v` translates.
pub open spec fn translate(t: Map<u64, Seq<u64>>, root: u64, v: u64) -> Option<u64> {
    match walk(t, root, v) {
        Some((_, p)) => Some(p),
        None => None,
    }
}

/// The memory attribute index with which `v` is mapped.
pub open spec fn attr_of(t: Map<u64, Seq<u64>>, root: u64, v: u64) -> Option<u64> {
    match walk(t, root, v) {
        Some((e, _)) => Some(attr_index(e)),
        None => None,
    }
}

/// A block descriptor: it maps memory instead of pointing to a table.
pub open spec fn is_block(e: u64) -> bool {
    !table(e)
}

/// A 2 MiB block descriptor of normal memory at `a`.
pub open spec fn block_ram(a: u64) -> u64 {
    block(a, false)
}

/// A descriptor pointing to the table at `p`.
pub open spec fn link(p: u64) -> u64 {
    p | PF_ACCESS | PF_TABLE | PF_PRESENT
}

/// A 2 MiB block descriptor for `a`, device memory or normal memory.
pub open spec fn block(a: u64, dev: bool) -> u64 {
    a | PF_ACCESS | (if dev { PF_DEV } else { PF_RAM }) | PF_PRESENT
}

/// A page descriptor for normal memory at `p`.
pub open spec fn page(p: u64) -> u64 {
    p | PF_ACCESS | PF_RAM | PF_TABLE | PF_PRESENT
}

/// The address of the `f`-th frame handed out from `base`.
pub open spec fn frame_at(base: u64, f: int) -> u64 {
    (base + f * PAGE_SIZE) as u64
}

/// The number of level-2 tables of a kernel of `size` bytes.
pub open spec fn kernel_l2s(size: u64) -> int {
    (size + 0x3fff_ffff) / 0x4000_0000
}

/// The number of level-3 tables of a kernel of `size` bytes.
pub open spec fn kernel_l3s(size: u64) -> int {
    (size + 0x1f_ffff) / 0x20_0000
}

/// The number of frames that `paging_create` takes for a kernel of `size` bytes.
pub open spec fn create_frames(size: u64) -> int {
    11 + kernel_l2s(size) + kernel_l3s(size)
}

/// The start of the `i`-th 2 MiB block of the `k`-th GiB.
pub open spec fn block_addr(k: int, i: int) -> u64 {
    ((k as u64) << 30u64) | ((i as u64) << 21u64)
}

/// Entry `i` of frame `f` in the tables built from `base`: frame 0 is the
/// root, 1 the identity level-1 table, 2 to 9 its level-2 tables, 10 the
/// kernel's level-1 table, then its level-2 tables, then its level-3 tables.
/// A block of the identity map is device memory when it starts in one of
/// the device regions `dev`.
pub open spec fn layout_entry(base: u64, kphys: u64, ksize: u64, dev: Seq<(u64, u64)>, f: int, i: int) -> u64 {
    let n2 = kernel_l2s(ksize);
    if f == 0 {
        if i == 0 || i == 256 {
            link(frame_at(base, 1))
        } else if i == 510 {
            link(frame_at(base, 10))
        } else {
            0
        }
    } else if f == 1 {
        if i < 8 {
            link(frame_at(base, 2 + i))
        } else {
            0
        }
    } else if f < 10 {
        block(block_addr(f - 2, i), in_regions(dev, block_addr(f - 2, i)))
    } else if f == 10 {
        if i < n2 {
            link(frame_at(base, 11 + i))
        } else {
            0
        }
    } else if f < 11 + n2 {
        let t = (f - 11) * 512 + i;
        if t < kernel_l3s(ksize) {
            link(frame_at(base, 11 + n2 + t))
        } else {
            0
        }
    } else {
        let off = ((((f - 11 - n2) as u64) << 9u64) | (i as u64)) << 12u64;
        if off < ksize {
            page((kphys + off) as u64)
        } else {
            0
        }
    }
}

/// The `f`-th frame of the tables built from `base`.
pub open spec fn layout_frame(base: u64, kphys: u64, ksize: u64, dev: Seq<(u64, u64)>, f: int) -> Seq<u64> {
    Seq::new(512, |i: int| layout_entry(base, kphys, ksize, dev, f, i))
}

/// `t` holds every frame of the layout built from `base`.
pub open spec fn holds_layout(t: Map<u64, Seq<u64>>, base: u64, kphys: u64, ksize: u64, dev: Seq<(u64, u64)>) -> bool {
    forall|f: int|
        0 <= f < create_frames(ksize) ==> #[trigger] t.contains_key(frame_at(base, f)) && t[frame_at(base, f)]
            == layout_frame(base, kphys, ksize, dev, f)
}

proof fn lemma_link_bits(x: u64)
    requires
        x & 0xfff == 0,
        x < 0x10_0000_0000_0000,
    ensures
        valid(link(x)),
        table(link(x)),
        link(x) & ENTRY_ADDRESS_MASK == x,
        valid(page(x)),
        table(page(x)),
        page(x) & ENTRY_ADDRESS_MASK == x,
        attr_index(page(x)) == 0,
{
    assert((x | 0x400 | 2 | 1) & 1 == 1 && (x | 0x400 | 2 | 1) & 2 == 2 && (x | 0x400 | 2 | 1)
        & 0x000F_FFFF_FFFF_F000 == x && (x | 0x400 | 0x300 | 2 | 1) & 1 == 1 && (x | 0x400 | 0x300 | 2 | 1) & 2
        == 2 && (x | 0x400 | 0x300 | 2 | 1) & 0x000F_FFFF_FFFF_F000 == x && ((x | 0x400 | 0x300 | 2 | 1) >> 2u64)
        & 7 == 0) by (bit_vector)
        requires
            x & 0xfff == 0,
            x < 0x10_0000_0000_0000,
    ;
}

proof fn lemma_block_bits(a: u64, dev: bool)
    requires
        a & 0x1f_ffff == 0,
        a < 0x10_0000_0000_0000,
    ensures
        valid(block(a, dev)),
        !table(block(a, dev)),
        block(a, dev) & BLOCK_ADDRESS_MASK == a,
        attr_index(block(a, dev)) == if dev { 2u64 } else { 0u64 },
{
    assert((a | 0x400 | 0x108 | 1) & 1 == 1 && (a | 0x400 | 0x108 | 1) & 2 != 2 && (a | 0x400 | 0x108 | 1)
        & 0x000F_FFFF_FFE0_0000 == a && ((a | 0x400 | 0x108 | 1) >> 2u64) & 7 == 2 && (a | 0x400 | 0x300 | 1) & 1
        == 1 && (a | 0x400 | 0x300 | 1) & 2 != 2 && (a | 0x400 | 0x300 | 1) & 0x000F_FFFF_FFE0_0000 == a && ((a
        | 0x400 | 0x300 | 1) >> 2u64) & 7 == 0) by (bit_vector)
        requires
            a & 0x1f_ffff == 0,
            a < 0x10_0000_0000_0000,
    ;
}

proof fn lemma_frame_at_ok(base: u64, f: int, n: int)
    requires
        base % PAGE_SIZE == 0,
        0 <= f < n,
        base + n * PAGE_SIZE <= PHYS_LIMIT,
    ensures
        frame_addr_ok(frame_at(base, f)),
        frame_at(base, f) & 0xfff == 0,
{
    assert((base + f * 4096) % 4096 == 0) by (nonlinear_arith)
        requires
            base % 4096 == 0,
    ;
    assert(f * 4096 < n * 4096) by (nonlinear_arith)
        requires
            f < n,
    ;
    lemma_page_aligned_bits(frame_at(base, f));
}

/// How the higher-half mirror splits into table indices.
proof fn lemma_offset_indices(x: u64)
    requires
        x < 0x8000_0000_0000,
    ensures
        index_of((x + PHYS_OFFSET) as u64, 39) == 256 + (x >> 39u64),
        index_of((x + PHYS_OFFSET) as u64, 30) == index_of(x, 30),
        index_of((x + PHYS_OFFSET) as u64, 21) == index_of(x, 21),
        ((x + PHYS_OFFSET) as u64) & 0x1f_ffff == x & 0x1f_ffff,
{
    lemma_mirror_indices(x);
}

/// How an address of the identity span splits into table indices.
proof fn lemma_identity_indices(x: u64)
    requires
        x < IDENTITY_SIZE,
    ensures
        index_of(x, 39) == 0,
        index_of(x, 30) == x >> 30u64,
        x >> 30u64 < 8,
        x >> 39u64 == 0,
        ((x >> 30u64) << 30u64 | index_of(x, 21) << 21u64) & 0x1f_ffff == 0,
        ((x >> 30u64) << 30u64 | index_of(x, 21) << 21u64) < 0x10_0000_0000_0000,
        ((x >> 30u64) << 30u64 | index_of(x, 21) << 21u64) | (x & 0x1f_ffff) == x,
        index_of(x, 21) < 512,
{
    assert(((x >> 21u64) & 0x1ff) < 512) by (bit_vector);
    assert(((x >> 39u64) & 0x1ff) == 0 && ((x >> 30u64) & 0x1ff) == (x >> 30u64) && (x >> 30u64) < 8
        && (x >> 39u64) == 0 && (((x >> 30u64) << 30u64 | ((x >> 21u64) & 0x1ff) << 21u64) & 0x1f_ffff) == 0
        && ((x >> 30u64) << 30u64 | ((x >> 21u64) & 0x1ff) << 21u64) < 0x10_0000_0000_0000
        && (((x >> 30u64) << 30u64 | ((x >> 21u64) & 0x1ff) << 21u64) | (x & 0x1f_ffff)) == x)
        by (bit_vector)
        requires
            x < 0x2_0000_0000,
    ;
}

/// How an address of the kernel image splits into table indices.
proof fn lemma_kernel_indices(k: u64)
    requires
        k < KERNEL_MAX,
    ensures
        index_of((k + KERNEL_BASE) as u64, 39) == 510,
        index_of((k + KERNEL_BASE) as u64, 30) == k >> 30u64,
        index_of((k + KERNEL_BASE) as u64, 21) == index_of(k, 21),
        index_of((k + KERNEL_BASE) as u64, 12) == index_of(k, 12),
        ((k + KERNEL_BASE) as u64) & 0xfff == k & 0xfff,
        (k >> 30u64) * 512 + index_of(k, 21) == k >> 21u64,
        ((k >> 21u64) << 9u64 | index_of(k, 12)) << 12u64 == (k >> 12u64) << 12u64,
        (k >> 12u64) << 12u64 <= k,
        k >> 30u64 == k / 0x4000_0000,
        k >> 21u64 == k / 0x20_0000,
        index_of(k, 21) < 512,
        index_of(k, 12) < 512,
{
    lemma_high_kernel_indices(k);
}

/// The walk through the tables built from `base` reaches physical address
/// `x` from `x + PHYS_OFFSET` and from `x` itself, for every `x` of the
/// identity span, through a block with the device attributes exactly when
/// the block starts in a device region.
pub proof fn lemma_layout_identity(
    t: Map<u64, Seq<u64>>,
    base: u64,
    kphys: u64,
    ksize: u64,
    dev: Seq<(u64, u64)>,
    x: u64,
)
    requires
        holds_layout(t, base, kphys, ksize, dev),
        base % PAGE_SIZE == 0,
        base + create_frames(ksize) * PAGE_SIZE <= PHYS_LIMIT,
        x < IDENTITY_SIZE,
    ensures
        translate(t, frame_at(base, 0), (x + PHYS_OFFSET) as u64) == Some(x),
        translate(t, frame_at(base, 0), x) == Some(x),
        attr_of(t, frame_at(base, 0), (x + PHYS_OFFSET) as u64) == Some(
            if in_regions(dev, (x >> 21u64) << 21u64) { 2u64 } else { 0u64 },
        ),
{
    let n = create_frames(ksize);
    let root = frame_at(base, 0);
    let k = x >> 30u64;
    let j = index_of(x, 21);
    lemma_identity_indices(x);
    lemma_offset_indices(x);
    assert(((x >> 30u64) << 30u64 | ((x >> 21u64) & 0x1ff) << 21u64) == (x >> 21u64) << 21u64) by (bit_vector)
        requires
            x < 0x2_0000_0000,
    ;
    assert(t.contains_key(frame_at(base, 0)));
    assert(t.contains_key(frame_at(base, 1)));
    assert(t.contains_key(frame_at(base, 2 + k)));
    lemma_frame_at_ok(base, 1, n);
    lemma_frame_at_ok(base, 2 + k, n);
    lemma_link_bits(frame_at(base, 1));
    lemma_link_bits(frame_at(base, 2 + k));
    let a = block_addr(k as int, j as int);
    assert(a == (x >> 21u64) << 21u64);
    let d = in_regions(dev, a);
    lemma_block_bits(a, d);
    assert(t[frame_at(base, 2 + k)][j as int] == layout_entry(base, kphys, ksize, dev, 2 + k, j as int));
    assert(pt_entry(t, frame_at(base, 2 + k), j) == block(a, d));
    assert(pt_entry(t, frame_at(base, 1), k) == link(frame_at(base, 2 + k)));
    assert(pt_entry(t, root, 256) == link(frame_at(base, 1)));
    assert(pt_entry(t, root, 0) == link(frame_at(base, 1)));
}

/// The walk through the tables built from `base` reaches byte `k` of the
/// kernel image from `KERNEL_BASE + k`, as normal memory.
pub proof fn lemma_layout_kernel(
    t: Map<u64, Seq<u64>>,
    base: u64,
    kphys: u64,
    ksize: u64,
    dev: Seq<(u64, u64)>,
    k: u64,
)
    requires
        holds_layout(t, base, kphys, ksize, dev),
        base % PAGE_SIZE == 0,
        base + create_frames(ksize) * PAGE_SIZE <= PHYS_LIMIT,
        kphys % PAGE_SIZE == 0,
        kphys + ksize <= PHYS_LIMIT,
        ksize <= KERNEL_MAX,
        k < ksize,
    ensures
        translate(t, frame_at(base, 0), (k + KERNEL_BASE) as u64) == Some((kphys + k) as u64),
        attr_of(t, frame_at(base, 0), (k + KERNEL_BASE) as u64) == Some(0u64),
{
    let n = create_frames(ksize);
    let n2 = kernel_l2s(ksize);
    let root = frame_at(base, 0);
    let a = k >> 30u64;
    let b = index_of(k, 21);
    let tt = k >> 21u64;
    let c = index_of(k, 12);
    lemma_kernel_indices(k);
    lemma_page_aligned_bits(kphys);
    lemma_kernel_page(kphys, k);
    assert(a < n2) by (nonlinear_arith)
        requires
            a == k / 0x4000_0000,
            k < ksize,
            n2 == (ksize + 0x3fff_ffff) / 0x4000_0000;
    assert(tt < kernel_l3s(ksize)) by (nonlinear_arith)
        requires
            tt == k / 0x20_0000,
            k < ksize,
            kernel_l3s(ksize) == (ksize + 0x1f_ffff) / 0x20_0000;
    let f2 = 11 + a;
    let f3 = 11 + n2 + tt;
    assert(t.contains_key(frame_at(base, 0)));
    assert(t.contains_key(frame_at(base, 10)));
    assert(t.contains_key(frame_at(base, f2)));
    assert(t.contains_key(frame_at(base, f3)));
    lemma_frame_at_ok(base, 10, n);
    lemma_frame_at_ok(base, f2, n);
    lemma_frame_at_ok(base, f3, n);
    lemma_link_bits(frame_at(base, 10));
    lemma_link_bits(frame_at(base, f2));
    lemma_link_bits(frame_at(base, f3));
    let off = (((tt as u64) << 9u64) | c) << 12u64;
    let pg = (kphys + off) as u64;
    assert(off == (k >> 12u64) << 12u64);
    assert(off < ksize);
    lemma_link_bits(pg);
    assert(t[frame_at(base, f3)][c as int] == layout_entry(base, kphys, ksize, dev, f3, c as int));
    assert(((f3 - 11 - n2) as u64) == tt);
    assert(pt_entry(t, frame_at(base, f3), c) == page(pg));
    assert(t[frame_at(base, f2)][b as int] == layout_entry(base, kphys, ksize, dev, f2, b as int));
    assert((f2 - 11) * 512 + b == tt);
    assert(pt_entry(t, frame_at(base, f2), b) == link(frame_at(base, f3)));
    assert(pt_entry(t, frame_at(base, 10), a) == link(frame_at(base, f2)));
    assert(pt_entry(t, root, 510) == link(frame_at(base, 10)));
}

/// Entry `i` of frame `f` of the layout built from `base`.
fn layout_value(base: u64, kphys: u64, ksize: u64, dev: &[(u64, u64)], f: u64, i: u64) -> (r: u64)
    requires
        f < create_frames(ksize),
        i < 512,
        base + create_frames(ksize) * PAGE_SIZE <= PHYS_LIMIT,
        kphys + ksize <= PHYS_LIMIT,
        ksize <= KERNEL_MAX,
    ensures
        r == layout_entry(base, kphys, ksize, dev@, f as int, i as int),
{
    let n2 = (ksize + 0x3fff_ffff) / 0x4000_0000;
    let n3 = (ksize + 0x1f_ffff) / 0x20_0000;
    if f == 0 {
        if i == 0 || i == 256 {
            (base + PAGE_SIZE) | PF_ACCESS | PF_TABLE | PF_PRESENT
        } else if i == 510 {
            (base + 10 * PAGE_SIZE) | PF_ACCESS | PF_TABLE | PF_PRESENT
        } else {
            0
        }
    } else if f == 1 {
        if i < 8 {
            (base + (2 + i) * PAGE_SIZE) | PF_ACCESS | PF_TABLE | PF_PRESENT
        } else {
            0
        }
    } else if f < 10 {
        let a = ((f - 2) << 30u64) | (i << 21u64);
        if is_in_dev_mem_region(dev, a) {
            a | PF_ACCESS | PF_DEV | PF_PRESENT
        } else {
            a | PF_ACCESS | PF_RAM | PF_PRESENT
        }
    } else if f == 10 {
        if i < n2 {
            (base + (11 + i) * PAGE_SIZE) | PF_ACCESS | PF_TABLE | PF_PRESENT
        } else {
            0
        }
    } else if f < 11 + n2 {
        let t = (f - 11) * 512 + i;
        if t < n3 {
            (base + (11 + n2 + t) * PAGE_SIZE) | PF_ACCESS | PF_TABLE | PF_PRESENT
        } else {
            0
        }
    } else {
        let off = (((f - 11 - n2) << 9u64) | i) << 12u64;
        if off < ksize {
            (kphys + off) | PF_ACCESS | PF_RAM | PF_TABLE | PF_PRESENT
        } else {
            0
        }
    }
}

/// Frame `f` of the layout built from `base`.
fn layout_frame_vec(base: u64, kphys: u64, ksize: u64, dev: &[(u64, u64)], f: u64) -> (r: Vec<u64>)
    requires
        f < create_frames(ksize),
        base + create_frames(ksize) * PAGE_SIZE <= PHYS_LIMIT,
        kphys + ksize <= PHYS_LIMIT,
        ksize <= KERNEL_MAX,
    ensures
        r@ == layout_frame(base, kphys, ksize, dev@, f as int),
{
    let mut v: Vec<u64> = Vec::new();
    let mut i: u64 = 0;
    while i < 512
        invariant
            i <= 512,
            v@.len() == i,
            f < create_frames(ksize),
            base + create_frames(ksize) * PAGE_SIZE <= PHYS_LIMIT,
            kphys + ksize <= PHYS_LIMIT,
            ksize <= KERNEL_MAX,
            forall|j: int| 0 <= j < i ==> v@[j] == layout_entry(base, kphys, ksize, dev@, f as int, j),
        decreases 512 - i,
    {
        let e = layout_value(base, kphys, ksize, dev, f, i);
        v.push(e);
        i = i + 1;
    }
    assert(v@ =~= layout_frame(base, kphys, ksize, dev@, f as int));
    v
}

/// The number of frames that `paging_create` takes for a kernel of `kernel_size` bytes.
pub fn paging_create_frames(kernel_size: u64) -> (r: u64)
    requires
        kernel_size <= KERNEL_MAX,
    ensures
        r == create_frames(kernel_size),
{
    11 + (kernel_size + 0x3fff_ffff) / 0x4000_0000 + (kernel_size + 0x1f_ffff) / 0x20_0000
}

/// Builds the tables that map the first 8 GiB with 2 MiB blocks (at zero and
/// at `PHYS_OFFSET`), with the device attributes for blocks that start in
/// one of the device regions `dev` and as normal memory otherwise, and map
/// the kernel image at `KERNEL_BASE` with 4 KiB pages of normal memory,
/// taking their frames from `alloc`. Returns the tables and the address of
/// the root, or `None` when `alloc` has too few pages left.
#[verifier::spinoff_prover]
pub fn paging_create(alloc: &mut FrameAlloc, kernel_phys: u64, kernel_size: u64, dev: &[(u64, u64)]) -> (r: Option<
    (PageTables, u64),
>)
    requires
        old(alloc).wf(),
        kernel_phys % PAGE_SIZE == 0,
        kernel_phys + kernel_size <= PHYS_LIMIT,
        kernel_size <= KERNEL_MAX,
    ensures
        final(alloc).wf(),
        final(alloc).spec_start() == old(alloc).spec_start(),
        final(alloc).spec_end() == old(alloc).spec_end(),
        r is Some <==> create_frames(kernel_size) <= old(alloc).spec_free_pages(),
        r is None ==> final(alloc).spec_next() == old(alloc).spec_next(),
        r matches Some((t, root)) ==> {
            &&& t.wf()
            &&& root == old(alloc).spec_next()
            &&& final(alloc).spec_next() == old(alloc).spec_next() + create_frames(kernel_size) * PAGE_SIZE
            &&& forall|p: u64| #[trigger] t@.contains_key(p) ==> root <= p < final(alloc).spec_next()
            &&& holds_layout(t@, root, kernel_phys, kernel_size, dev@)
            &&& forall|x: u64| x < IDENTITY_SIZE ==> #[trigger] translate(t@, root, (x + PHYS_OFFSET) as u64) == Some(x)
                && translate(t@, root, x) == Some(x) && attr_of(t@, root, (x + PHYS_OFFSET) as u64) == Some(
                if in_regions(dev@, (x >> 21u64) << 21u64) { 2u64 } else { 0u64 },
            )
            &&& forall|k: u64| k < kernel_size ==> #[trigger] translate(t@, root, (k + KERNEL_BASE) as u64)
                == Some((kernel_phys + k) as u64) && attr_of(t@, root, (k + KERNEL_BASE) as u64) == Some(0u64)
        },
{
    let n = paging_create_frames(kernel_size);
    let base = match alloc.alloc_pages(n) {
        Some(b) => b,
        None => {
            return None;
        },
    };
    let mut t = PageTables::new();
    let mut f: u64 = 0;
    while f < n
        invariant
            n == create_frames(kernel_size),
            f <= n,
            t.wf(),
            base % PAGE_SIZE == 0,
            base + n * PAGE_SIZE <= PHYS_LIMIT,
            kernel_phys + kernel_size <= PHYS_LIMIT,
            kernel_size <= KERNEL_MAX,
            forall|p: u64| #[trigger] t@.contains_key(p) <==> exists|g: int| 0 <= g < f && p == frame_at(base, g),
            forall|g: int| 0 <= g < f ==> #[trigger] t@.contains_key(frame_at(base, g)) && t@[frame_at(base, g)]
                == layout_frame(base, kernel_phys, kernel_size, dev@, g),
        decreases n - f,
    {
        let v = layout_frame_vec(base, kernel_phys, kernel_size, dev, f);
        proof {
            lemma_frame_at_ok(base, f as int, n as int);
            if t@.contains_key(frame_at(base, f as int)) {
                let g = choose|g: int| 0 <= g < f && frame_at(base, f as int) == frame_at(base, g);
                assert(false);
            }
        }
        let ghost before = t@;
        t.add_frame(base + f * PAGE_SIZE, v);
        proof {
            assert forall|g: int| 0 <= g < f + 1 implies #[trigger] t@.contains_key(frame_at(base, g)) && t@[frame_at(base, g)]
                == layout_frame(base, kernel_phys, kernel_size, dev@, g) by {
                if g < f {
                    assert(before.contains_key(frame_at(base, g)));
                    assert(frame_at(base, g) != frame_at(base, f as int));
                } else {
                    assert(frame_at(base, g) == base + f * PAGE_SIZE);
                }
            }
        }
        f = f + 1;
    }
    proof {
        assert forall|p: u64| #[trigger] t@.contains_key(p) implies base <= p < base + n * PAGE_SIZE by {
            let g = choose|g: int| 0 <= g < n && p == frame_at(base, g);
            assert(g * 4096 < n * 4096) by (nonlinear_arith)
                requires g < n;
        }
        assert forall|x: u64| x < IDENTITY_SIZE implies #[trigger] translate(t@, base, (x + PHYS_OFFSET) as u64)
            == Some(x) && translate(t@, base, x) == Some(x) && attr_of(t@, base, (x + PHYS_OFFSET) as u64) == Some(
            if in_regions(dev@, (x >> 21u64) << 21u64) { 2u64 } else { 0u64 },
        ) by {
            lemma_layout_identity(t@, base, kernel_phys, kernel_size, dev@, x);
        }
        assert forall|k: u64| k < kernel_size implies #[trigger] translate(t@, base, (k + KERNEL_BASE) as u64)
            == Some((kernel_phys + k) as u64) && attr_of(t@, base, (k + KERNEL_BASE) as u64) == Some(0u64) by {
            lemma_layout_kernel(t@, base, kernel_phys, kernel_size, dev@, k);
        }
    }
    Some((t, base))
}

/// A frame of zeros.
fn zero_frame() -> (r: Vec<u64>)
    ensures
        r@ == Seq::new(512, |i: int| 0u64),
{
    let mut v: Vec<u64> = Vec::new();
    let mut i: u64 = 0;
    while i < 512
        invariant
            i <= 512,
            v@.len() == i,
            forall|j: int| 0 <= j < i ==> v@[j] == 0u64,
        decreases 512 - i,
    {
        v.push(0);
        i = i + 1;
    }
    assert(v@ =~= Seq::new(512, |i: int| 0u64));
    v
}

/// Growing the tables keeps every walk that already succeeded.
pub proof fn lemma_grow_keeps_walk(old: Map<u64, Seq<u64>>, new: Map<u64, Seq<u64>>, root: u64, v: u64)
    requires
        tables_grow(old, new),
        walk(old, root, v) is Some,
    ensures
        walk(new, root, v) == walk(old, root, v),
{
    let e0 = pt_entry(old, root, index_of(v, 39));
    lemma_low_bit_nonzero(e0);
    assert(pt_entry(new, root, index_of(v, 39)) == e0);
    let e1 = pt_entry(old, e0 & ENTRY_ADDRESS_MASK, index_of(v, 30));
    lemma_low_bit_nonzero(e1);
    assert(pt_entry(new, e0 & ENTRY_ADDRESS_MASK, index_of(v, 30)) == e1);
    if table(e1) {
        let e2 = pt_entry(old, e1 & ENTRY_ADDRESS_MASK, index_of(v, 21));
        lemma_low_bit_nonzero(e2);
        assert(pt_entry(new, e1 & ENTRY_ADDRESS_MASK, index_of(v, 21)) == e2);
        if table(e2) {
            let e3 = pt_entry(old, e2 & ENTRY_ADDRESS_MASK, index_of(v, 12));
            lemma_low_bit_nonzero(e3);
            assert(pt_entry(new, e2 & ENTRY_ADDRESS_MASK, index_of(v, 12)) == e3);
        }
    }
}

/// A framebuffer that reaches above the identity span can be mapped by
/// `paging_framebuffer`: it is 2 MiB aligned, lies within one 512 GiB root
/// slot of the higher half, and the level-1 slots it needs are
/// free, either under an existing level-1 table or under none.
pub open spec fn fb_mappable(t: Map<u64, Seq<u64>>, root: u64, phys: u64, size: u64) -> bool {
    let e4 = pt_entry(t, root, fb_root_index(phys));
    &&& phys % 0x20_0000 == 0
    &&& phys / 0x80_0000_0000 < 256
    &&& phys % 0x80_0000_0000 + size <= 0x80_0000_0000
    &&& e4 == 0 || {
        &&& valid(e4)
        &&& !is_block(e4)
        &&& t.contains_key(e4 & ENTRY_ADDRESS_MASK)
        &&& forall|s: int| 0 <= s < fb_slots(phys, size) ==> #[trigger] pt_entry(t, e4 & ENTRY_ADDRESS_MASK, (fb_first_slot(phys) + s) as u64) == 0
    }
}

/// The frames that `paging_framebuffer` takes.
pub open spec fn fb_frames(t: Map<u64, Seq<u64>>, root: u64, phys: u64, size: u64) -> int {
    if pt_entry(t, root, fb_root_index(phys)) == 0 { 1 + fb_slots(phys, size) } else { fb_slots(phys, size) }
}

/// Entry `j` of the `s`-th level-2 table that `paging_framebuffer` adds:
/// the 2 MiB page at its address when that page belongs to the framebuffer.
pub open spec fn fb_pd_entry(phys: u64, size: u64, s: int, j: int) -> u64 {
    let a = ((((phys >> 30u64) + (s as u64)) as u64) << 30u64) | ((j as u64) << 21u64);
    if phys <= a && a < phys + size {
        block_ram(a)
    } else {
        0
    }
}

/// The `s`-th level-2 table that `paging_framebuffer` adds.
pub open spec fn fb_pd_frame(phys: u64, size: u64, s: int) -> Seq<u64> {
    Seq::new(512, |j: int| fb_pd_entry(phys, size, s, j))
}

/// Growth is transitive.
proof fn lemma_grow_trans(a: Map<u64, Seq<u64>>, b: Map<u64, Seq<u64>>, c: Map<u64, Seq<u64>>)
    requires
        tables_grow(a, b),
        tables_grow(b, c),
    ensures
        tables_grow(a, c),
{
    assert forall|table: u64, i: u64| #[trigger] pt_entry(c, table, i) == pt_entry(a, table, i) || pt_entry(a, table, i) == 0 by {
        assert(pt_entry(b, table, i) == pt_entry(a, table, i) || pt_entry(a, table, i) == 0);
        assert(pt_entry(c, table, i) == pt_entry(b, table, i) || pt_entry(b, table, i) == 0);
    }
}

/// Adding a frame at a fresh address is growth.
proof fn lemma_grow_insert(t: Map<u64, Seq<u64>>, p: u64, e: Seq<u64>)
    requires
        !t.contains_key(p),
    ensures
        tables_grow(t, t.insert(p, e)),
        forall|tb: u64, k: u64| tb != p ==> #[trigger] pt_entry(t.insert(p, e), tb, k) == pt_entry(t, tb, k),
{
    assert forall|tb: u64, k: u64| tb != p implies #[trigger] pt_entry(t.insert(p, e), tb, k) == pt_entry(t, tb, k) by {
        if t.contains_key(tb) {
            assert(t.insert(p, e)[tb] == t[tb]);
        }
    }
    assert forall|table: u64, i: u64| #[trigger] pt_entry(t.insert(p, e), table, i) == pt_entry(t, table, i) || pt_entry(t, table, i) == 0 by {
        if table != p && t.contains_key(table) {
            assert(t.insert(p, e)[table] == t[table]);
        }
    }
}

/// Filling a zero entry is growth.
proof fn lemma_grow_fill(t: Map<u64, Seq<u64>>, table: u64, i: u64, v: u64)
    requires
        t.contains_key(table),
        pt_entry(t, table, i) == 0,
        i < t[table].len(),
    ensures
        tables_grow(t, t.insert(table, t[table].update(i as int, v))),
        pt_entry(t.insert(table, t[table].update(i as int, v)), table, i) == v,
        forall|tb: u64, k: u64| (tb != table || k != i) ==> #[trigger] pt_entry(t.insert(table, t[table].update(i as int, v)), tb, k) == pt_entry(t, tb, k),
{
    let n = t.insert(table, t[table].update(i as int, v));
    assert forall|tb: u64, k: u64| (tb != table || k != i) implies #[trigger] pt_entry(n, tb, k) == pt_entry(t, tb, k) by {
        if tb == table {
            assert(n[tb] == t[table].update(i as int, v));
        } else if t.contains_key(tb) {
            assert(n[tb] == t[tb]);
        }
    }
    assert forall|tb: u64, k: u64| #[trigger] pt_entry(n, tb, k) == pt_entry(t, tb, k) || pt_entry(t, tb, k) == 0 by {
        if tb != table || k != i {
            assert(pt_entry(n, tb, k) == pt_entry(t, tb, k));
        }
    }
}

/// Entry `j` of the `s`-th added level-2 table.
fn fb_pd_value(phys: u64, size: u64, s: u64, j: u64) -> (r: u64)
    requires
        phys + size <= u64::MAX,
        phys / 0x80_0000_0000 < 256,
        s < 512,
        j < 512,
    ensures
        r == fb_pd_entry(phys, size, s as int, j as int),
{
    assert((phys >> 30u64) + s < 0x40_0000) by (bit_vector)
        requires
            phys / 0x80_0000_0000 < 256,
            s < 512,
    ;
    let a = (((phys >> 30u64) + s) << 30u64) | (j << 21u64);
    if phys <= a && a < phys + size {
        a | PF_ACCESS | PF_RAM | PF_PRESENT
    } else {
        0
    }
}

/// The `s`-th level-2 table that `paging_framebuffer` adds.
fn fb_pd_vec(phys: u64, size: u64, s: u64) -> (r: Vec<u64>)
    requires
        phys + size <= u64::MAX,
        phys / 0x80_0000_0000 < 256,
        s < 512,
    ensures
        r@ == fb_pd_frame(phys, size, s as int),
{
    let mut v: Vec<u64> = Vec::new();
    let mut j: u64 = 0;
    while j < 512
        invariant
            j <= 512,
            v@.len() == j,
            phys + size <= u64::MAX,
            phys / 0x80_0000_0000 < 256,
            s < 512,
            forall|k: int| 0 <= k < j ==> v@[k] == fb_pd_entry(phys, size, s as int, k),
        decreases 512 - j,
    {
        v.push(fb_pd_value(phys, size, s, j));
        j = j + 1;
    }
    assert(v@ =~= fb_pd_frame(phys, size, s as int));
    v
}

/// Maps the framebuffer of `fb_size` bytes at `fb_phys` at `fb_phys +
/// PHYS_OFFSET` in the tables rooted at `root`, with 2 MiB blocks of normal
/// memory as in the identity map, taking new frames from `alloc`, and
/// returns that virtual address. A framebuffer within the
/// identity span is already mapped: nothing changes and nothing is taken.
/// Returns `None`, with nothing changed, when `alloc` has too few pages.
#[verifier::spinoff_prover]
pub fn paging_framebuffer(
    tables: &mut PageTables,
    alloc: &mut FrameAlloc,
    root: u64,
    fb_phys: u64,
    fb_size: u64,
) -> (r: Option<u64>)
    requires
        old(tables).wf(),
        old(alloc).wf(),
        old(tables)@.contains_key(root),
        forall|p: u64| #[trigger] old(tables)@.contains_key(p) ==> p < old(alloc).spec_next() || p >= old(alloc).spec_end(),
        fb_phys + fb_size <= u64::MAX,
        fb_phys + fb_size > IDENTITY_SIZE ==> fb_mappable(old(tables)@, root, fb_phys, fb_size),
    ensures
        final(tables).wf(),
        final(alloc).wf(),
        final(alloc).spec_start() == old(alloc).spec_start(),
        final(alloc).spec_end() == old(alloc).spec_end(),
        fb_phys + fb_size <= IDENTITY_SIZE ==> r == Some((fb_phys + PHYS_OFFSET) as u64) && final(tables)@ == old(tables)@
            && final(alloc).spec_next() == old(alloc).spec_next(),
        fb_phys + fb_size > IDENTITY_SIZE ==> (r is Some <==> fb_frames(old(tables)@, root, fb_phys, fb_size)
            <= old(alloc).spec_free_pages()),
        r is None ==> final(tables)@ == old(tables)@ && final(alloc).spec_next() == old(alloc).spec_next(),
        fb_phys + fb_size > IDENTITY_SIZE && r is Some ==> {
            &&& r == Some((fb_phys + PHYS_OFFSET) as u64)
            &&& final(alloc).spec_next() == old(alloc).spec_next() + fb_frames(old(tables)@, root, fb_phys, fb_size)
                * PAGE_SIZE
            &&& tables_grow(old(tables)@, final(tables)@)
            &&& forall|p: u64| #[trigger] final(tables)@.contains_key(p) ==> old(tables)@.contains_key(p) || (
            old(alloc).spec_next() <= p < final(alloc).spec_next())
            &&& forall|f: u64| f < fb_size ==> #[trigger] translate(final(tables)@, root, (fb_phys + f + PHYS_OFFSET) as u64)
                == Some((fb_phys + f) as u64)
        },
{
    if fb_phys + fb_size <= IDENTITY_SIZE {
        return Some(fb_phys + PHYS_OFFSET);
    }
    let ghost old_t = tables@;
    let pi = 256 + fb_phys / 0x80_0000_0000;
    let g0 = (fb_phys / 0x4000_0000) % 512;
    let count = ((fb_phys % 0x4000_0000) + fb_size + 0x3fff_ffff) / 0x4000_0000;
    let e4 = tables.entry(root, pi as usize);
    let needed = if e4 == 0 { 1 + count } else { count };
    let base = match alloc.alloc_pages(needed) {
        Some(b) => b,
        None => {
            return None;
        },
    };
    proof {
        assert(g0 + count <= 512) by (nonlinear_arith)
            requires
                g0 == (fb_phys / 0x4000_0000) % 512,
                count == ((fb_phys % 0x4000_0000) + fb_size + 0x3fff_ffff) / 0x4000_0000,
                fb_phys % 0x80_0000_0000 + fb_size <= 0x80_0000_0000,
        {
            assert(fb_phys % 0x80_0000_0000 == ((fb_phys / 0x4000_0000) % 512) * 0x4000_0000 + fb_phys % 0x4000_0000) by (nonlinear_arith);
        }
        assert(needed * 4096 <= alloc.spec_end() - base);
        old(tables).lemma_wf_view();
    }
    let ghost nbase: u64 = if e4 == 0 { (base + PAGE_SIZE) as u64 } else { base };
    let pdp = if e4 == 0 {
        let z = zero_frame();
        proof {
            lemma_page_aligned_bits(base);
            lemma_grow_insert(tables@, base, z@);
        }
        tables.add_frame(base, z);
        let ghost mid = tables@;
        proof {
            lemma_link_bits(base);
        }
        tables.set_entry(root, pi as usize, base | PF_ACCESS | PF_TABLE | PF_PRESENT);
        proof {
            lemma_grow_fill(mid, root, pi, base | PF_ACCESS | PF_TABLE | PF_PRESENT);
            lemma_grow_trans(old_t, mid, tables@);
        }
        base
    } else {
        e4 & ENTRY_ADDRESS_MASK
    };
    proof {
        assert(g0 == fb_first_slot(fb_phys));
        assert(count == fb_slots(fb_phys, fb_size));
        if e4 == 0 {
            assert(root != base);
            assert forall|q: int| 0 <= q < count implies #[trigger] pt_entry(tables@, pdp, (g0 + q) as u64) == 0 by {
                assert(tables@[base] =~= Seq::new(512, |i: int| 0u64));
            }
        } else {
            assert(tables@ == old_t);
            assert forall|q: int| 0 <= q < count implies #[trigger] pt_entry(tables@, pdp, (g0 + q) as u64) == 0 by {
                assert(pt_entry(old_t, e4 & ENTRY_ADDRESS_MASK, (fb_first_slot(fb_phys) + q) as u64) == 0);
            }
        }
    }
    let mut s: u64 = 0;
    while s < count
        invariant
            tables.wf(),
            alloc.wf(),
            old(tables).wf(),
            0 <= s <= count,
            g0 + count <= 512,
            g0 == fb_first_slot(fb_phys),
            pi == fb_root_index(fb_phys),
            count == fb_slots(fb_phys, fb_size),
            fb_phys + fb_size <= u64::MAX,
            fb_phys / 0x80_0000_0000 < 256,
            nbase + count * PAGE_SIZE <= alloc.spec_end(),
            nbase == (if e4 == 0 { base + PAGE_SIZE } else { base as int }),
            e4 == 0 ==> pdp == base,
            e4 != 0 ==> old_t.contains_key(pdp),
            base % PAGE_SIZE == 0,
            old(alloc).spec_next() == base,
            alloc.spec_end() <= PHYS_LIMIT,
            forall|p: u64| #[trigger] old_t.contains_key(p) ==> p < base || p >= alloc.spec_end(),
            tables@.contains_key(pdp),
            pdp == base || old_t.contains_key(pdp),
            valid(pt_entry(tables@, root, pi)),
            !is_block(pt_entry(tables@, root, pi)),
            pt_entry(tables@, root, pi) & ENTRY_ADDRESS_MASK == pdp,
            tables_grow(old_t, tables@),
            forall|q: int| s <= q < count ==> #[trigger] pt_entry(tables@, pdp, (g0 + q) as u64) == 0,
            forall|q: int| 0 <= q < s ==> #[trigger] pt_entry(tables@, pdp, (g0 + q) as u64) == link(frame_at(nbase, q)),
            forall|q: int| 0 <= q < s ==> #[trigger] tables@.contains_key(frame_at(nbase, q))
                && tables@[frame_at(nbase, q)] == fb_pd_frame(fb_phys, fb_size, q),
            forall|p: u64| #[trigger] tables@.contains_key(p) ==> old_t.contains_key(p) || (base <= p < nbase + s * PAGE_SIZE),
            forall|p: u64| #[trigger] tables@.contains_key(p) ==> frame_addr_ok(p) && tables@[p].len() == 512,
        decreases count - s,
    {
        let pd = nbase_of(base, e4 == 0) + s * PAGE_SIZE;
        let v = fb_pd_vec(fb_phys, fb_size, s);
        proof {
            assert(pd == nbase + s * PAGE_SIZE);
            assert(s * 4096 < count * 4096) by (nonlinear_arith)
                requires
                    s < count;
            assert(pd < alloc.spec_end());
            assert(!old_t.contains_key(pd));
            assert(!tables@.contains_key(pd));
            assert((pd as int) % 4096 == 0) by (nonlinear_arith)
                requires
                    pd == nbase + s * 4096,
                    nbase % 4096 == 0;
            lemma_grow_insert(tables@, pd, v@);
        }
        let ghost before = tables@;
        let ghost vv = v@;
        tables.add_frame(pd, v);
        proof {
            lemma_grow_trans(old_t, before, tables@);
            tables.lemma_wf_view();
            assert(pt_entry(before, pdp, (g0 + s) as u64) == 0);
            assert(pt_entry(tables@, pdp, (g0 + s) as u64) == 0);
            let e = pt_entry(before, root, pi);
            lemma_low_bit_nonzero(e);
            assert(pt_entry(tables@, root, pi) == e);
        }
        let ghost mid = tables@;
        proof {
            let e = pt_entry(mid, root, pi);
            lemma_low_bit_nonzero(e);
        }
        tables.set_entry(pdp, (g0 + s) as usize, pd | PF_ACCESS | PF_TABLE | PF_PRESENT);
        proof {
            lemma_grow_fill(mid, pdp, (g0 + s) as u64, pd | PF_ACCESS | PF_TABLE | PF_PRESENT);
            lemma_grow_trans(old_t, mid, tables@);
            assert(pdp != pd);
            assert forall|q: int| s + 1 <= q < count implies #[trigger] pt_entry(tables@, pdp, (g0 + q) as u64) == 0 by {
                assert(pt_entry(before, pdp, (g0 + q) as u64) == 0);
                assert(pt_entry(mid, pdp, (g0 + q) as u64) == 0);
            }
            assert forall|q: int| 0 <= q < s + 1 implies #[trigger] pt_entry(tables@, pdp, (g0 + q) as u64) == link(frame_at(nbase, q)) by {
                if q < s {
                    assert(pt_entry(before, pdp, (g0 + q) as u64) == link(frame_at(nbase, q)));
                    assert(pt_entry(mid, pdp, (g0 + q) as u64) == link(frame_at(nbase, q)));
                }
            }
            assert forall|q: int| 0 <= q < s + 1 implies #[trigger] tables@.contains_key(frame_at(nbase, q))
                && tables@[frame_at(nbase, q)] == fb_pd_frame(fb_phys, fb_size, q) by {
                let pq = frame_at(nbase, q);
                assert(pq >= nbase);
                assert(pq < alloc.spec_end()) by (nonlinear_arith)
                    requires
                        pq == nbase + q * 4096,
                        q < count,
                        nbase + count * 4096 <= alloc.spec_end();
                assert(!old_t.contains_key(pq));
                assert(pq != pdp);
                if q < s {
                    assert(before.contains_key(pq));
                    assert(pq != pd);
                    assert(mid[pq] == before[pq]);
                    assert(tables@[pq] == mid[pq]);
                } else {
                    assert(pq == pd);
                    assert(mid[pd] == vv);
                    assert(tables@[pq] == mid[pq]);
                }
            }
        }
        proof {
            assert(tables@.contains_key(frame_at(nbase, s as int)));
            assert(tables@[frame_at(nbase, s as int)] == fb_pd_frame(fb_phys, fb_size, s as int));
            assert(forall|q: int| 0 <= q < s + 1 ==> #[trigger] tables@.contains_key(frame_at(nbase, q))
                && tables@[frame_at(nbase, q)] == fb_pd_frame(fb_phys, fb_size, q));
        }
        s = s + 1;
    }
    proof {
        assert forall|f: u64| f < fb_size implies #[trigger] translate(tables@, root, (fb_phys + f + PHYS_OFFSET) as u64)
            == Some((fb_phys + f) as u64) by {
            let x = (fb_phys + f) as u64;
            lemma_fb_indices(fb_phys, fb_size, x);
            lemma_offset_indices(x);
            let q = (x >> 30u64) - (fb_phys >> 30u64);
            let pd = frame_at(nbase, q);
            assert(pt_entry(tables@, pdp, (g0 + q) as u64) == link(pd));
            assert(tables@.contains_key(pd));
            lemma_page_aligned_bits(pd);
            lemma_link_bits(pd);
            let j = index_of(x, 21);
            let a = (x >> 21u64) << 21u64;
            assert((((fb_phys >> 30u64) + (q as u64)) as u64) == x >> 30u64);
            assert(tables@[pd][j as int] == fb_pd_entry(fb_phys, fb_size, q, j as int));
            lemma_block_bits(a, false);
            assert(pt_entry(tables@, pd, j) == block_ram(a));
        }
    }
    Some(fb_phys + PHYS_OFFSET)
}

/// The first frame that receives a level-2 table.
fn nbase_of(base: u64, with_pdp: bool) -> (r: u64)
    requires
        base + PAGE_SIZE <= u64::MAX,
    ensures
        r == if with_pdp { base + PAGE_SIZE } else { base as int },
{
    if with_pdp {
        base + PAGE_SIZE
    } else {
        base
    }
}

} // verus!
