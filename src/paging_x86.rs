//! 32-bit x86 paging without PAE: one page directory of 1024 entries that
//! maps the first GiB with 4 MiB pages, at zero and mirrored at
//! `PHYS_OFFSET`, the kernel image with 4 KiB pages at `KERNEL_BASE`, and
//! the framebuffer at `FRAMEBUFFER_BASE`.
//!
//! A table frame holds 1024 entries of 32 bits; as a frame of 512 64-bit
//! words, entry `2k` is the low half of word `k` and entry `2k + 1` its high
//! half, which is how the two lie in memory.

use vstd::prelude::*;

use crate::paging::{frame_addr_ok, pt_entry, FrameAlloc, PageTables, PAGE_SIZE};

verus! {

/// Where the identity-mapped GiB is mirrored.
pub const PHYS_OFFSET: u32 = 0x8000_0000;

/// The virtual address of the kernel image.
pub const KERNEL_BASE: u32 = 0xC000_0000;

/// The virtual address of the framebuffer.
pub const FRAMEBUFFER_BASE: u32 = 0xD000_0000;

/// The identity-mapped span of physical memory.
pub const IDENTITY_SIZE: u32 = 0x4000_0000;

/// The largest kernel image that fits below the framebuffer.
pub const KERNEL_MAX: u64 = 0x1000_0000;

/// The largest framebuffer that fits above `FRAMEBUFFER_BASE`.
pub const FRAMEBUFFER_MAX: u64 = 0x3000_0000;

pub const PRESENT: u32 = 1;
pub const WRITABLE: u32 = 2;
/// A directory entry that maps a 4 MiB page.
pub const LARGE: u32 = 0x80;

/// Two 32-bit entries as the 64-bit word they share.
pub open spec fn pack(lo: u32, hi: u32) -> u64 {
    (lo as u64) | ((hi as u64) << 32u64)
}

/// Entry `i` of the frame at `table`.
pub open spec fn entry32(t: Map<u64, Seq<u64>>, table: u64, i: u32) -> u32 {
    let w = pt_entry(t, table, (i / 2) as u64);
    if i % 2 == 0 {
        (w & 0xffff_ffff) as u32
    } else {
        (w >> 32u64) as u32
    }
}

/// The physical address to which `v` translates under the directory at
/// `root`: `None` where the walk faults.
pub open spec fn translate(t: Map<u64, Seq<u64>>, root: u64, v: u32) -> Option<u32> {
    let pde = entry32(t, root, v >> 22u32);
    if pde & PRESENT != PRESENT {
        None
    } else if pde & LARGE == LARGE {
        Some((pde & 0xFFC0_0000) | (v & 0x3F_FFFF))
    } else {
        let pte = entry32(t, (pde & 0xFFFF_F000) as u64, (v >> 12u32) & 0x3ff);
        if pte & PRESENT != PRESENT {
            None
        } else {
            Some((pte & 0xFFFF_F000) | (v & 0xfff))
        }
    }
}

/// An entry pointing to the table (or 4 KiB page) at `p`.
pub open spec fn link(p: u32) -> u32 {
    p | WRITABLE | PRESENT
}

/// A directory entry mapping the 4 MiB page at `a`.
pub open spec fn large_page(a: u32) -> u32 {
    a | LARGE | WRITABLE | PRESENT
}

/// The address of the `f`-th frame handed out from `base`.
pub open spec fn frame_at(base: u64, f: int) -> u64 {
    (base + f * PAGE_SIZE) as u64
}

/// The number of page tables of a kernel of `size` bytes.
pub open spec fn kernel_tables(size: u64) -> int {
    (size + 0x3f_ffff) / 0x40_0000
}

/// The number of frames that `paging_create` takes for a kernel of `size` bytes.
pub open spec fn create_frames(size: u64) -> int {
    1 + kernel_tables(size)
}

/// Entry `i` of frame `f` of the tables built from `base`: frame 0 is the
/// directory, the others the kernel's page tables.
pub open spec fn layout_entry(base: u64, kphys: u64, ksize: u64, f: int, i: int) -> u32 {
    if f == 0 {
        if i < 256 {
            large_page(((i as u32) << 22u32) as u32)
        } else if 512 <= i < 768 {
            large_page((((i - 512) as u32) << 22u32) as u32)
        } else if 768 <= i < 768 + kernel_tables(ksize) {
            link(frame_at(base, 1 + i - 768) as u32)
        } else {
            0
        }
    } else {
        let off = (f - 1) * 0x40_0000 + i * 0x1000;
        if off < ksize {
            link((kphys + off) as u32)
        } else {
            0
        }
    }
}

/// Frame `f` of the tables built from `base`, as 64-bit words.
pub open spec fn layout_frame(base: u64, kphys: u64, ksize: u64, f: int) -> Seq<u64> {
    Seq::new(512, |k: int| pack(layout_entry(base, kphys, ksize, f, 2 * k), layout_entry(base, kphys, ksize, f, 2 * k + 1)))
}

/// `t` holds every frame of the layout built from `base`.
pub open spec fn holds_layout(t: Map<u64, Seq<u64>>, base: u64, kphys: u64, ksize: u64) -> bool {
    forall|f: int|
        0 <= f < create_frames(ksize) ==> #[trigger] t.contains_key(frame_at(base, f)) && t[frame_at(base, f)]
            == layout_frame(base, kphys, ksize, f)
}

proof fn lemma_pack(lo: u32, hi: u32)
    ensures
        (pack(lo, hi) & 0xffff_ffff) as u32 == lo,
        (pack(lo, hi) >> 32u64) as u32 == hi,
{
    assert((((lo as u64) | ((hi as u64) << 32u64)) & 0xffff_ffff) as u32 == lo && (((lo as u64) | ((hi as u64)
        << 32u64)) >> 32u64) as u32 == hi) by (bit_vector);
}

/// Entry `i` of a frame of the layout.
proof fn lemma_entry32(t: Map<u64, Seq<u64>>, base: u64, kphys: u64, ksize: u64, f: int, i: u32)
    requires
        holds_layout(t, base, kphys, ksize),
        0 <= f < create_frames(ksize),
        i < 1024,
    ensures
        entry32(t, frame_at(base, f), i) == layout_entry(base, kphys, ksize, f, i as int),
{
    let k = (i / 2) as int;
    assert(t.contains_key(frame_at(base, f)));
    let w = t[frame_at(base, f)][k];
    assert(w == pack(layout_entry(base, kphys, ksize, f, 2 * k), layout_entry(base, kphys, ksize, f, 2 * k + 1)));
    lemma_pack(layout_entry(base, kphys, ksize, f, 2 * k), layout_entry(base, kphys, ksize, f, 2 * k + 1));
}

proof fn lemma_link_bits(x: u32)
    requires
        x & 0xfff == 0,
    ensures
        link(x) & PRESENT == PRESENT,
        link(x) & LARGE != LARGE,
        link(x) & 0xFFFF_F000 == x,
{
    assert((x | 2 | 1) & 1 == 1 && (x | 2 | 1) & 0x80 != 0x80 && (x | 2 | 1) & 0xFFFF_F000 == x) by (bit_vector)
        requires
            x & 0xfff == 0,
    ;
}

proof fn lemma_frame_at_ok(base: u64, f: int, n: int)
    requires
        base % PAGE_SIZE == 0,
        0 <= f < n,
        base + n * PAGE_SIZE <= 0x1_0000_0000,
    ensures
        frame_addr_ok(frame_at(base, f)),
        (frame_at(base, f) as u32) & 0xfff == 0,
        frame_at(base, f) < 0x1_0000_0000,
        (frame_at(base, f) as u32) as u64 == frame_at(base, f),
{
    assert((base + f * 4096) % 4096 == 0) by (nonlinear_arith)
        requires
            base % 4096 == 0,
    ;
    assert(f * 4096 < n * 4096) by (nonlinear_arith)
        requires
            f < n,
    ;
    let x = frame_at(base, f);
    assert((x as u32) & 0xfff == 0) by (bit_vector)
        requires
            x % 4096 == 0,
            x < 0x1_0000_0000,
    ;
}

/// The walk through the tables built from `base` reaches physical address
/// `x` from `x` and from `x + PHYS_OFFSET`, for every `x` of the first GiB.
pub proof fn lemma_layout_identity(t: Map<u64, Seq<u64>>, base: u64, kphys: u64, ksize: u64, x: u32)
    requires
        holds_layout(t, base, kphys, ksize),
        x < IDENTITY_SIZE,
    ensures
        translate(t, frame_at(base, 0), x) == Some(x),
        translate(t, frame_at(base, 0), (x + PHYS_OFFSET) as u32) == Some(x),
{
    let v = (x + PHYS_OFFSET) as u32;
    let i = x >> 22u32;
    let a = (i << 22u32) as u32;
    assert(i < 256 && v >> 22u32 == 512 + i && a & 0x3f_ffff == 0 && (a | 0x80 | 2 | 1) & 1 == 1 && (a | 0x80
        | 2 | 1) & 0x80 == 0x80 && ((a | 0x80 | 2 | 1) & 0xFFC0_0000) | (x & 0x3F_FFFF) == x && v & 0x3F_FFFF
        == x & 0x3F_FFFF) by (bit_vector)
        requires
            x < 0x4000_0000,
            v == x + 0x8000_0000,
            i == x >> 22u32,
            a == i << 22u32,
    ;
    lemma_entry32(t, base, kphys, ksize, 0, i);
    lemma_entry32(t, base, kphys, ksize, 0, (512 + i) as u32);
    assert((((512 + i) as u32 - 512) as u32) == i);
}

/// The walk through the tables built from `base` reaches byte `k` of the
/// kernel image from `KERNEL_BASE + k`.
pub proof fn lemma_layout_kernel(t: Map<u64, Seq<u64>>, base: u64, kphys: u64, ksize: u64, k: u32)
    requires
        holds_layout(t, base, kphys, ksize),
        base % PAGE_SIZE == 0,
        base + create_frames(ksize) * PAGE_SIZE <= 0x1_0000_0000,
        kphys % PAGE_SIZE == 0,
        kphys + ksize <= 0x1_0000_0000,
        ksize <= KERNEL_MAX,
        k < ksize,
    ensures
        translate(t, frame_at(base, 0), (k + KERNEL_BASE) as u32) == Some((kphys + k) as u32),
{
    let n = create_frames(ksize);
    let v = (k + KERNEL_BASE) as u32;
    let pt = k >> 22u32;
    let j = (k >> 12u32) & 0x3ff;
    assert(v >> 22u32 == 768 + pt && (v >> 12u32) & 0x3ff == j && v & 0xfff == k & 0xfff && pt < 64 && j < 1024
        && pt * 0x40_0000 + j * 0x1000 == (k >> 12u32) << 12u32 && (k >> 12u32) << 12u32 <= k && pt == k
        / 0x40_0000) by (bit_vector)
        requires
            k < 0x1000_0000,
            v == k + 0xC000_0000,
            pt == k >> 22u32,
            j == (k >> 12u32) & 0x3ff,
    ;
    assert(pt < kernel_tables(ksize)) by (nonlinear_arith)
        requires
            pt == k / 0x40_0000,
            k < ksize,
            kernel_tables(ksize) == (ksize + 0x3f_ffff) / 0x40_0000;
    lemma_frame_at_ok(base, 1 + pt, n);
    let ptf = frame_at(base, 1 + pt);
    lemma_link_bits(ptf as u32);
    lemma_entry32(t, base, kphys, ksize, 0, (768 + pt) as u32);
    lemma_entry32(t, base, kphys, ksize, 1 + pt, j);
    let off = (k >> 12u32) << 12u32;
    let pg = (kphys + off) as u32;
    let kp = kphys as u32;
    assert(kp & 0xfff == 0) by (bit_vector)
        requires
            kphys % 4096 == 0,
            kphys < 0x1_0000_0000,
            kp == kphys as u32,
    ;
    assert(pg & 0xfff == 0 && pg | (k & 0xfff) == kp + k) by (bit_vector)
        requires
            kp & 0xfff == 0,
            (kp as int) + (k as int) <= 0xffff_ffff,
            off == (k >> 12u32) << 12u32,
            pg == kp + off,
    ;
    lemma_link_bits(pg);
}

/// Entry `i` of frame `f` of the layout built from `base`.
fn layout_value(base: u64, kphys: u64, ksize: u64, f: u64, i: u64) -> (r: u32)
    requires
        f < create_frames(ksize),
        i < 1024,
        base + create_frames(ksize) * PAGE_SIZE <= 0x1_0000_0000,
        kphys + ksize <= 0x1_0000_0000,
        ksize <= KERNEL_MAX,
    ensures
        r == layout_entry(base, kphys, ksize, f as int, i as int),
{
    let tables = (ksize + 0x3f_ffff) / 0x40_0000;
    if f == 0 {
        if i < 256 {
            ((i as u32) << 22u32) | LARGE | WRITABLE | PRESENT
        } else if 512 <= i && i < 768 {
            (((i - 512) as u32) << 22u32) | LARGE | WRITABLE | PRESENT
        } else if 768 <= i && i < 768 + tables {
            ((base + (1 + i - 768) * PAGE_SIZE) as u32) | WRITABLE | PRESENT
        } else {
            0
        }
    } else {
        let off = (f - 1) * 0x40_0000 + i * 0x1000;
        if off < ksize {
            ((kphys + off) as u32) | WRITABLE | PRESENT
        } else {
            0
        }
    }
}

/// Frame `f` of the layout built from `base`, as 64-bit words.
fn layout_frame_vec(base: u64, kphys: u64, ksize: u64, f: u64) -> (r: Vec<u64>)
    requires
        f < create_frames(ksize),
        base + create_frames(ksize) * PAGE_SIZE <= 0x1_0000_0000,
        kphys + ksize <= 0x1_0000_0000,
        ksize <= KERNEL_MAX,
    ensures
        r@ == layout_frame(base, kphys, ksize, f as int),
{
    let mut v: Vec<u64> = Vec::new();
    let mut k: u64 = 0;
    while k < 512
        invariant
            k <= 512,
            v@.len() == k,
            f < create_frames(ksize),
            base + create_frames(ksize) * PAGE_SIZE <= 0x1_0000_0000,
            kphys + ksize <= 0x1_0000_0000,
            ksize <= KERNEL_MAX,
            forall|j: int| 0 <= j < k ==> v@[j] == pack(layout_entry(base, kphys, ksize, f as int, 2 * j), layout_entry(base, kphys, ksize, f as int, 2 * j + 1)),
        decreases 512 - k,
    {
        let lo = layout_value(base, kphys, ksize, f, 2 * k);
        let hi = layout_value(base, kphys, ksize, f, 2 * k + 1);
        v.push((lo as u64) | ((hi as u64) << 32u64));
        k = k + 1;
    }
    assert(v@ =~= layout_frame(base, kphys, ksize, f as int));
    v
}

/// The number of frames that `paging_create` takes for a kernel of `kernel_size` bytes.
pub fn paging_create_frames(kernel_size: u64) -> (r: u64)
    requires
        kernel_size <= KERNEL_MAX,
    ensures
        r == create_frames(kernel_size),
{
    1 + (kernel_size + 0x3f_ffff) / 0x40_0000
}

/// Builds the page directory that maps the first GiB with 4 MiB pages at
/// zero and at `PHYS_OFFSET` and the kernel image at `KERNEL_BASE`, taking
/// its frames from `alloc`, which must lie below 4 GiB. Returns the tables
/// and the address of the directory, or `None` when `alloc` has too few
/// pages left.
#[verifier::spinoff_prover]
pub fn paging_create(alloc: &mut FrameAlloc, kernel_phys: u64, kernel_size: u64) -> (r: Option<(PageTables, u64)>)
    requires
        old(alloc).wf(),
        old(alloc).spec_end() <= 0x1_0000_0000,
        kernel_phys % PAGE_SIZE == 0,
        kernel_phys + kernel_size <= 0x1_0000_0000,
        kernel_size <= KERNEL_MAX,
    ensures
        final(alloc).wf(),
        final(alloc).spec_start() == old(alloc).spec_start(),
        final(alloc).spec_end() == old(alloc).spec_end(),
        r is Some <==> create_frames(kernel_size) <= old(alloc).spec_free_pages(),
        r is None ==> final(alloc).spec_next() == old(alloc).spec_next(),
        r matches Some((t, root)) ==> {
            &&& t.wf()
            &&& root == old(alloc).spec_next()
            &&& final(alloc).spec_next() == old(alloc).spec_next() + create_frames(kernel_size) * PAGE_SIZE
            &&& forall|p: u64| #[trigger] t@.contains_key(p) ==> root <= p < final(alloc).spec_next()
            &&& holds_layout(t@, root, kernel_phys, kernel_size)
            &&& forall|x: u32| x < IDENTITY_SIZE ==> #[trigger] translate(t@, root, x) == Some(x)
                && translate(t@, root, (x + PHYS_OFFSET) as u32) == Some(x)
            &&& forall|k: u32| k < kernel_size ==> #[trigger] translate(t@, root, (k + KERNEL_BASE) as u32)
                == Some((kernel_phys + k) as u32)
        },
{
    let n = paging_create_frames(kernel_size);
    let base = match alloc.alloc_pages(n) {
        Some(b) => b,
        None => {
            return None;
        },
    };
    let mut t = PageTables::new();
    let mut f: u64 = 0;
    while f < n
        invariant
            n == create_frames(kernel_size),
            f <= n,
            t.wf(),
            base % PAGE_SIZE == 0,
            base + n * PAGE_SIZE <= 0x1_0000_0000,
            kernel_phys + kernel_size <= 0x1_0000_0000,
            kernel_size <= KERNEL_MAX,
            forall|p: u64| #[trigger] t@.contains_key(p) <==> exists|g: int| 0 <= g < f && p == frame_at(base, g),
            forall|g: int| 0 <= g < f ==> #[trigger] t@.contains_key(frame_at(base, g)) && t@[frame_at(base, g)]
                == layout_frame(base, kernel_phys, kernel_size, g),
        decreases n - f,
    {
        let v = layout_frame_vec(base, kernel_phys, kernel_size, f);
        proof {
            lemma_frame_at_ok(base, f as int, n as int);
            if t@.contains_key(frame_at(base, f as int)) {
                let g = choose|g: int| 0 <= g < f && frame_at(base, f as int) == frame_at(base, g);
                assert(false);
            }
        }
        let ghost before = t@;
        let ghost vv = v@;
        t.add_frame(base + f * PAGE_SIZE, v);
        proof {
            assert forall|g: int| 0 <= g < f + 1 implies #[trigger] t@.contains_key(frame_at(base, g)) && t@[frame_at(base, g)]
                == layout_frame(base, kernel_phys, kernel_size, g) by {
                if g < f {
                    assert(before.contains_key(frame_at(base, g)));
                    assert(frame_at(base, g) != frame_at(base, f as int));
                } else {
                    assert(frame_at(base, g) == base + f * PAGE_SIZE);
                }
            }
        }
        f = f + 1;
    }
    proof {
        assert forall|p: u64| #[trigger] t@.contains_key(p) implies base <= p < base + n * PAGE_SIZE by {
            let g = choose|g: int| 0 <= g < n && p == frame_at(base, g);
            assert(g * 4096 < n * 4096) by (nonlinear_arith)
                requires g < n;
        }
        assert forall|x: u32| x < IDENTITY_SIZE implies #[trigger] translate(t@, base, x) == Some(x)
            && translate(t@, base, (x + PHYS_OFFSET) as u32) == Some(x) by {
            lemma_layout_identity(t@, base, kernel_phys, kernel_size, x);
        }
        assert forall|k: u32| k < kernel_size implies #[trigger] translate(t@, base, (k + KERNEL_BASE) as u32)
            == Some((kernel_phys + k) as u32) by {
            lemma_layout_kernel(t@, base, kernel_phys, kernel_size, k);
        }
    }
    Some((t, base))
}

/// Between `old` and `new`, frames were only added, and 32-bit entries
/// only filled where they were zero.
pub open spec fn grows32(old: Map<u64, Seq<u64>>, new: Map<u64, Seq<u64>>) -> bool {
    &&& forall|p: u64| #[trigger] old.contains_key(p) ==> new.contains_key(p)
    &&& forall|table: u64, i: u32|
        #![trigger entry32(new, table, i)]
        i < 1024 && old.contains_key(table) ==> entry32(old, table, i) == 0 || entry32(new, table, i) == entry32(old, table, i)
}

/// The number of page tables that map a framebuffer of `size` bytes.
pub open spec fn fb_tables(size: u64) -> int {
    (size + 0x3f_ffff) / 0x40_0000
}

/// Entry `j` of the `t`-th page table of the framebuffer at `phys`.
pub open spec fn fb_entry(phys: u64, size: u64, t: int, j: int) -> u32 {
    let off = t * 0x40_0000 + j * 0x1000;
    if off < size {
        link((phys + off) as u32)
    } else {
        0
    }
}

/// The `t`-th page table of the framebuffer at `phys`, as 64-bit words.
pub open spec fn fb_frame(phys: u64, size: u64, t: int) -> Seq<u64> {
    Seq::new(512, |k: int| pack(fb_entry(phys, size, t, 2 * k), fb_entry(phys, size, t, 2 * k + 1)))
}

/// The word of a frame with 32-bit entry `i % 2` replaced by `v`.
pub open spec fn with_half(w: u64, i: u32, v: u32) -> u64 {
    if i % 2 == 0 {
        (w & 0xFFFF_FFFF_0000_0000) | (v as u64)
    } else {
        (w & 0xFFFF_FFFF) | ((v as u64) << 32u64)
    }
}

proof fn lemma_with_half(w: u64, v: u32)
    ensures
        (with_half(w, 0, v) & 0xffff_ffff) as u32 == v,
        (with_half(w, 0, v) >> 32u64) as u32 == (w >> 32u64) as u32,
        (with_half(w, 1, v) >> 32u64) as u32 == v,
        (with_half(w, 1, v) & 0xffff_ffff) as u32 == (w & 0xffff_ffff) as u32,
{
    assert((((w & 0xFFFF_FFFF_0000_0000) | (v as u64)) & 0xffff_ffff) as u32 == v && (((w & 0xFFFF_FFFF_0000_0000)
        | (v as u64)) >> 32u64) as u32 == (w >> 32u64) as u32 && (((w & 0xFFFF_FFFF) | ((v as u64) << 32u64))
        >> 32u64) as u32 == v && (((w & 0xFFFF_FFFF) | ((v as u64) << 32u64)) & 0xffff_ffff) as u32 == (w
        & 0xffff_ffff) as u32) by (bit_vector);
}

/// Sets 32-bit entry `i` of the frame at `table` to `v`.
fn set_entry32(tables: &mut PageTables, table: u64, i: u32, v: u32)
    requires
        old(tables).wf(),
        old(tables)@.contains_key(table),
        i < 1024,
    ensures
        final(tables).wf(),
        final(tables)@ == old(tables)@.insert(table, old(tables)@[table].update((i / 2) as int, with_half(pt_entry(old(tables)@, table, (i / 2) as u64), i, v))),
        entry32(final(tables)@, table, i) == v,
        forall|tb: u64, k: u32| (tb != table || k != i) && k < 1024 ==> #[trigger] entry32(final(tables)@, tb, k) == entry32(old(tables)@, tb, k),
{
    proof {
        old(tables).lemma_wf_view();
    }
    let w = tables.entry(table, (i / 2) as usize);
    let nw = if i % 2 == 0 {
        (w & 0xFFFF_FFFF_0000_0000) | (v as u64)
    } else {
        (w & 0xFFFF_FFFF) | ((v as u64) << 32u64)
    };
    tables.set_entry(table, (i / 2) as usize, nw);
    proof {
        let o = old(tables)@;
        let n = tables@;
        lemma_with_half(w, v);
        assert(pt_entry(n, table, (i / 2) as u64) == nw);
        assert forall|tb: u64, k: u32| (tb != table || k != i) && k < 1024 implies #[trigger] entry32(n, tb, k) == entry32(o, tb, k) by {
            if tb == table && k / 2 == i / 2 {
                assert(pt_entry(n, tb, (k / 2) as u64) == nw);
                if i % 2 == 0 {
                    assert(k % 2 == 1);
                } else {
                    assert(k % 2 == 0);
                }
            } else if tb == table {
                assert(n[tb] == o[tb].update((i / 2) as int, nw));
                assert(pt_entry(n, tb, (k / 2) as u64) == pt_entry(o, tb, (k / 2) as u64));
            } else if o.contains_key(tb) {
                assert(n[tb] == o[tb]);
            }
        }
    }
}

/// Maps the framebuffer of `fb_size` bytes at `fb_phys` at
/// `FRAMEBUFFER_BASE` in the directory at `root`, taking its page tables
/// from `alloc`, which must lie below 4 GiB, and returns that virtual
/// address; or returns `None`, with nothing changed, when `alloc` has too
/// few pages left.
#[verifier::spinoff_prover]
pub fn paging_framebuffer(
    tables: &mut PageTables,
    alloc: &mut FrameAlloc,
    root: u64,
    fb_phys: u64,
    fb_size: u64,
) -> (r: Option<u64>)
    requires
        old(tables).wf(),
        old(alloc).wf(),
        old(alloc).spec_end() <= 0x1_0000_0000,
        old(tables)@.contains_key(root),
        forall|p: u64| #[trigger] old(tables)@.contains_key(p) ==> p < old(alloc).spec_next() || p >= old(alloc).spec_end(),
        fb_phys % PAGE_SIZE == 0,
        fb_phys + fb_size <= 0x1_0000_0000,
        fb_size <= FRAMEBUFFER_MAX,
        forall|t: int| 0 <= t < fb_tables(fb_size) ==> #[trigger] entry32(old(tables)@, root, (832 + t) as u32) == 0,
    ensures
        final(tables).wf(),
        final(alloc).wf(),
        final(alloc).spec_start() == old(alloc).spec_start(),
        final(alloc).spec_end() == old(alloc).spec_end(),
        r is Some <==> fb_tables(fb_size) <= old(alloc).spec_free_pages(),
        r is None ==> final(tables)@ == old(tables)@ && final(alloc).spec_next() == old(alloc).spec_next(),
        r matches Some(virt) ==> {
            &&& virt == FRAMEBUFFER_BASE
            &&& final(alloc).spec_next() == old(alloc).spec_next() + fb_tables(fb_size) * PAGE_SIZE
            &&& grows32(old(tables)@, final(tables)@)
            &&& forall|p: u64| #[trigger] final(tables)@.contains_key(p) ==> old(tables)@.contains_key(p) || (
            old(alloc).spec_next() <= p < final(alloc).spec_next())
            &&& forall|f: u32| f < fb_size ==> #[trigger] translate(final(tables)@, root, (FRAMEBUFFER_BASE + f) as u32)
                == Some((fb_phys + f) as u32)
        },
{
    let nt = (fb_size + 0x3f_ffff) / 0x40_0000;
    let base = match alloc.alloc_pages(nt) {
        Some(b) => b,
        None => {
            return None;
        },
    };
    let ghost old_t = tables@;
    proof {
        assert(old_t.contains_key(root));
        old(tables).lemma_wf_view();
        assert(nt * 4096 <= alloc.spec_end() - base);
    }
    let mut t: u64 = 0;
    while t < nt
        invariant
            tables.wf(),
            alloc.wf(),
            t <= nt,
            nt == fb_tables(fb_size),
            nt <= 192,
            base % PAGE_SIZE == 0,
            base + nt * PAGE_SIZE <= alloc.spec_end(),
            alloc.spec_end() <= 0x1_0000_0000,
            old(alloc).spec_next() == base,
            fb_phys % PAGE_SIZE == 0,
            fb_phys + fb_size <= 0x1_0000_0000,
            fb_size <= FRAMEBUFFER_MAX,
            tables@.contains_key(root),
            old_t.contains_key(root),
            forall|p: u64| #[trigger] old_t.contains_key(p) ==> p < base || p >= alloc.spec_end(),
            forall|p: u64| #[trigger] tables@.contains_key(p) ==> old_t.contains_key(p) || (base <= p < base + t * PAGE_SIZE),
            forall|p: u64| #[trigger] old_t.contains_key(p) ==> tables@.contains_key(p),
            forall|p: u64| #[trigger] tables@.contains_key(p) ==> frame_addr_ok(p) && tables@[p].len() == 512,
            grows32(old_t, tables@),
            forall|q: int| t <= q < nt ==> #[trigger] entry32(tables@, root, (832 + q) as u32) == 0,
            forall|q: int| 0 <= q < t ==> #[trigger] entry32(tables@, root, (832 + q) as u32) == link(frame_at(base, q) as u32),
            forall|q: int| 0 <= q < t ==> #[trigger] tables@.contains_key(frame_at(base, q)) && tables@[frame_at(base, q)]
                == fb_frame(fb_phys, fb_size, q),
        decreases nt - t,
    {
        let pt = base + t * PAGE_SIZE;
        let mut v: Vec<u64> = Vec::new();
        let mut k: u64 = 0;
        while k < 512
            invariant
                k <= 512,
                v@.len() == k,
                t < nt,
                nt <= 192,
                fb_phys + fb_size <= 0x1_0000_0000,
                forall|j: int| 0 <= j < k ==> v@[j] == pack(fb_entry(fb_phys, fb_size, t as int, 2 * j), fb_entry(fb_phys, fb_size, t as int, 2 * j + 1)),
            decreases 512 - k,
        {
            let lo_off = t * 0x40_0000 + (2 * k) * 0x1000;
            let hi_off = lo_off + 0x1000;
            let lo: u32 = if lo_off < fb_size { ((fb_phys + lo_off) as u32) | WRITABLE | PRESENT } else { 0 };
            let hi: u32 = if hi_off < fb_size { ((fb_phys + hi_off) as u32) | WRITABLE | PRESENT } else { 0 };
            v.push((lo as u64) | ((hi as u64) << 32u64));
            k = k + 1;
        }
        proof {
            assert(v@ =~= fb_frame(fb_phys, fb_size, t as int));
            assert(t * 4096 < nt * 4096) by (nonlinear_arith)
                requires t < nt;
            assert(pt < alloc.spec_end());
            assert(!old_t.contains_key(pt));
            assert(!tables@.contains_key(pt));
            assert((pt as int) % 4096 == 0) by (nonlinear_arith)
                requires pt == base + t * 4096, base % 4096 == 0;
            lemma_frame_at_ok(base, t as int, nt as int);
        }
        let ghost before = tables@;
        let ghost vv = v@;
        tables.add_frame(pt, v);
        proof {
            assert forall|tb: u64, i: u32| tb != pt implies #[trigger] entry32(tables@, tb, i) == entry32(before, tb, i) by {
                if before.contains_key(tb) {
                    assert(tables@[tb] == before[tb]);
                }
            }
            assert(entry32(tables@, root, (832 + t) as u32) == 0);
        }
        let ghost mid = tables@;
        set_entry32(tables, root, (832 + t) as u32, (pt as u32) | WRITABLE | PRESENT);
        proof {
            assert(frame_at(base, t as int) == pt);
            assert forall|table: u64, i: u32| i < 1024 && old_t.contains_key(table) implies entry32(old_t, table, i) == 0
                || #[trigger] entry32(tables@, table, i) == entry32(old_t, table, i) by {
                assert(entry32(before, table, i) == entry32(old_t, table, i) || entry32(old_t, table, i) == 0);
                assert(table != pt);
                if table != root || i != (832 + t) as u32 {
                    assert(entry32(tables@, table, i) == entry32(mid, table, i));
                }
            }
            assert forall|q: int| 0 <= q < t + 1 implies #[trigger] tables@.contains_key(frame_at(base, q))
                && tables@[frame_at(base, q)] == fb_frame(fb_phys, fb_size, q) by {
                if q < t {
                    assert(q * 4096 < nt * 4096) by (nonlinear_arith)
                        requires q < nt;
                    assert(frame_at(base, q) < alloc.spec_end());
                    assert(frame_at(base, q) >= base);
                    assert(old_t.contains_key(root));
                    assert(frame_at(base, q) != pt);
                    assert(frame_at(base, q) != root);
                    assert(mid[frame_at(base, q)] == before[frame_at(base, q)]);
                    assert(tables@[frame_at(base, q)] == mid[frame_at(base, q)]);
                } else {
                    assert(pt != root);
                    assert(mid[pt] == vv);
                    assert(tables@[pt] == mid[pt]);
                }
            }
            assert forall|q: int| 0 <= q < t + 1 implies #[trigger] entry32(tables@, root, (832 + q) as u32) == link(frame_at(base, q) as u32) by {
                if q < t {
                    assert(entry32(mid, root, (832 + q) as u32) == entry32(before, root, (832 + q) as u32));
                }
            }
            assert forall|q: int| t + 1 <= q < nt implies #[trigger] entry32(tables@, root, (832 + q) as u32) == 0 by {
                assert(entry32(mid, root, (832 + q) as u32) == entry32(before, root, (832 + q) as u32));
            }
        }
        t = t + 1;
    }
    proof {
        assert forall|f: u32| f < fb_size implies #[trigger] translate(tables@, root, (FRAMEBUFFER_BASE + f) as u32)
            == Some((fb_phys + f) as u32) by {
            let v = (f + FRAMEBUFFER_BASE) as u32;
            let q = f >> 22u32;
            let j = (f >> 12u32) & 0x3ff;
            assert(v >> 22u32 == 832 + q && (v >> 12u32) & 0x3ff == j && v & 0xfff == f & 0xfff && j < 1024
                && q * 0x40_0000 + j * 0x1000 == (f >> 12u32) << 12u32 && (f >> 12u32) << 12u32 <= f && q == f
                / 0x40_0000) by (bit_vector)
                requires
                    f < 0x3000_0000,
                    v == f + 0xD000_0000,
                    q == f >> 22u32,
                    j == (f >> 12u32) & 0x3ff,
            ;
            assert(q < nt) by (nonlinear_arith)
                requires q == f / 0x40_0000, f < fb_size, nt == (fb_size + 0x3f_ffff) / 0x40_0000;
            lemma_frame_at_ok(base, q as int, nt as int);
            let ptf = frame_at(base, q as int);
            lemma_link_bits(ptf as u32);
            let kk = (j / 2) as int;
            assert(tables@.contains_key(frame_at(base, q as int)));
            assert(tables@[ptf] == fb_frame(fb_phys, fb_size, q as int));
            assert(tables@[ptf][kk] == pack(fb_entry(fb_phys, fb_size, q as int, 2 * kk), fb_entry(fb_phys, fb_size, q as int, 2 * kk + 1)));
            lemma_pack(fb_entry(fb_phys, fb_size, q as int, 2 * kk), fb_entry(fb_phys, fb_size, q as int, 2 * kk + 1));
            assert(tables@.contains_key(ptf));
            assert(pt_entry(tables@, ptf, (j / 2) as u64) == tables@[ptf][kk]);
            if j % 2 == 0 {
                assert(j == 2 * kk);
            } else {
                assert(j == 2 * kk + 1);
            }
            assert(entry32(tables@, ptf, j) == fb_entry(fb_phys, fb_size, q as int, j as int));
            let off = (f >> 12u32) << 12u32;
            let fp = fb_phys as u32;
            let pg = (fb_phys + off) as u32;
            assert(fp & 0xfff == 0) by (bit_vector)
                requires
                    fb_phys % 4096 == 0,
                    fb_phys < 0x1_0000_0000,
                    fp == fb_phys as u32,
            ;
            assert(pg & 0xfff == 0 && pg | (f & 0xfff) == fp + f) by (bit_vector)
                requires
                    fp & 0xfff == 0,
                    (fp as int) + (f as int) <= 0xffff_ffff,
                    off == (f >> 12u32) << 12u32,
                    pg == fp + off,
            ;
            lemma_link_bits(pg);
        }
    }
    Some(FRAMEBUFFER_BASE as u64)
}

} // verus!
