//! Page-table frames as a value: each frame is a 4 KiB table of 512 entries
//! identified by the physical address at which it is to be installed, and
//! frames are handed out by a bump allocator over a region of physical pages.

use vstd::prelude::*;

use crate::area::{OsMemoryEntry, OsMemoryKind};

verus! {

/// Bytes in a page and in a table frame.
pub const PAGE_SIZE: u64 = 4096;

/// Entries in a table frame.
pub const PAGE_ENTRIES: usize = 512;

/// Physical addresses that an entry can hold lie below this bound.
pub const PHYS_LIMIT: u64 = 0x10_0000_0000_0000;

/// One table frame: the physical address it belongs at and its entries.
pub struct PageFrame {
    pub phys: u64,
    pub entries: Vec<u64>,
}

/// A set of table frames, each at a distinct page-aligned physical address.
pub struct PageTables {
    frames: Vec<PageFrame>,
    map: Ghost<Map<u64, Seq<u64>>>,
}

/// A page-aligned physical address that an entry can hold.
pub open spec fn frame_addr_ok(p: u64) -> bool {
    p % PAGE_SIZE == 0 && p < PHYS_LIMIT
}

/// Entry `i` of the frame at `table`, or zero where there is no such frame.
pub open spec fn pt_entry(t: Map<u64, Seq<u64>>, table: u64, i: u64) -> u64 {
    if t.contains_key(table) && i < t[table].len() {
        t[table][i as int]
    } else {
        0
    }
}

/// Between `old` and `new`, frames were only added, and entries only filled
/// where they were zero.
pub open spec fn tables_grow(old: Map<u64, Seq<u64>>, new: Map<u64, Seq<u64>>) -> bool {
    forall|table: u64, i: u64|
        #![trigger pt_entry(new, table, i)]
        pt_entry(old, table, i) == 0 || pt_entry(new, table, i) == pt_entry(old, table, i)
}

impl View for PageTables {
    type V = Map<u64, Seq<u64>>;

    closed spec fn view(&self) -> Map<u64, Seq<u64>> {
        self.map@
    }
}

impl PageTables {
    /// Every frame holds `PAGE_ENTRIES` entries, sits at a distinct valid
    /// address, and the view maps each address to its frame's entries.
    pub closed spec fn wf(&self) -> bool {
        &&& forall|i: int|
            0 <= i < self.frames@.len() ==> {
                &&& #[trigger] self.frames@[i].entries@.len() == PAGE_ENTRIES
                &&& frame_addr_ok(self.frames@[i].phys)
                &&& self.map@.contains_key(self.frames@[i].phys)
                &&& self.map@[self.frames@[i].phys] == self.frames@[i].entries@
            }
        &&& forall|i: int, j: int|
            0 <= i < self.frames@.len() && 0 <= j < self.frames@.len() && i != j
                ==> #[trigger] self.frames@[i].phys != #[trigger] self.frames@[j].phys
        &&& forall|p: u64|
            #[trigger] self.map@.contains_key(p) ==> exists|i: int|
                0 <= i < self.frames@.len() && #[trigger] self.frames@[i].phys == p
    }

    /// What every well-formed set of tables satisfies, stated over its view.
    pub proof fn lemma_wf_view(&self)
        requires
            self.wf(),
        ensures
            forall|p: u64| #[trigger] self@.contains_key(p) ==> frame_addr_ok(p) && self@[p].len() == PAGE_ENTRIES,
    {
        assert forall|p: u64| #[trigger] self@.contains_key(p) implies frame_addr_ok(p) && self@[p].len() == PAGE_ENTRIES by {
            let i = choose|i: int| 0 <= i < self.frames@.len() && #[trigger] self.frames@[i].phys == p;
            assert(self.frames@[i].entries@.len() == PAGE_ENTRIES);
        }
    }

    /// No frames.
    pub fn new() -> (r: PageTables)
        ensures
            r.wf(),
            r@ == Map::<u64, Seq<u64>>::empty(),
    {
        PageTables { frames: Vec::new(), map: Ghost(Map::empty()) }
    }

    /// The frames, in the order in which they were added: each one is the
    /// view's table at its address, and every table of the view is among them.
    pub fn frames(&self) -> (r: &[PageFrame])
        requires
            self.wf(),
        ensures
            forall|i: int| 0 <= i < r@.len() ==> #[trigger] self@.contains_key(r@[i].phys)
                && self@[r@[i].phys] == r@[i].entries@,
            forall|p: u64| #[trigger] self@.contains_key(p) ==> exists|i: int|
                0 <= i < r@.len() && #[trigger] r@[i].phys == p,
    {
        let r = self.frames.as_slice();
        proof {
            assert forall|p: u64| #[trigger] self@.contains_key(p) implies exists|i: int|
                0 <= i < r@.len() && #[trigger] r@[i].phys == p by {
                let i = choose|i: int| 0 <= i < self.frames@.len() && #[trigger] self.frames@[i].phys == p;
                assert(r@[i].phys == p);
            }
            assert forall|i: int| 0 <= i < r@.len() implies #[trigger] self@.contains_key(r@[i].phys)
                && self@[r@[i].phys] == r@[i].entries@ by {
                assert(self.frames@[i].entries@.len() == PAGE_ENTRIES);
            }
        }
        r
    }

    /// The position of the frame at `table`, if there is one.
    fn find(&self, table: u64) -> (r: Option<usize>)
        requires
            self.wf(),
        ensures
            r is Some <==> self@.contains_key(table),
            r matches Some(k) ==> k < self.frames@.len() && self.frames@[k as int].phys == table,
    {
        let mut k: usize = 0;
        while k < self.frames.len()
            invariant
                self.wf(),
                k <= self.frames@.len(),
                forall|j: int| 0 <= j < k ==> #[trigger] self.frames@[j].phys != table,
            decreases self.frames@.len() - k,
        {
            if self.frames[k].phys == table {
                proof {
                    assert(self.frames@[k as int].entries@.len() == PAGE_ENTRIES);
                }
                return Some(k);
            }
            k = k + 1;
        }
        proof {
            if self@.contains_key(table) {
                let j = choose|j: int| 0 <= j < self.frames@.len() && #[trigger] self.frames@[j].phys == table;
                assert(self.frames@[j].phys != table);
            }
        }
        None
    }

    /// Entry `i` of the frame at `table`; zero where there is no such frame.
    pub fn entry(&self, table: u64, i: usize) -> (r: u64)
        requires
            self.wf(),
        ensures
            r == pt_entry(self@, table, i as u64),
    {
        match self.find(table) {
            Some(k) => {
                proof {
                    assert(self.frames@[k as int].entries@.len() == PAGE_ENTRIES);
                }
                if i < self.frames[k].entries.len() {
                    self.frames[k].entries[i]
                } else {
                    0
                }
            }
            None => 0,
        }
    }

    /// Sets entry `i` of the frame at `table` to `v`.
    #[verifier::spinoff_prover]
    pub fn set_entry(&mut self, table: u64, i: usize, v: u64)
        requires
            old(self).wf(),
            old(self)@.contains_key(table),
            i < PAGE_ENTRIES,
        ensures
            final(self).wf(),
            final(self)@ == old(self)@.insert(table, old(self)@[table].update(i as int, v)),
    {
        let k = match self.find(table) {
            Some(k) => k,
            None => {
                return;
            }
        };
        proof {
            assert(self.frames@[k as int].entries@.len() == PAGE_ENTRIES);
        }
        self.frames[k].entries.set(i, v);
        self.map = Ghost(self.map@.insert(table, self.map@[table].update(i as int, v)));
        proof {
            assert forall|j: int| 0 <= j < self.frames@.len() implies (
                #[trigger] self.frames@[j].entries@.len() == PAGE_ENTRIES
                && frame_addr_ok(self.frames@[j].phys)
                && self.map@.contains_key(self.frames@[j].phys)
                && self.map@[self.frames@[j].phys] == self.frames@[j].entries@
            ) by {
                if j != k {
                    assert(self.frames@[j] == old(self).frames@[j]);
                    assert(old(self).frames@[j].entries@.len() == PAGE_ENTRIES);
                    assert(old(self).frames@[j].phys != table);
                }
            }
            assert forall|a: int, b: int|
                0 <= a < self.frames@.len() && 0 <= b < self.frames@.len() && a != b
                    implies #[trigger] self.frames@[a].phys != #[trigger] self.frames@[b].phys by {
                assert(self.frames@[a].phys == old(self).frames@[a].phys);
                assert(self.frames@[b].phys == old(self).frames@[b].phys);
            }
            assert forall|p: u64| #[trigger] self.map@.contains_key(p) implies exists|j: int|
                0 <= j < self.frames@.len() && #[trigger] self.frames@[j].phys == p by {
                assert(old(self).map@.contains_key(p));
                let j = choose|j: int| 0 <= j < old(self).frames@.len() && #[trigger] old(self).frames@[j].phys == p;
                assert(self.frames@[j].phys == old(self).frames@[j].phys);
            }
        }
    }

    /// Adds a frame at `phys` holding `entries`.
    #[verifier::spinoff_prover]
    pub fn add_frame(&mut self, phys: u64, entries: Vec<u64>)
        requires
            old(self).wf(),
            frame_addr_ok(phys),
            !old(self)@.contains_key(phys),
            entries@.len() == PAGE_ENTRIES,
        ensures
            final(self).wf(),
            final(self)@ == old(self)@.insert(phys, entries@),
    {
        let ghost e = entries@;
        self.frames.push(PageFrame { phys, entries });
        self.map = Ghost(self.map@.insert(phys, e));
        proof {
            let n = self.frames@.len() - 1;
            assert forall|p: u64| #[trigger] self.map@.contains_key(p) implies exists|i: int|
                0 <= i < self.frames@.len() && #[trigger] self.frames@[i].phys == p by {
                if p == phys {
                    assert(self.frames@[n].phys == p);
                } else {
                    assert(old(self).map@.contains_key(p));
                    let i = choose|i: int| 0 <= i < old(self).frames@.len() && #[trigger] old(self).frames@[i].phys == p;
                    assert(self.frames@[i] == old(self).frames@[i]);
                }
            }
            assert forall|i: int, j: int|
                0 <= i < self.frames@.len() && 0 <= j < self.frames@.len() && i != j
                    implies #[trigger] self.frames@[i].phys != #[trigger] self.frames@[j].phys by {
                if i < n && j < n {
                    assert(self.frames@[i] == old(self).frames@[i]);
                    assert(self.frames@[j] == old(self).frames@[j]);
                    assert(old(self).frames@[i].phys != old(self).frames@[j].phys);
                } else if i < n {
                    assert(self.frames@[i] == old(self).frames@[i]);
                    assert(old(self).frames@[i].entries@.len() == PAGE_ENTRIES);
                } else {
                    assert(self.frames@[j] == old(self).frames@[j]);
                    assert(old(self).frames@[j].entries@.len() == PAGE_ENTRIES);
                }
            }
            assert forall|i: int| 0 <= i < self.frames@.len() implies (
                #[trigger] self.frames@[i].entries@.len() == PAGE_ENTRIES
                && frame_addr_ok(self.frames@[i].phys)
                && self.map@.contains_key(self.frames@[i].phys)
                && self.map@[self.frames@[i].phys] == self.frames@[i].entries@
            ) by {
                if i < n {
                    assert(self.frames@[i] == old(self).frames@[i]);
                    assert(old(self).frames@[i].entries@.len() == PAGE_ENTRIES);
                    assert(old(self).frames@[i].phys != phys);
                }
            }
            assert(forall|p: u64|
            #[trigger] self.map@.contains_key(p) ==> exists|i: int|
                0 <= i < self.frames@.len() && #[trigger] self.frames@[i].phys == p);
            assert(forall|i: int, j: int|
            0 <= i < self.frames@.len() && 0 <= j < self.frames@.len() && i != j
                ==> #[trigger] self.frames@[i].phys != #[trigger] self.frames@[j].phys);
            assert(self.wf());
        }
    }
}

/// A bump allocator over the physical pages `[next, end)`; `start` is where
/// the region began.
pub struct FrameAlloc {
    start: u64,
    next: u64,
    end: u64,
}

impl FrameAlloc {
    /// The next page to hand out.
    pub closed spec fn spec_next(&self) -> u64 {
        self.next
    }

    /// The end of the region.
    pub closed spec fn spec_end(&self) -> u64 {
        self.end
    }

    /// The start of the region.
    pub closed spec fn spec_start(&self) -> u64 {
        self.start
    }

    /// The region is page aligned, ordered and addressable.
    pub open spec fn wf(&self) -> bool {
        &&& self.spec_start() % PAGE_SIZE == 0
        &&& self.spec_next() % PAGE_SIZE == 0
        &&& self.spec_end() % PAGE_SIZE == 0
        &&& self.spec_start() <= self.spec_next() <= self.spec_end() <= PHYS_LIMIT
    }

    /// Pages left to hand out.
    pub open spec fn spec_free_pages(&self) -> int {
        (self.spec_end() - self.spec_next()) / PAGE_SIZE as int
    }

    /// An allocator over the whole pages of `size` bytes at `base`.
    pub fn new(base: u64, size: u64) -> (r: FrameAlloc)
        requires
            base % PAGE_SIZE == 0,
            base + size <= PHYS_LIMIT,
        ensures
            r.wf(),
            r.spec_start() == base,
            r.spec_next() == base,
            r.spec_end() == base + size - size % PAGE_SIZE,
    {
        FrameAlloc { start: base, next: base, end: base + (size - size % PAGE_SIZE) }
    }

    /// The number of pages left.
    pub fn free_pages(&self) -> (r: u64)
        requires
            self.wf(),
        ensures
            r == self.spec_free_pages(),
    {
        (self.end - self.next) / PAGE_SIZE
    }

    /// The pages handed out so far, as a region the kernel may reclaim.
    pub fn used_area(&self) -> (r: OsMemoryEntry)
        requires
            self.wf(),
        ensures
            r.base == self.spec_start(),
            r.size == self.spec_next() - self.spec_start(),
            r.kind == OsMemoryKind::Reclaim,
    {
        OsMemoryEntry { base: self.start, size: self.next - self.start, kind: OsMemoryKind::Reclaim }
    }

    /// Hands out `n` consecutive pages, returning the address of the first,
    /// or `None` when fewer than `n` are left.
    pub fn alloc_pages(&mut self, n: u64) -> (r: Option<u64>)
        requires
            old(self).wf(),
        ensures
            final(self).wf(),
            final(self).spec_start() == old(self).spec_start(),
            final(self).spec_end() == old(self).spec_end(),
            n <= old(self).spec_free_pages() ==> r == Some(old(self).spec_next()) && final(self).spec_next()
                == old(self).spec_next() + n * PAGE_SIZE,
            n > old(self).spec_free_pages() ==> r is None && final(self).spec_next() == old(self).spec_next(),
    {
        let free = (self.end - self.next) / PAGE_SIZE;
        if n > free {
            return None;
        }
        let p = self.next;
        proof {
            let d = (self.end - self.next) as int;
            let ni = n as int;
            assert(ni * 4096 <= d) by (nonlinear_arith)
                requires ni <= d / 4096, d >= 0;
            assert((ni * 4096) % 4096 == 0) by (nonlinear_arith);
        }
        self.next = self.next + n * PAGE_SIZE;
        Some(p)
    }
}

/// An entry with its low bit set is not zero.
pub proof fn lemma_low_bit_nonzero(e: u64)
    requires
        e & 1 == 1,
    ensures
        e != 0,
{
    assert(e != 0) by (bit_vector)
        requires
            e & 1 == 1,
    ;
}

/// A page-aligned address has its low twelve bits clear.
pub proof fn lemma_page_aligned_bits(x: u64)
    requires
        x % 4096 == 0,
    ensures
        x & 0xfff == 0,
{
    assert(x & 0xfff == 0) by (bit_vector)
        requires
            x % 4096 == 0,
    ;
}

/// The table index that `v` selects at the level whose pages are `1 << shift` bytes.
pub open spec fn table_index(v: u64, shift: u64) -> u64 {
    (v >> shift) & 0x1ff
}

/// How an address of the higher-half mirror splits into table indices.
pub proof fn lemma_mirror_indices(x: u64)
    requires
        x < 0x8000_0000_0000,
    ensures
        table_index((x + 0xFFFF_8000_0000_0000u64) as u64, 39) == 256 + (x >> 39u64),
        table_index((x + 0xFFFF_8000_0000_0000u64) as u64, 30) == table_index(x, 30),
        table_index((x + 0xFFFF_8000_0000_0000u64) as u64, 21) == table_index(x, 21),
        ((x + 0xFFFF_8000_0000_0000u64) as u64) & 0x1f_ffff == x & 0x1f_ffff,
{
    let v = (x + 0xFFFF_8000_0000_0000u64) as u64;
    assert(v == x + 0xFFFF_8000_0000_0000);
    assert(((v >> 39u64) & 0x1ff) == 256 + (x >> 39u64) && ((v >> 30u64) & 0x1ff) == ((x >> 30u64) & 0x1ff)
        && ((v >> 21u64) & 0x1ff) == ((x >> 21u64) & 0x1ff) && (v & 0x1f_ffff) == (x & 0x1f_ffff))
        by (bit_vector)
        requires
            x < 0x8000_0000_0000,
            v == x + 0xFFFF_8000_0000_0000,
    ;
}

/// How an address of a kernel image mapped at level-0 entry 510 splits into
/// table indices.
pub proof fn lemma_high_kernel_indices(k: u64)
    requires
        k < 0x80_0000_0000u64,
    ensures
        table_index((k + 0xFFFF_FF00_0000_0000u64) as u64, 39) == 510,
        table_index((k + 0xFFFF_FF00_0000_0000u64) as u64, 30) == k >> 30u64,
        table_index((k + 0xFFFF_FF00_0000_0000u64) as u64, 21) == table_index(k, 21),
        table_index((k + 0xFFFF_FF00_0000_0000u64) as u64, 12) == table_index(k, 12),
        ((k + 0xFFFF_FF00_0000_0000u64) as u64) & 0xfff == k & 0xfff,
        (k >> 30u64) * 512 + table_index(k, 21) == k >> 21u64,
        ((k >> 21u64) << 9u64 | table_index(k, 12)) << 12u64 == (k >> 12u64) << 12u64,
        (k >> 12u64) << 12u64 <= k,
        k >> 30u64 == k / 0x4000_0000,
        k >> 21u64 == k / 0x20_0000,
        table_index(k, 21) < 512,
        table_index(k, 12) < 512,
{
    let v = (k + 0xFFFF_FF00_0000_0000u64) as u64;
    assert(v == k + 0xFFFF_FF00_0000_0000);
    assert(((v >> 39u64) & 0x1ff) == 510 && ((v >> 30u64) & 0x1ff) == k >> 30u64 && ((v >> 21u64) & 0x1ff) == ((k
        >> 21u64) & 0x1ff) && ((v >> 12u64) & 0x1ff) == ((k >> 12u64) & 0x1ff) && (v & 0xfff) == (k & 0xfff)
        && (k >> 30u64) * 512 + ((k >> 21u64) & 0x1ff) == k >> 21u64 && (((k >> 21u64) << 9u64 | ((k >> 12u64)
        & 0x1ff)) << 12u64) == ((k >> 12u64) << 12u64) && ((k >> 12u64) << 12u64) <= k && k >> 30u64 == k
        / 0x4000_0000 && k >> 21u64 == k / 0x20_0000 && ((k >> 21u64) & 0x1ff) < 512 && ((k >> 12u64) & 0x1ff)
        < 512) by (bit_vector)
        requires
            k < 0x80_0000_0000,
            v == k + 0xFFFF_FF00_0000_0000,
    ;
}

/// The page of a kernel image at `kp` that holds byte `k`, and its offset.
pub proof fn lemma_kernel_page(kp: u64, k: u64)
    requires
        kp & 0xfff == 0,
        kp < 0x10_0000_0000_0000,
        k < 0x80_0000_0000u64,
    ensures
        ((kp + ((k >> 12u64) << 12u64)) as u64) & 0xfff == 0,
        ((kp + ((k >> 12u64) << 12u64)) as u64) | (k & 0xfff) == kp + k,
{
    let a = (kp + ((k >> 12u64) << 12u64)) as u64;
    assert(((k >> 12u64) << 12u64) <= k) by (bit_vector);
    assert(a == kp + ((k >> 12u64) << 12u64));
    assert((a & 0xfff) == 0 && (a | (k & 0xfff)) == kp + k) by (bit_vector)
        requires
            kp & 0xfff == 0,
            kp < 0x10_0000_0000_0000,
            k < 0x80_0000_0000,
            a == kp + ((k >> 12u64) << 12u64),
    ;
}

/// The span of 1 GiB slots that a framebuffer covers.
pub open spec fn fb_slots(phys: u64, size: u64) -> int {
    ((phys % 0x4000_0000) + size + 0x3fff_ffff) / 0x4000_0000
}

/// The level-0 index under which the framebuffer at `phys` is mirrored.
pub open spec fn fb_root_index(phys: u64) -> u64 {
    (256 + phys / 0x80_0000_0000) as u64
}

/// The first level-1 index that the framebuffer at `phys` uses.
pub open spec fn fb_first_slot(phys: u64) -> u64 {
    ((phys / 0x4000_0000) % 512) as u64
}

/// How an address of the framebuffer splits into table indices.
pub proof fn lemma_fb_indices(phys: u64, size: u64, x: u64)
    requires
        phys % 0x20_0000 == 0,
        phys / 0x80_0000_0000 < 256,
        phys % 0x80_0000_0000 + size <= 0x80_0000_0000,
        phys <= x,
        x < phys + size,
    ensures
        x < 0x8000_0000_0000,
        256 + (x >> 39u64) == fb_root_index(phys),
        table_index(x, 30) == fb_first_slot(phys) + ((x >> 30u64) - (phys >> 30u64)),
        0 <= (x >> 30u64) - (phys >> 30u64) < fb_slots(phys, size),
        table_index(x, 21) < 512,
        ((x >> 30u64) << 30u64 | table_index(x, 21) << 21u64) == (x >> 21u64) << 21u64,
        ((x >> 21u64) << 21u64) & 0x1f_ffff == 0,
        phys <= (x >> 21u64) << 21u64 <= x,
        ((x >> 21u64) << 21u64) | (x & 0x1f_ffff) == x,
{
    assert(phys & 0x1f_ffff == 0 && phys >> 39u64 == phys / 0x80_0000_0000 && phys & 0x7f_ffff_ffff
        == phys % 0x80_0000_0000 && (phys >> 30u64) & 0x1ff == (phys / 0x4000_0000) % 512 && phys & 0x3fff_ffff
        == phys % 0x4000_0000) by (bit_vector)
        requires
            phys % 0x20_0000 == 0,
    ;
    assert(size <= 0x80_0000_0000);
    assert(x < 0x8000_0000_0000 && x >> 39u64 == phys >> 39u64 && (x >> 30u64) & 0x1ff == ((phys >> 30u64)
        & 0x1ff) + ((x >> 30u64) - (phys >> 30u64)) && (x >> 30u64) >= (phys >> 30u64) && (x >> 30u64) - (
    phys >> 30u64) < (((phys & 0x3fff_ffff) + size + 0x3fff_ffff) as u64) >> 30u64 && ((x >> 21u64) & 0x1ff) < 512
        && ((x >> 30u64) << 30u64 | ((x >> 21u64) & 0x1ff) << 21u64) == (x >> 21u64) << 21u64 && ((x
        >> 21u64) << 21u64) & 0x1f_ffff == 0 && phys <= (x >> 21u64) << 21u64 && (x >> 21u64) << 21u64 <= x
        && (((x >> 21u64) << 21u64) | (x & 0x1f_ffff)) == x) by (bit_vector)
        requires
            phys & 0x1f_ffff == 0,
            phys >> 39u64 < 256,
            (phys & 0x7f_ffff_ffff) + size <= 0x80_0000_0000,
            size <= 0x80_0000_0000,
            phys <= x,
            x < phys + size,
    ;
    assert((((phys & 0x3fff_ffff) + size + 0x3fff_ffff) as u64) >> 30u64 == (((phys & 0x3fff_ffff) + size
        + 0x3fff_ffff) as u64) / 0x4000_0000) by (bit_vector)
        requires
            (phys & 0x7f_ffff_ffff) + size <= 0x80_0000_0000,
    ;
}

} // verus!
