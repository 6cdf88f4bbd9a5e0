//! The table of physical memory areas handed to the kernel.
//!
//! Entries are appended with coalescing: an entry that touches an existing
//! entry of the same kind at either boundary is merged into it in place.

use vstd::prelude::*;

verus! {

/// Classification of a physical memory region.
#[derive(Clone, Copy, Debug, PartialEq, Eq, Structural)]
pub enum OsMemoryKind {
    Null,
    Free,
    Reclaim,
    Reserved,
}

/// One physical memory region: `size` bytes starting at `base`.
#[derive(Clone, Copy, Debug, PartialEq, Eq, Structural)]
pub struct OsMemoryEntry {
    pub base: u64,
    pub size: u64,
    pub kind: OsMemoryKind,
}

/// The number of entries the area table can hold.
pub const AREA_CAPACITY: usize = 1024;

/// Failure to record an area.
#[derive(Clone, Copy, Debug, PartialEq, Eq, Structural)]
pub enum AreaError {
    /// The table is full and the entry could not be merged into any existing one.
    Overflow,
}

/// The end of an entry, as a mathematical integer.
pub open spec fn entry_end(e: OsMemoryEntry) -> int {
    e.base + e.size
}

/// An entry whose end is addressable.
pub open spec fn entry_fits(e: OsMemoryEntry) -> bool {
    entry_end(e) <= u64::MAX
}

/// `a` starts exactly where `e` ends, and both have the same kind.
pub open spec fn touches_after(e: OsMemoryEntry, a: OsMemoryEntry) -> bool {
    e.kind == a.kind && entry_end(e) == a.base
}

/// `a` ends exactly where `e` starts, and both have the same kind.
pub open spec fn touches_before(e: OsMemoryEntry, a: OsMemoryEntry) -> bool {
    e.kind == a.kind && entry_end(a) == e.base
}

/// `a` can be merged into `e`.
pub open spec fn merges(e: OsMemoryEntry, a: OsMemoryEntry) -> bool {
    touches_after(e, a) || touches_before(e, a)
}

/// The entry that results from merging `a` into `e`.
pub open spec fn merged(e: OsMemoryEntry, a: OsMemoryEntry) -> OsMemoryEntry {
    if touches_after(e, a) {
        OsMemoryEntry { base: e.base, size: (e.size + a.size) as u64, kind: e.kind }
    } else {
        OsMemoryEntry { base: a.base, size: (e.size + a.size) as u64, kind: e.kind }
    }
}

/// No entry of `s` before index `i` can take `a`.
pub open spec fn no_merge_before(s: Seq<OsMemoryEntry>, a: OsMemoryEntry, i: int) -> bool {
    forall|j: int| 0 <= j < i ==> !merges(#[trigger] s[j], a)
}

/// `i` is the first index of `s` whose entry can take `a`.
pub open spec fn is_first_merge(s: Seq<OsMemoryEntry>, a: OsMemoryEntry, i: int) -> bool {
    0 <= i < s.len() && merges(s[i], a) && no_merge_before(s, a, i)
}

/// The first index of `s` whose entry can take `a`, or `s.len()` if there is none.
pub open spec fn first_merge(s: Seq<OsMemoryEntry>, a: OsMemoryEntry) -> int {
    if exists|i: int| is_first_merge(s, a, i) {
        choose|i: int| is_first_merge(s, a, i)
    } else {
        s.len() as int
    }
}

/// The table after adding `a` to `s`, or `None` when `s` is full and nothing can take `a`.
pub open spec fn area_added(s: Seq<OsMemoryEntry>, a: OsMemoryEntry) -> Option<Seq<OsMemoryEntry>> {
    let i = first_merge(s, a);
    if i < s.len() {
        Some(s.update(i, merged(s[i], a)))
    } else if s.len() < AREA_CAPACITY {
        Some(s.push(a))
    } else {
        None
    }
}

/// The table after an attempt to add `a`: unchanged when the attempt fails.
pub open spec fn area_after(s: Seq<OsMemoryEntry>, a: OsMemoryEntry) -> Seq<OsMemoryEntry> {
    match area_added(s, a) {
        Some(t) => t,
        None => s,
    }
}

/// A sequence of entries that a table can hold.
pub open spec fn areas_wf(s: Seq<OsMemoryEntry>) -> bool {
    &&& s.len() <= AREA_CAPACITY
    &&& forall|i: int| 0 <= i < s.len() ==> entry_fits(#[trigger] s[i])
}

/// The table of memory areas, at most `AREA_CAPACITY` entries long.
pub struct AreaTable {
    entries: Vec<OsMemoryEntry>,
}

impl View for AreaTable {
    type V = Seq<OsMemoryEntry>;

    closed spec fn view(&self) -> Seq<OsMemoryEntry> {
        self.entries@
    }
}

/// The first merge index is unique.
pub proof fn lemma_first_merge_unique(s: Seq<OsMemoryEntry>, a: OsMemoryEntry, i: int)
    requires
        is_first_merge(s, a, i),
    ensures
        first_merge(s, a) == i,
{
    let k = first_merge(s, a);
    assert(is_first_merge(s, a, k));
    if k < i {
        assert(!merges(s[k], a));
    } else if i < k {
        assert(!merges(s[i], a));
    }
}

/// When nothing can take `a`, the first merge index is the length.
pub proof fn lemma_first_merge_none(s: Seq<OsMemoryEntry>, a: OsMemoryEntry)
    requires
        no_merge_before(s, a, s.len() as int),
    ensures
        first_merge(s, a) == s.len(),
{
    if exists|i: int| is_first_merge(s, a, i) {
        let k = choose|i: int| is_first_merge(s, a, i);
        assert(!merges(s[k], a));
    }
}

/// Adding two adjacent regions of one kind, in either order, leaves the same
/// table, provided no entry of that kind already in it touches either region.
pub proof fn lemma_area_add_commutes(s: Seq<OsMemoryEntry>, a: OsMemoryEntry, b: OsMemoryEntry)
    requires
        areas_wf(s),
        entry_fits(a),
        entry_fits(b),
        a.kind == b.kind,
        entry_end(a) == b.base,
        forall|i: int| 0 <= i < s.len() ==> !merges(#[trigger] s[i], a) && !merges(s[i], b),
    ensures
        area_after(area_after(s, a), b) == area_after(area_after(s, b), a),
{
    let n = s.len() as int;
    lemma_first_merge_none(s, a);
    lemma_first_merge_none(s, b);
    if n < AREA_CAPACITY {
        let ta = s.push(a);
        let tb = s.push(b);
        assert(no_merge_before(ta, b, n));
        assert(is_first_merge(ta, b, n));
        lemma_first_merge_unique(ta, b, n);
        assert(no_merge_before(tb, a, n));
        assert(is_first_merge(tb, a, n));
        lemma_first_merge_unique(tb, a, n);
        assert(area_after(ta, b) =~= area_after(tb, a));
    }
}

impl AreaTable {
    /// The well-formedness of the table.
    pub open spec fn wf(&self) -> bool {
        areas_wf(self@)
    }

    /// An empty table.
    pub fn new() -> (r: AreaTable)
        ensures
            r.wf(),
            r@ == Seq::<OsMemoryEntry>::empty(),
    {
        AreaTable { entries: Vec::new() }
    }

    /// The number of entries.
    pub fn len(&self) -> (r: usize)
        ensures
            r == self@.len(),
    {
        self.entries.len()
    }

    /// The entries, in the order in which they were first recorded.
    pub fn entries(&self) -> (r: &[OsMemoryEntry])
        ensures
            r@ == self@,
    {
        self.entries.as_slice()
    }
}

/// Records `area` in `table`: merged into the first entry of the same kind
/// that it touches, else appended. A full table is reported, not truncated.
pub fn area_add(table: &mut AreaTable, area: OsMemoryEntry) -> (r: Result<(), AreaError>)
    requires
        old(table).wf(),
        entry_fits(area),
    ensures
        final(table).wf(),
        r is Ok <==> area_added(old(table)@, area) is Some,
        final(table)@ == area_after(old(table)@, area),
{
    let n = table.entries.len();
    let mut i: usize = 0;
    while i < n
        invariant
            n == table.entries@.len(),
            table@ == old(table)@,
            table.wf(),
            entry_fits(area),
            0 <= i <= n,
            no_merge_before(table@, area, i as int),
        decreases n - i,
    {
        let e = table.entries[i];
        if e.kind == area.kind {
            if e.base as u128 + e.size as u128 == area.base as u128 {
                let m = OsMemoryEntry { base: e.base, size: e.size + area.size, kind: e.kind };
                proof {
                    assert(is_first_merge(table@, area, i as int));
                    lemma_first_merge_unique(table@, area, i as int);
                }
                table.entries.set(i, m);
                proof {
                    assert forall|j: int| 0 <= j < table@.len() implies entry_fits(#[trigger] table@[j]) by {
                        if j != i {
                            assert(table@[j] == old(table)@[j]);
                        }
                    }
                }
                return Ok(());
            }
            if area.base as u128 + area.size as u128 == e.base as u128 {
                let m = OsMemoryEntry { base: area.base, size: e.size + area.size, kind: e.kind };
                proof {
                    assert(is_first_merge(table@, area, i as int));
                    lemma_first_merge_unique(table@, area, i as int);
                }
                table.entries.set(i, m);
                proof {
                    assert forall|j: int| 0 <= j < table@.len() implies entry_fits(#[trigger] table@[j]) by {
                        if j != i {
                            assert(table@[j] == old(table)@[j]);
                        }
                    }
                }
                return Ok(());
            }
        }
        i = i + 1;
    }
    proof {
        lemma_first_merge_none(table@, area);
    }
    if n >= AREA_CAPACITY {
        return Err(AreaError::Overflow);
    }
    table.entries.push(area);
    proof {
        assert forall|j: int| 0 <= j < table@.len() implies entry_fits(#[trigger] table@[j]) by {
            if j < n {
                assert(table@[j] == old(table)@[j]);
            }
        }
    }
    Ok(())
}

} // verus!
