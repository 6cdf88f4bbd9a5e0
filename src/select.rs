//! Choosing a video mode: the usable modes, their order, the preselected
//! mode, and the moves of the selection through the on-screen grid.
//!
//! The grid lists the modes column by column, `MENU_ROWS` to a column, each
//! cell `MENU_CELL_WIDTH` characters wide.

use vstd::prelude::*;

use crate::os::{OsKey, OsVideoMode};

verus! {

/// Rows in a column of the mode grid.
pub const MENU_ROWS: usize = 12;

/// Characters in a cell of the mode grid.
pub const MENU_CELL_WIDTH: usize = 20;

/// The pixel area of a mode.
pub open spec fn area(m: OsVideoMode) -> int {
    m.width * m.height
}

/// A mode that the boot framebuffer can use: its width is a multiple of 4.
pub open spec fn usable(m: OsVideoMode) -> bool {
    m.width % 4 == 0
}

/// Inserts `m` into `s` before the first mode of smaller area.
pub open spec fn insert_by_area(s: Seq<OsVideoMode>, m: OsVideoMode) -> Seq<OsVideoMode>
    decreases s.len(),
{
    if s.len() == 0 {
        seq![m]
    } else if area(s[0]) < area(m) {
        seq![m] + s
    } else {
        seq![s[0]] + insert_by_area(s.drop_first(), m)
    }
}

/// The modes of `s` by decreasing area, modes of equal area in their order in `s`.
pub open spec fn sort_by_area(s: Seq<OsVideoMode>) -> Seq<OsVideoMode>
    decreases s.len(),
{
    if s.len() == 0 {
        s
    } else {
        insert_by_area(sort_by_area(s.drop_last()), s.last())
    }
}

/// The first index of `s` at which the mode has a smaller area than `m`, or `s.len()`.
pub open spec fn insert_point(s: Seq<OsVideoMode>, m: OsVideoMode) -> int
    decreases s.len(),
{
    if s.len() == 0 {
        0
    } else if area(s[0]) < area(m) {
        0
    } else {
        1 + insert_point(s.drop_first(), m)
    }
}

proof fn lemma_insert_point(s: Seq<OsVideoMode>, m: OsVideoMode)
    ensures
        0 <= insert_point(s, m) <= s.len(),
        insert_by_area(s, m) == s.take(insert_point(s, m)) + seq![m] + s.skip(insert_point(s, m)),
        forall|j: int| 0 <= j < insert_point(s, m) ==> area(#[trigger] s[j]) >= area(m),
        insert_point(s, m) < s.len() ==> area(s[insert_point(s, m)]) < area(m),
    decreases s.len(),
{
    if s.len() > 0 && area(s[0]) >= area(m) {
        let t = s.drop_first();
        lemma_insert_point(t, m);
        let k = insert_point(t, m);
        assert(s.take(k + 1) =~= seq![s[0]] + t.take(k));
        assert(s.skip(k + 1) =~= t.skip(k));
        assert(insert_by_area(s, m) =~= s.take(k + 1) + seq![m] + s.skip(k + 1));
        assert forall|j: int| 0 <= j < k + 1 implies area(#[trigger] s[j]) >= area(m) by {
            if j > 0 {
                assert(s[j] == t[j - 1]);
            }
        }
    } else if s.len() > 0 {
        assert(insert_by_area(s, m) =~= s.take(0) + seq![m] + s.skip(0));
    } else {
        assert(insert_by_area(s, m) =~= s.take(0) + seq![m] + s.skip(0));
    }
}

/// The area of a mode, computed without overflow.
pub fn mode_area(m: &OsVideoMode) -> (r: u64)
    ensures
        r == area(*m),
{
    assert((m.width as int) * (m.height as int) <= u32::MAX as int * u32::MAX as int) by (nonlinear_arith);
    m.width as u64 * m.height as u64
}

/// Inserts `m` into `v`, which is already ordered, before the first mode of smaller area.
fn insert_mode(v: &mut Vec<OsVideoMode>, m: OsVideoMode)
    ensures
        final(v)@ == insert_by_area(old(v)@, m),
{
    let am = mode_area(&m);
    let mut k: usize = 0;
    proof {
        lemma_insert_point(v@, m);
    }
    while k < v.len() && mode_area(&v[k]) >= am
        invariant
            v@ == old(v)@,
            k <= v@.len(),
            k <= insert_point(v@, m),
            am == area(m),
            0 <= insert_point(v@, m) <= v@.len(),
            forall|j: int| 0 <= j < insert_point(v@, m) ==> area(#[trigger] v@[j]) >= area(m),
            insert_point(v@, m) < v@.len() ==> area(v@[insert_point(v@, m)]) < area(m),
        decreases v@.len() - k,
    {
        k = k + 1;
    }
    assert(k == insert_point(v@, m));
    v.insert(k, m);
    assert(v@ =~= old(v)@.take(k as int) + seq![m] + old(v)@.skip(k as int));
}

/// The modes of `modes` by decreasing area; modes of equal area keep their order.
pub fn sort_modes(modes: &Vec<OsVideoMode>) -> (r: Vec<OsVideoMode>)
    ensures
        r@ == sort_by_area(modes@),
{
    let mut r: Vec<OsVideoMode> = Vec::new();
    let mut i: usize = 0;
    while i < modes.len()
        invariant
            i <= modes@.len(),
            r@ == sort_by_area(modes@.take(i as int)),
        decreases modes@.len() - i,
    {
        proof {
            assert(modes@.take(i + 1).drop_last() =~= modes@.take(i as int));
        }
        insert_mode(&mut r, modes[i]);
        i = i + 1;
    }
    assert(modes@.take(modes@.len() as int) =~= modes@);
    r
}

/// The modes of `candidates` that the boot framebuffer can use, in order.
pub fn usable_modes(candidates: &Vec<OsVideoMode>) -> (r: Vec<OsVideoMode>)
    ensures
        r@ == candidates@.filter(|m: OsVideoMode| usable(m)),
{
    let mut r: Vec<OsVideoMode> = Vec::new();
    let mut i: usize = 0;
    while i < candidates.len()
        invariant
            i <= candidates@.len(),
            r@ == candidates@.take(i as int).filter(|m: OsVideoMode| usable(m)),
        decreases candidates@.len() - i,
    {
        proof {
            reveal(Seq::filter);
            assert(candidates@.take(i + 1).drop_last() =~= candidates@.take(i as int));
        }
        if candidates[i].width % 4 == 0 {
            r.push(candidates[i]);
        }
        i = i + 1;
    }
    assert(candidates@.take(candidates@.len() as int) =~= candidates@);
    r
}

/// The index of the first mode of `s` with the resolution `best`, if any.
pub open spec fn best_index(s: Seq<OsVideoMode>, best: (u32, u32)) -> Option<int> {
    if exists|i: int| 0 <= i < s.len() && s[i].width == best.0 && s[i].height == best.1 && forall|j: int|
        0 <= j < i ==> !(s[j].width == best.0 && s[j].height == best.1) {
        Some(
            choose|i: int|
                0 <= i < s.len() && s[i].width == best.0 && s[i].height == best.1 && forall|j: int|
                    0 <= j < i ==> !(#[trigger] s[j].width == best.0 && s[j].height == best.1),
        )
    } else {
        None
    }
}

/// The index that moving `key` from `i` selects in a grid of `n` modes.
pub open spec fn spec_move(i: int, n: int, key: OsKey) -> int {
    let rows = MENU_ROWS as int;
    match key {
        OsKey::Left => if i >= rows { i - rows } else { i + rows * ((n - 1 - i) / rows) },
        OsKey::Right => if i + rows < n { i + rows } else { i % rows },
        OsKey::Up => if i % rows == 0 { if i + rows > n { n - 1 } else { i + rows - 1 } } else { i - 1 },
        OsKey::Down => if (i + 1) % rows == 0 {
            if i + 1 - rows >= n { i + 1 - rows - (i + 1 - rows) % rows } else { i + 1 - rows }
        } else if i + 1 >= n {
            i + 1 - (i + 1) % rows
        } else {
            i + 1
        },
        _ => i,
    }
}

/// A mode menu: the usable modes by decreasing area, and the selected one.
pub struct ModeMenu {
    modes: Vec<OsVideoMode>,
    selected: usize,
}

impl ModeMenu {
    /// The modes in display order.
    pub closed spec fn spec_modes(&self) -> Seq<OsVideoMode> {
        self.modes@
    }

    /// The index of the selected mode.
    pub closed spec fn spec_selected(&self) -> int {
        self.selected as int
    }

    /// The selection lies in the list.
    pub open spec fn wf(&self) -> bool {
        0 <= self.spec_selected() < self.spec_modes().len()
    }

    /// A menu over the usable modes of `candidates`, with the first mode of
    /// resolution `best` selected if there is one, else the largest mode.
    /// `None` when no mode is usable.
    #[verifier::spinoff_prover]
    pub fn new(candidates: &Vec<OsVideoMode>, best: Option<(u32, u32)>) -> (r: Option<ModeMenu>)
        ensures
            r is None <==> candidates@.filter(|m: OsVideoMode| usable(m)).len() == 0,
            r matches Some(menu) ==> {
                &&& menu.wf()
                &&& menu.spec_modes() == sort_by_area(candidates@.filter(|m: OsVideoMode| usable(m)))
                &&& menu.spec_selected() == match best {
                    Some(b) => match best_index(menu.spec_modes(), b) {
                        Some(k) => k,
                        None => 0,
                    },
                    None => 0,
                }
            },
    {
        let usable_list = usable_modes(candidates);
        let modes = sort_modes(&usable_list);
        proof {
            lemma_sort_len(usable_list@);
        }
        if modes.len() == 0 {
            return None;
        }
        let mut selected: usize = 0;
        if let Some((w, h)) = best {
            let mut i: usize = 0;
            let mut found = false;
            while !found && i < modes.len()
                invariant
                    i <= modes@.len(),
                    selected == 0,
                    found ==> i < modes@.len() && modes@[i as int].width == w && modes@[i as int].height == h,
                    forall|j: int| 0 <= j < i ==> !(#[trigger] modes@[j].width == w && modes@[j].height == h),
                decreases modes@.len() - i + (if found { 0int } else { 1int }),
            {
                if modes[i].width == w && modes[i].height == h {
                    found = true;
                } else {
                    i = i + 1;
                }
            }
            proof {
                let s = modes@;
                if found {
                    assert(s[i as int].width == w && s[i as int].height == h && forall|j: int|
                        0 <= j < i ==> !(#[trigger] s[j].width == w && s[j].height == h));
                    let k = best_index(s, (w, h)).unwrap();
                    if k < i {
                        assert(!(s[k].width == w && s[k].height == h));
                    }
                    if k > i {
                        assert(!(s[i as int].width == w && s[i as int].height == h));
                    }
                } else {
                    if exists|k: int| 0 <= k < s.len() && s[k].width == w && s[k].height == h && forall|j: int|
                        0 <= j < k ==> !(s[j].width == w && s[j].height == h) {
                        let k = choose|k: int| 0 <= k < s.len() && s[k].width == w && s[k].height == h && forall|j: int|
                            0 <= j < k ==> !(s[j].width == w && s[j].height == h);
                        assert(!(s[k].width == w && s[k].height == h));
                    }
                }
            }
            if found {
                selected = i;
            }
        }
        Some(ModeMenu { modes, selected })
    }

    /// The modes in display order.
    pub fn modes(&self) -> (r: &[OsVideoMode])
        ensures
            r@ == self.spec_modes(),
    {
        self.modes.as_slice()
    }

    /// The index of the selected mode.
    pub fn selected(&self) -> (r: usize)
        ensures
            r == self.spec_selected(),
    {
        self.selected
    }

    /// The column and row of the grid cell that shows mode `i`.
    pub fn cell(i: usize) -> (r: (usize, usize))
        ensures
            r == (i / MENU_ROWS, i % MENU_ROWS),
    {
        (i / MENU_ROWS, i % MENU_ROWS)
    }

    /// Handles a keystroke: the arrows move the selection, Enter returns the
    /// selected mode, and any other key changes nothing.
    pub fn key(&mut self, key: OsKey) -> (r: Option<OsVideoMode>)
        requires
            old(self).wf(),
        ensures
            final(self).wf(),
            final(self).spec_modes() == old(self).spec_modes(),
            final(self).spec_selected() == spec_move(old(self).spec_selected(), old(self).spec_modes().len() as int, key),
            r == (if key == OsKey::Enter { Some(old(self).spec_modes()[old(self).spec_selected()]) } else { None::<OsVideoMode> }),
    {
        let n = self.modes.len();
        let i = self.selected;
        let rows = MENU_ROWS;
        match key {
            OsKey::Left => {
                if i >= rows {
                    self.selected = i - rows;
                } else {
                    let k = rows * ((n - 1 - i) / rows);
                    proof {
                        let d = (n - 1 - i) as int;
                        assert(12 * (d / 12) <= d) by (nonlinear_arith)
                            requires
                                d >= 0;
                    }
                    self.selected = i + k;
                }
                None
            },
            OsKey::Right => {
                if n - i > rows {
                    self.selected = i + rows;
                } else {
                    self.selected = i % rows;
                }
                None
            },
            OsKey::Up => {
                if i % rows == 0 {
                    if n - i < rows {
                        self.selected = n - 1;
                    } else {
                        self.selected = i + rows - 1;
                    }
                } else {
                    self.selected = i - 1;
                }
                None
            },
            OsKey::Down => {
                let j = i + 1;
                if j % rows == 0 {
                    let back = j - rows;
                    if back >= n {
                        self.selected = back - back % rows;
                    } else {
                        self.selected = back;
                    }
                } else if j >= n {
                    self.selected = j - j % rows;
                } else {
                    self.selected = j;
                }
                None
            },
            OsKey::Enter => Some(self.modes[i]),
            _ => None,
        }
    }
}

proof fn lemma_insert_len(s: Seq<OsVideoMode>, m: OsVideoMode)
    ensures
        insert_by_area(s, m).len() == s.len() + 1,
    decreases s.len(),
{
    if s.len() > 0 && area(s[0]) >= area(m) {
        lemma_insert_len(s.drop_first(), m);
    }
}

/// Sorting keeps the number of modes.
pub proof fn lemma_sort_len(s: Seq<OsVideoMode>)
    ensures
        sort_by_area(s).len() == s.len(),
    decreases s.len(),
{
    if s.len() > 0 {
        lemma_sort_len(s.drop_last());
        lemma_insert_len(sort_by_area(s.drop_last()), s.last());
    }
}

/// The aspect ratio shown beside a mode: `w:h` with every common factor
/// from `i` up to (not including) `end` divided out, smallest first.
pub open spec fn reduce_ratio(w: nat, h: nat, i: nat, end: nat) -> (nat, nat)
    decreases end - i, w via reduce_ratio_decreases
{
    if i >= end || i < 2 {
        (w, h)
    } else if w % i == 0 && h % i == 0 && w > 0 {
        reduce_ratio(w / i, h / i, i, end)
    } else {
        reduce_ratio(w, h, i + 1, end)
    }
}

#[via_fn]
proof fn reduce_ratio_decreases(w: nat, h: nat, i: nat, end: nat) {
    if !(i >= end || i < 2) && w % i == 0 && h % i == 0 && w > 0 {
        assert(w / i < w) by (nonlinear_arith)
            requires
                w > 0,
                i >= 2;
    }
}

/// The aspect ratio of a `width` by `height` mode, as shown in the menu:
/// the common factors below half the smaller side are divided out.
pub fn aspect_ratio(width: u32, height: u32) -> (r: (u32, u32))
    ensures
        (r.0 as nat, r.1 as nat) == reduce_ratio(
            width as nat,
            height as nat,
            2,
            if width / 2 < height / 2 { (width / 2) as nat } else { (height / 2) as nat },
        ),
{
    let end = if width / 2 < height / 2 { width / 2 } else { height / 2 };
    let mut w = width;
    let mut h = height;
    let mut i: u32 = 2;
    if end < 2 {
        return (w, h);
    }
    while i < end
        invariant
            2 <= i <= end,
            reduce_ratio(width as nat, height as nat, 2, end as nat) == reduce_ratio(w as nat, h as nat, i as nat, end as nat),
        decreases end - i, w,
    {
        if w % i == 0 && h % i == 0 && w > 0 {
            assert(w / i < w) by (nonlinear_arith)
                requires
                    w > 0,
                    i >= 2;
            w = w / i;
            h = h / i;
        } else {
            i = i + 1;
        }
    }
    (w, h)
}

} // verus!
