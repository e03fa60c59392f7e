//! The multi-snapshot comparator: several point-in-time reconstructions
//! aligned into one side-by-side matrix.
//!
//! Logical items are keyed by `origin_at`, the identity that survives
//! renames and edits. For every logical item of the section that was alive
//! at any of the selected ticks, the matrix holds one row: the item's most
//! recent display name (from the version with the highest creation tick,
//! whether or not a selected snapshot saw it) and one cell per selected
//! tick, holding the amount of the version alive at that tick or nothing
//! where the item was absent. Column totals equal the section total at the
//! column's tick, since every version alive at a tick belongs to exactly
//! one row.

use vstd::prelude::*;
use crate::store::ItemVersion;
use crate::store::Ledger;

verus! {

/// One line of the side-by-side matrix: a logical item, identified by its
/// origin tick, with its latest display name and one cell per selected
/// tick. `None` marks the ticks at which no version of the item was alive.
#[derive(Debug)]
pub struct CompareRow {
    pub name: String,
    pub origin_at: u64,
    pub cells: Vec<Option<i64>>,
}

/// Whether a version row belongs to the logical item `(owner, section, g)`.
pub open spec fn member_of(it: ItemVersion, owner: Seq<char>, section: bool, g: u64) -> bool {
    it.in_section(owner, section) && it.origin_at == g
}

/// A correct matrix cell: the amount of a version of the item alive at `t`,
/// or `None` when no version of the item is alive at `t`. By the store
/// invariant the alive version is unique, so a `Some` amount is unambiguous.
pub open spec fn cell_ok(
    items: Seq<ItemVersion>,
    owner: Seq<char>,
    section: bool,
    g: u64,
    t: u64,
    cell: Option<i64>,
) -> bool {
    match cell {
        Some(a) => exists|i: int|
            0 <= i < items.len() && member_of(#[trigger] items[i], owner, section, g)
                && items[i].alive_at(t) && items[i].amount == a,
        None => forall|i: int|
            0 <= i < items.len() && member_of(#[trigger] items[i], owner, section, g)
                ==> !items[i].alive_at(t),
    }
}

/// The row carries the display name of the item's newest version.
pub open spec fn newest_name_ok(
    items: Seq<ItemVersion>,
    owner: Seq<char>,
    section: bool,
    g: u64,
    name: Seq<char>,
) -> bool {
    exists|m: int|
        0 <= m < items.len() && member_of(#[trigger] items[m], owner, section, g)
            && items[m].name@ == name && (forall|j: int|
            0 <= j < items.len() && member_of(#[trigger] items[j], owner, section, g)
                ==> items[j].created_at <= items[m].created_at)
}

/// A correct matrix row: one cell per selected tick, each cell correct for
/// the row's item, at least one cell present (the item was alive at some
/// selected tick), and the latest display name.
pub open spec fn row_ok(
    items: Seq<ItemVersion>,
    owner: Seq<char>,
    section: bool,
    ticks: Seq<u64>,
    row: CompareRow,
) -> bool {
    &&& row.cells@.len() == ticks.len()
    &&& forall|c: int|
        0 <= c < ticks.len() ==> cell_ok(
            items,
            owner,
            section,
            row.origin_at,
            ticks[c],
            #[trigger] row.cells@[c],
        )
    &&& exists|c: int| 0 <= c < ticks.len() && (#[trigger] row.cells@[c]) is Some
    &&& newest_name_ok(items, owner, section, row.origin_at, row.name@)
}

impl Ledger {
    /// The amount of the version of item `(owner, section, g)` alive at
    /// tick `t`, if any.
    fn cell_at(&self, owner: &String, section: bool, g: u64, t: u64) -> (r: Option<i64>)
        ensures
            cell_ok(self.items@, owner@, section, g, t, r),
    {
        let n = self.items.len();
        let mut r: Option<i64> = None;
        let mut m: usize = 0;
        while m < n
            invariant
                n == self.items@.len(),
                m <= n,
                match r {
                    Some(a) => exists|i: int|
                        0 <= i < n && member_of(#[trigger] self.items@[i], owner@, section, g)
                            && self.items@[i].alive_at(t) && self.items@[i].amount == a,
                    None => forall|i: int|
                        0 <= i < m && member_of(#[trigger] self.items@[i], owner@, section, g)
                            ==> !self.items@[i].alive_at(t),
                },
            decreases n - m,
        {
            let it = &self.items[m];
            if it.section == section && it.origin_at == g && it.created_at <= t && t < it.closed_at
                && it.owner == *owner {
                r = Some(it.amount);
            }
            m = m + 1;
        }
        r
    }

    /// The index of the newest version of item `(owner, section, g)`, given
    /// a member to start from.
    fn newest_member(&self, owner: &String, section: bool, g: u64, start: usize) -> (r: usize)
        requires
            start < self.items@.len(),
            member_of(self.items@[start as int], owner@, section, g),
        ensures
            r < self.items@.len(),
            member_of(self.items@[r as int], owner@, section, g),
            forall|j: int|
                0 <= j < self.items@.len() && member_of(#[trigger] self.items@[j], owner@, section, g)
                    ==> self.items@[j].created_at <= self.items@[r as int].created_at,
    {
        let n = self.items.len();
        let mut best: usize = start;
        let mut m: usize = 0;
        while m < n
            invariant
                n == self.items@.len(),
                m <= n,
                best < n,
                member_of(self.items@[best as int], owner@, section, g),
                forall|j: int|
                    0 <= j < m && member_of(#[trigger] self.items@[j], owner@, section, g)
                        ==> self.items@[j].created_at <= self.items@[best as int].created_at,
            decreases n - m,
        {
            let it = &self.items[m];
            if it.section == section && it.origin_at == g && it.owner == *owner
                && it.created_at >= self.items[best].created_at {
                best = m;
            }
            m = m + 1;
        }
        best
    }

    /// Align the section's history with the selected ticks: one row per
    /// logical item alive at any of the ticks (soundly and completely, with
    /// no item listed twice), and per-column totals, each equal to the
    /// section total as of that column's tick.
    pub fn compare(&self, owner: &String, section: bool, ticks: &Vec<u64>) -> (r: (
        Vec<CompareRow>,
        Vec<i128>,
    ))
        requires
            self.wf(),
        ensures
            forall|k: int|
                0 <= k < r.0@.len() ==> row_ok(
                    self.items@,
                    owner@,
                    section,
                    ticks@,
                    #[trigger] r.0@[k],
                ),
            forall|k1: int, k2: int|
                #![trigger r.0@[k1], r.0@[k2]]
                0 <= k1 < k2 < r.0@.len() ==> r.0@[k1].origin_at != r.0@[k2].origin_at,
            forall|m: int, c: int|
                #![trigger self.items@[m].alive_at(ticks@[c])]
                0 <= m < self.items@.len() && 0 <= c < ticks@.len() && self.items@[m].in_section(
                    owner@,
                    section,
                ) && self.items@[m].alive_at(ticks@[c]) ==> exists|k: int|
                    0 <= k < r.0@.len() && (#[trigger] r.0@[k]).origin_at
                        == self.items@[m].origin_at,
            r.1@.len() == ticks@.len(),
            forall|c: int|
                0 <= c < ticks@.len() ==> #[trigger] r.1@[c] == self.sum_alive(
                    owner@,
                    section,
                    ticks@[c],
                    self.items@.len() as int,
                ),
    {
        let n = self.items.len();
        let mut rows: Vec<CompareRow> = Vec::new();
        let mut i: usize = 0;
        while i < n
            invariant
                self.wf(),
                n == self.items@.len(),
                i <= n,
                forall|k: int|
                    0 <= k < rows@.len() ==> row_ok(
                        self.items@,
                        owner@,
                        section,
                        ticks@,
                        #[trigger] rows@[k],
                    ),
                forall|k1: int, k2: int|
                    #![trigger rows@[k1], rows@[k2]]
                    0 <= k1 < k2 < rows@.len() ==> rows@[k1].origin_at != rows@[k2].origin_at,
                // every row stems from an already scanned first occurrence
                forall|k: int|
                    #![trigger rows@[k]]
                    0 <= k < rows@.len() ==> exists|j: int|
                        0 <= j < i && member_of(
                            #[trigger] self.items@[j],
                            owner@,
                            section,
                            rows@[k].origin_at,
                        ),
                // items whose group was already scanned are covered
                forall|m: int, c: int|
                    #![trigger self.items@[m].alive_at(ticks@[c])]
                    0 <= m < n && 0 <= c < ticks@.len() && self.items@[m].in_section(
                        owner@,
                        section,
                    ) && self.items@[m].alive_at(ticks@[c]) && (exists|j: int|
                        0 <= j < i && member_of(
                            #[trigger] self.items@[j],
                            owner@,
                            section,
                            self.items@[m].origin_at,
                        )) ==> exists|k: int|
                        0 <= k < rows@.len() && (#[trigger] rows@[k]).origin_at
                            == self.items@[m].origin_at,
            decreases n - i,
        {
            let ghost rows0 = rows@;
            let g = self.items[i].origin_at;
            let relevant = {
                let it = &self.items[i];
                it.section == section && it.owner == *owner
            };
            let mut seen = false;
            let mut pushed = false;
            let mut dead = false;
            if relevant {
                // only the first version row of a group opens a matrix row
                let mut j: usize = 0;
                while j < i
                    invariant
                        i < n,
                        n == self.items@.len(),
                        j <= i,
                        g == self.items@[i as int].origin_at,
                        seen ==> exists|x: int|
                            0 <= x < i && member_of(#[trigger] self.items@[x], owner@, section, g),
                        !seen ==> forall|x: int|
                            0 <= x < j ==> !member_of(
                                #[trigger] self.items@[x],
                                owner@,
                                section,
                                g,
                            ),
                    decreases i - j,
                {
                    let o = &self.items[j];
                    if o.section == section && o.origin_at == g && o.owner == *owner {
                        seen = true;
                    }
                    j = j + 1;
                }
                if !seen {
                    let mut cells: Vec<Option<i64>> = Vec::new();
                    let mut any = false;
                    let mut c: usize = 0;
                    while c < ticks.len()
                        invariant
                            n == self.items@.len(),
                            c <= ticks@.len(),
                            cells@.len() == c,
                            forall|x: int|
                                0 <= x < c ==> cell_ok(
                                    self.items@,
                                    owner@,
                                    section,
                                    g,
                                    ticks@[x],
                                    #[trigger] cells@[x],
                                ),
                            any <==> exists|x: int| 0 <= x < c && (#[trigger] cells@[x]) is Some,
                        decreases ticks@.len() - c,
                    {
                        let ghost cells0 = cells@;
                        let cell = self.cell_at(owner, section, g, ticks[c]);
                        if cell.is_some() {
                            any = true;
                        }
                        cells.push(cell);
                        proof {
                            assert forall|x: int| 0 <= x < c + 1 implies cell_ok(
                                self.items@,
                                owner@,
                                section,
                                g,
                                ticks@[x],
                                #[trigger] cells@[x],
                            ) by {
                                if x < c {
                                    assert(cells@[x] == cells0[x]);
                                }
                            }
                            assert(cells@[c as int] == cell);
                            if any {
                                if cell is Some {
                                    assert(exists|x: int|
                                        0 <= x < c + 1 && (#[trigger] cells@[x]) is Some);
                                } else {
                                    let x0 = choose|x0: int|
                                        0 <= x0 < c && (#[trigger] cells0[x0]) is Some;
                                    assert(cells@[x0] == cells0[x0]);
                                    assert(exists|x: int|
                                        0 <= x < c + 1 && (#[trigger] cells@[x]) is Some);
                                }
                            } else {
                                assert forall|x: int|
                                    0 <= x < c + 1 implies !((#[trigger] cells@[x]) is Some) by {
                                    if x < c {
                                        assert(cells@[x] == cells0[x]);
                                    }
                                }
                            }
                        }
                        c = c + 1;
                    }
                    if any {
                        let best = self.newest_member(owner, section, g, i);
                        let name = self.items[best].name.clone();
                        rows.push(CompareRow { name, origin_at: g, cells });
                        pushed = true;
                        proof {
                            let len0 = rows0.len() as int;
                            assert(rows@.last().origin_at == g);
                            assert(row_ok(self.items@, owner@, section, ticks@, rows@[len0]));
                        }
                    } else {
                        dead = true;
                        proof {
                            assert forall|m2: int, c2: int|
                                0 <= m2 < n && 0 <= c2 < ticks@.len() && member_of(
                                    #[trigger] self.items@[m2],
                                    owner@,
                                    section,
                                    g,
                                ) implies !self.items@[m2].alive_at(#[trigger] ticks@[c2]) by {
                                assert(!(cells@[c2] is Some));
                                assert(cell_ok(
                                    self.items@,
                                    owner@,
                                    section,
                                    g,
                                    ticks@[c2],
                                    cells@[c2],
                                ));
                            }
                        }
                    }
                }
            }
            proof {
                if !pushed {
                    assert(rows@ == rows0);
                }
                assert forall|k: int| 0 <= k < rows@.len() implies row_ok(
                    self.items@,
                    owner@,
                    section,
                    ticks@,
                    #[trigger] rows@[k],
                ) by {
                    if k < rows0.len() {
                        assert(rows@[k] == rows0[k]);
                    }
                }
                assert forall|k1: int, k2: int|
                    #![trigger rows@[k1], rows@[k2]]
                    0 <= k1 < k2 < rows@.len() implies rows@[k1].origin_at
                    != rows@[k2].origin_at by {
                    if k2 < rows0.len() {
                        assert(rows@[k1] == rows0[k1]);
                        assert(rows@[k2] == rows0[k2]);
                    } else {
                        assert(rows@[k1] == rows0[k1]);
                        if rows0[k1].origin_at == g {
                            let j0 = choose|j0: int|
                                0 <= j0 < i && member_of(
                                    #[trigger] self.items@[j0],
                                    owner@,
                                    section,
                                    rows0[k1].origin_at,
                                );
                            assert(member_of(self.items@[j0], owner@, section, g));
                            assert(false);
                        }
                    }
                }
                assert forall|k: int| #![trigger rows@[k]]
                    0 <= k < rows@.len() implies exists|j: int|
                    0 <= j < i + 1 && member_of(
                        #[trigger] self.items@[j],
                        owner@,
                        section,
                        rows@[k].origin_at,
                    ) by {
                    if k < rows0.len() {
                        assert(rows@[k] == rows0[k]);
                        let j0 = choose|j0: int|
                            0 <= j0 < i && member_of(
                                #[trigger] self.items@[j0],
                                owner@,
                                section,
                                rows0[k].origin_at,
                            );
                        assert(member_of(self.items@[j0], owner@, section, rows@[k].origin_at));
                    } else {
                        assert(member_of(
                            self.items@[i as int],
                            owner@,
                            section,
                            rows@[k].origin_at,
                        ));
                    }
                }
                assert forall|m: int, c: int|
                    #![trigger self.items@[m].alive_at(ticks@[c])]
                    0 <= m < n && 0 <= c < ticks@.len() && self.items@[m].in_section(
                        owner@,
                        section,
                    ) && self.items@[m].alive_at(ticks@[c]) && (exists|j: int|
                        0 <= j < i + 1 && member_of(
                            #[trigger] self.items@[j],
                            owner@,
                            section,
                            self.items@[m].origin_at,
                        )) implies exists|k: int|
                    0 <= k < rows@.len() && (#[trigger] rows@[k]).origin_at
                        == self.items@[m].origin_at by {
                    let j0 = choose|j0: int|
                        0 <= j0 < i + 1 && member_of(
                            #[trigger] self.items@[j0],
                            owner@,
                            section,
                            self.items@[m].origin_at,
                        );
                    if j0 < i {
                        let k = choose|k: int|
                            0 <= k < rows0.len() && (#[trigger] rows0[k]).origin_at
                                == self.items@[m].origin_at;
                        assert(rows@[k] == rows0[k]);
                        assert(rows@[k].origin_at == self.items@[m].origin_at);
                    } else {
                        // the first version of this group is items[i] itself
                        assert(member_of(self.items@[i as int], owner@, section, self.items@[m].origin_at));
                        assert(self.items@[m].origin_at == g);
                        assert(relevant);
                        if seen {
                            let x = choose|x: int|
                                0 <= x < i && member_of(
                                    #[trigger] self.items@[x],
                                    owner@,
                                    section,
                                    g,
                                );
                            let k = choose|k: int|
                                0 <= k < rows0.len() && (#[trigger] rows0[k]).origin_at
                                    == self.items@[m].origin_at;
                            assert(rows@[k] == rows0[k]);
                            assert(rows@[k].origin_at == self.items@[m].origin_at);
                        } else if pushed {
                            assert(rows@.last().origin_at == g);
                        } else {
                            assert(dead);
                            assert(!self.items@[m].alive_at(ticks@[c]));
                            assert(false);
                        }
                    }
                }
            }
            i = i + 1;
        }
        let mut totals: Vec<i128> = Vec::new();
        let mut c: usize = 0;
        while c < ticks.len()
            invariant
                self.wf(),
                c <= ticks@.len(),
                totals@.len() == c,
                forall|x: int|
                    0 <= x < c ==> #[trigger] totals@[x] == self.sum_alive(
                        owner@,
                        section,
                        ticks@[x],
                        self.items@.len() as int,
                    ),
            decreases ticks@.len() - c,
        {
            let t = self.section_total(owner, section, ticks[c]);
            totals.push(t);
            c = c + 1;
        }
        let ghost rowsg = rows@;
        let result = (rows, totals);
        proof {
            assert(result.0@ == rowsg);
            assert forall|m: int, c2: int|
                #![trigger self.items@[m].alive_at(ticks@[c2])]
                0 <= m < n && 0 <= c2 < ticks@.len() && self.items@[m].in_section(owner@, section)
                    && self.items@[m].alive_at(ticks@[c2]) implies exists|k: int|
                0 <= k < result.0@.len() && (#[trigger] result.0@[k]).origin_at
                    == self.items@[m].origin_at by {
                assert(member_of(self.items@[m], owner@, section, self.items@[m].origin_at));
                let k = choose|k: int|
                    0 <= k < rowsg.len() && (#[trigger] rowsg[k]).origin_at
                        == self.items@[m].origin_at;
                assert(result.0@[k] == rowsg[k]);
            }
        }
        result
    }
}

} // verus!
