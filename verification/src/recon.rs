//! Point-in-time reconstruction: the pure range filter that recovers the
//! ledger as of any tick, and the sums over what it returns.

use vstd::prelude::*;
use crate::store::item_ok;
use crate::store::Ledger;

verus! {

impl Ledger {
    /// Indices of the categories of one owner and section, in insertion
    /// order. Categories are not versioned, so this is the same listing at
    /// every point in time.
    pub fn list_categories(&self, owner: &String, section: bool) -> (r: Vec<usize>)
        requires
            self.wf(),
        ensures
            forall|a: int, b: int| 0 <= a < b < r@.len() ==> r@[a] < r@[b],
            forall|a: int|
                0 <= a < r@.len() ==> r@[a] < self.categories@.len() && (
                #[trigger] self.categories@[r@[a] as int]).owner@ == owner@
                    && self.categories@[r@[a] as int].section == section,
            forall|i: int|
                0 <= i < self.categories@.len() && (#[trigger] self.categories@[i]).owner@
                    == owner@ && self.categories@[i].section == section ==> r@.contains(i as usize),
    {
        let n = self.categories.len();
        let mut r: Vec<usize> = Vec::new();
        let mut i: usize = 0;
        while i < n
            invariant
                n == self.categories@.len(),
                i <= n,
                forall|a: int, b: int| 0 <= a < b < r@.len() ==> r@[a] < r@[b],
                forall|a: int| 0 <= a < r@.len() ==> r@[a] < i,
                forall|a: int|
                    0 <= a < r@.len() ==> (#[trigger] self.categories@[r@[a] as int]).owner@
                        == owner@ && self.categories@[r@[a] as int].section == section,
                forall|j: int|
                    0 <= j < i && (#[trigger] self.categories@[j]).owner@ == owner@
                        && self.categories@[j].section == section ==> r@.contains(j as usize),
            decreases n - i,
        {
            let ghost r0 = r@;
            let c = &self.categories[i];
            if c.section == section && c.owner == *owner {
                r.push(i);
                assert(r@[r@.len() - 1] == i);
            }
            proof {
                assert forall|j: int|
                    0 <= j < i + 1 && (#[trigger] self.categories@[j]).owner@ == owner@
                        && self.categories@[j].section == section implies r@.contains(
                    j as usize,
                ) by {
                    if j < i {
                        let a = choose|a: int| 0 <= a < r0.len() && r0[a] == j as usize;
                        assert(r@[a] == j as usize);
                    } else {
                        assert(r@[r@.len() - 1] == j as usize);
                    }
                }
            }
            i = i + 1;
        }
        r
    }

    /// Indices of the version rows of one owner and section alive at tick
    /// `t`: the rows with `created_at <= t < closed_at`. At `t` equal to the
    /// owner's current tick this is exactly the set of open versions.
    pub fn reconstruct(&self, owner: &String, section: bool, t: u64) -> (r: Vec<usize>)
        requires
            self.wf(),
        ensures
            forall|a: int, b: int| 0 <= a < b < r@.len() ==> r@[a] < r@[b],
            forall|a: int|
                0 <= a < r@.len() ==> r@[a] < self.items@.len() && (
                #[trigger] self.items@[r@[a] as int]).in_section(owner@, section)
                    && self.items@[r@[a] as int].alive_at(t),
            forall|i: int|
                0 <= i < self.items@.len() && (#[trigger] self.items@[i]).in_section(
                    owner@,
                    section,
                ) && self.items@[i].alive_at(t) ==> r@.contains(i as usize),
    {
        let n = self.items.len();
        let mut r: Vec<usize> = Vec::new();
        let mut i: usize = 0;
        while i < n
            invariant
                n == self.items@.len(),
                i <= n,
                forall|a: int, b: int| 0 <= a < b < r@.len() ==> r@[a] < r@[b],
                forall|a: int| 0 <= a < r@.len() ==> r@[a] < i,
                forall|a: int|
                    0 <= a < r@.len() ==> (#[trigger] self.items@[r@[a] as int]).in_section(
                        owner@,
                        section,
                    ) && self.items@[r@[a] as int].alive_at(t),
                forall|j: int|
                    0 <= j < i && (#[trigger] self.items@[j]).in_section(owner@, section)
                        && self.items@[j].alive_at(t) ==> r@.contains(j as usize),
            decreases n - i,
        {
            let ghost r0 = r@;
            let it = &self.items[i];
            if it.section == section && it.created_at <= t && t < it.closed_at && it.owner
                == *owner {
                r.push(i);
                assert(r@[r@.len() - 1] == i);
            }
            proof {
                assert forall|j: int|
                    0 <= j < i + 1 && (#[trigger] self.items@[j]).in_section(owner@, section)
                        && self.items@[j].alive_at(t) implies r@.contains(j as usize) by {
                    if j < i {
                        let a = choose|a: int| 0 <= a < r0.len() && r0[a] == j as usize;
                        assert(r@[a] == j as usize);
                    } else {
                        assert(r@[r@.len() - 1] == j as usize);
                    }
                }
            }
            i = i + 1;
        }
        r
    }

    /// Indices of the currently open version rows of one owner and section,
    /// in insertion order: what a listing page shows.
    pub fn list_open_items(&self, owner: &String, section: bool) -> (r: Vec<usize>)
        requires
            self.wf(),
        ensures
            forall|a: int, b: int| 0 <= a < b < r@.len() ==> r@[a] < r@[b],
            forall|a: int|
                0 <= a < r@.len() ==> r@[a] < self.items@.len() && (
                #[trigger] self.items@[r@[a] as int]).in_section(owner@, section)
                    && !self.items@[r@[a] as int].is_closed,
            forall|i: int|
                0 <= i < self.items@.len() && (#[trigger] self.items@[i]).in_section(
                    owner@,
                    section,
                ) && !self.items@[i].is_closed ==> r@.contains(i as usize),
    {
        let n = self.items.len();
        let mut r: Vec<usize> = Vec::new();
        let mut i: usize = 0;
        while i < n
            invariant
                n == self.items@.len(),
                i <= n,
                forall|a: int, b: int| 0 <= a < b < r@.len() ==> r@[a] < r@[b],
                forall|a: int| 0 <= a < r@.len() ==> r@[a] < i,
                forall|a: int|
                    0 <= a < r@.len() ==> (#[trigger] self.items@[r@[a] as int]).in_section(
                        owner@,
                        section,
                    ) && !self.items@[r@[a] as int].is_closed,
                forall|j: int|
                    0 <= j < i && (#[trigger] self.items@[j]).in_section(owner@, section)
                        && !self.items@[j].is_closed ==> r@.contains(j as usize),
            decreases n - i,
        {
            let ghost r0 = r@;
            let it = &self.items[i];
            if it.section == section && !it.is_closed && it.owner == *owner {
                r.push(i);
                assert(r@[r@.len() - 1] == i);
            }
            proof {
                assert forall|j: int|
                    0 <= j < i + 1 && (#[trigger] self.items@[j]).in_section(owner@, section)
                        && !self.items@[j].is_closed implies r@.contains(j as usize) by {
                    if j < i {
                        let a = choose|a: int| 0 <= a < r0.len() && r0[a] == j as usize;
                        assert(r@[a] == j as usize);
                    } else {
                        assert(r@[r@.len() - 1] == j as usize);
                    }
                }
            }
            i = i + 1;
        }
        r
    }

    /// The sum of the amounts of the first `upto` version rows that belong
    /// to the owner and section and are alive at tick `t`.
    pub open spec fn sum_alive(self, owner: Seq<char>, section: bool, t: u64, upto: int) -> int
        decreases upto,
    {
        if upto <= 0 {
            0
        } else {
            self.sum_alive(owner, section, t, upto - 1) + (if self.items@[upto - 1].in_section(
                owner,
                section,
            ) && self.items@[upto - 1].alive_at(t) {
                self.items@[upto - 1].amount as int
            } else {
                0
            })
        }
    }

    /// The total of one section of the ledger as of tick `t`: what a
    /// snapshot view recomputes for assets and liabilities. The result is
    /// exact; it cannot overflow because every amount fits an `i64` and
    /// there are fewer rows than `usize::MAX`.
    pub fn section_total(&self, owner: &String, section: bool, t: u64) -> (r: i128)
        requires
            self.wf(),
        ensures
            r == self.sum_alive(owner@, section, t, self.items@.len() as int),
            0 <= r,
    {
        proof {
            assert forall|m: int| 0 <= m < self.items@.len() implies 0 <= (
            #[trigger] self.items@[m]).amount by {
                assert(item_ok(self.items@[m], self.clock));
            }
        }
        let n = self.items.len();
        let mut acc: i128 = 0;
        let mut i: usize = 0;
        while i < n
            invariant
                n == self.items@.len(),
                i <= n,
                forall|m: int| 0 <= m < n ==> 0 <= (#[trigger] self.items@[m]).amount,
                acc == self.sum_alive(owner@, section, t, i as int),
                0 <= acc <= i * 0x7fff_ffff_ffff_ffff,
            decreases n - i,
        {
            let it = &self.items[i];
            if it.section == section && it.created_at <= t && t < it.closed_at && it.owner
                == *owner {
                acc = acc + (it.amount as i128);
            }
            i = i + 1;
        }
        acc
    }
}

} // verus!
