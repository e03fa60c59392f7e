//! The versioned entity store. A ledger holds, for one domain (balance sheet
//! or budget), every owner's categories, every version row ever written for
//! their items, their snapshots, and the clock that stamps all of it.
//!
//! Version rows are append-only. Editing a logical item closes its current
//! version and appends a fresh one; deleting it closes the current version
//! only. `Ledger::wf` is the invariant that every operation preserves:
//! ticks are per-owner unique and below the clock, versions of one logical
//! item (same owner, section and origin) have non-overlapping validity
//! windows with only the newest possibly open, and each `(owner, section,
//! name key)` has at most one open version.

use vstd::prelude::*;
use crate::clock::Clock;
use crate::names::fold;
use crate::names::fold_name;
use crate::names::key_eq;
use crate::names::trim_name;
use crate::names::trim_ws;
use crate::LedgerError;
use crate::MAX_ITEM_NAME_LEN;
use crate::OPEN_END;

verus! {

/// A category: a display name, its folded uniqueness key, and the scope it
/// is unique in. Categories are never versioned; renaming mutates in place.
#[derive(Debug)]
pub struct Category {
    pub name: String,
    pub name_key: Vec<char>,
    pub owner: String,
    pub section: bool,
}

/// One immutable version row of a logical item, valid during the half-open
/// tick window `[created_at, closed_at)`.
///
/// `origin_at` is the tick of the first-ever version of the logical item and
/// is carried unchanged through every edit; together with the owner and
/// section it identifies the logical item across renames. The category name
/// and key are denormalised copies taken when the version was written:
/// renaming a category later does not relabel them.
#[derive(Debug)]
#[verifier::ext_equal]
pub struct ItemVersion {
    pub name: String,
    pub name_key: Vec<char>,
    pub amount: i64,
    pub category_name: String,
    pub category_key: Vec<char>,
    pub owner: String,
    pub section: bool,
    pub created_at: u64,
    pub origin_at: u64,
    pub closed_at: u64,
    pub is_closed: bool,
}

impl ItemVersion {
    /// The core predicate of the store: this version was the state of its
    /// logical item at tick `t`.
    pub open spec fn alive_at(self, t: u64) -> bool {
        self.created_at <= t < self.closed_at
    }

    /// Whether this row belongs to the given owner and section.
    pub open spec fn in_section(self, owner: Seq<char>, section: bool) -> bool {
        self.owner@ == owner && self.section == section
    }
}

/// Two version rows of the same logical item.
pub open spec fn same_group(a: ItemVersion, b: ItemVersion) -> bool {
    a.owner@ == b.owner@ && a.section == b.section && a.origin_at == b.origin_at
}

/// A durable pointer to a tick, with the net worth the caller computed when
/// it was taken. `deletion_marker` is zero while the snapshot is live.
#[derive(Debug)]
pub struct SnapshotRow {
    pub tick: u64,
    pub owner: String,
    pub date_label: String,
    pub net_worth: i128,
    pub comment: String,
    pub deletion_marker: u64,
}

/// What `create_category` did: either a fresh category was appended at the
/// index, or one with the same key already existed there. The latter is a
/// soft, user-recoverable condition, not an error.
#[derive(Debug, Clone, Copy, PartialEq, Eq, Structural)]
pub enum CategoryOutcome {
    Created(usize),
    Existing(usize),
}

pub struct Ledger {
    pub clock: Clock,
    pub categories: Vec<Category>,
    pub items: Vec<ItemVersion>,
    pub snapshots: Vec<SnapshotRow>,
}

pub open spec fn cat_ok(c: Category) -> bool {
    &&& c.name_key@ == fold(c.name@)
    &&& c.name@.len() > 0
}

pub open spec fn item_ok(it: ItemVersion, clock: Clock) -> bool {
    &&& it.name_key@ == fold(it.name@)
    &&& it.category_key@ == fold(it.category_name@)
    &&& 0 < it.name@.len() <= MAX_ITEM_NAME_LEN
    &&& it.amount >= 0
    &&& clock.has_owner(it.owner@)
    &&& 0 < it.created_at <= clock.tick_of(it.owner@)
    &&& 0 < it.origin_at <= it.created_at
    &&& it.is_closed ==> it.created_at <= it.closed_at <= clock.tick_of(it.owner@)
    &&& !it.is_closed ==> it.closed_at == OPEN_END
}

pub open spec fn snap_ok(s: SnapshotRow, clock: Clock) -> bool {
    &&& clock.has_owner(s.owner@)
    &&& 0 < s.tick <= clock.tick_of(s.owner@)
}

/// Categories are well formed and unique per `(owner, section, name key)`.
pub open spec fn cats_wf(cats: Seq<Category>) -> bool {
    &&& forall|i: int| 0 <= i < cats.len() ==> cat_ok(#[trigger] cats[i])
    &&& forall|i: int, j: int|
        #![trigger cats[i], cats[j]]
        0 <= i < j < cats.len() ==> !(cats[i].owner@ == cats[j].owner@ && cats[i].section
            == cats[j].section && cats[i].name_key@ == cats[j].name_key@)
}

/// The versioning invariants of the item rows:
/// creation ticks are per-owner unique and in insertion order; within one
/// logical item an earlier version is closed no later than the next begins,
/// so only the newest version can be open; at most one version per
/// `(owner, section, name key)` is open; and every row's origin is the
/// creation tick of a row of its group.
pub open spec fn items_wf(clock: Clock, items: Seq<ItemVersion>) -> bool {
    &&& forall|i: int| 0 <= i < items.len() ==> item_ok(#[trigger] items[i], clock)
    &&& items_history_wf(items)
}

/// The clock-independent part of the versioning invariants: creation ticks
/// are per-owner unique and in insertion order; within one logical item an
/// earlier version is closed no later than the next begins, so only the
/// newest version can be open; at most one version per `(owner, section,
/// name key)` is open; and every row's origin is the creation tick of a row
/// of its group.
#[verifier::opaque]
pub open spec fn items_history_wf(items: Seq<ItemVersion>) -> bool {
    &&& forall|i: int, j: int|
        #![trigger items[i], items[j]]
        0 <= i < j < items.len() && items[i].owner@ == items[j].owner@ ==> items[i].created_at
            < items[j].created_at
    &&& forall|i: int, j: int|
        #![trigger items[i], items[j]]
        0 <= i < j < items.len() && same_group(items[i], items[j]) ==> items[i].is_closed
            && items[i].closed_at <= items[j].created_at
    &&& forall|i: int, j: int|
        #![trigger items[i], items[j]]
        0 <= i < j < items.len() && items[i].owner@ == items[j].owner@ && items[i].section
            == items[j].section && items[i].name_key@ == items[j].name_key@ ==> items[i].is_closed
            || items[j].is_closed
    &&& forall|i: int|
        0 <= i < items.len() ==> exists|j: int|
            0 <= j < items.len() && same_group(#[trigger] items[i], items[j])
                && items[j].created_at == items[i].origin_at
}

/// Snapshot rows are stamped with issued ticks, strictly increasing per
/// owner in insertion order.
pub open spec fn snaps_wf(clock: Clock, snaps: Seq<SnapshotRow>) -> bool {
    &&& forall|i: int| 0 <= i < snaps.len() ==> snap_ok(#[trigger] snaps[i], clock)
    &&& snaps_order_wf(snaps)
}

/// Snapshot ticks are strictly increasing per owner in insertion order.
pub open spec fn snaps_order_wf(snaps: Seq<SnapshotRow>) -> bool {
    forall|i: int, j: int|
        #![trigger snaps[i], snaps[j]]
        0 <= i < j < snaps.len() && snaps[i].owner@ == snaps[j].owner@ ==> snaps[i].tick
            < snaps[j].tick
}

impl Ledger {
    /// The store invariant, established by `new` and preserved by every
    /// operation.
    pub open spec fn wf(self) -> bool {
        &&& self.clock.wf()
        &&& cats_wf(self.categories@)
        &&& items_wf(self.clock, self.items@)
        &&& snaps_wf(self.clock, self.snapshots@)
    }

    pub open spec fn has_category(self, owner: Seq<char>, section: bool, key: Seq<char>) -> bool {
        exists|i: int|
            0 <= i < self.categories@.len() && (#[trigger] self.categories@[i]).owner@ == owner
                && self.categories@[i].section == section && self.categories@[i].name_key@ == key
    }

    pub open spec fn cat_idx_of(self, owner: Seq<char>, section: bool, key: Seq<char>) -> int {
        choose|i: int|
            0 <= i < self.categories@.len() && (#[trigger] self.categories@[i]).owner@ == owner
                && self.categories@[i].section == section && self.categories@[i].name_key@ == key
    }

    /// Whether some version row with this name key is currently open.
    pub open spec fn has_open_item(self, owner: Seq<char>, section: bool, key: Seq<char>) -> bool {
        exists|i: int|
            0 <= i < self.items@.len() && (#[trigger] self.items@[i]).in_section(owner, section)
                && self.items@[i].name_key@ == key && !self.items@[i].is_closed
    }

    pub open spec fn open_idx_of(self, owner: Seq<char>, section: bool, key: Seq<char>) -> int {
        choose|i: int|
            0 <= i < self.items@.len() && (#[trigger] self.items@[i]).in_section(owner, section)
                && self.items@[i].name_key@ == key && !self.items@[i].is_closed
    }

    /// An empty store.
    pub fn new() -> (r: Ledger)
        ensures
            r.wf(),
            r.clock.rows@.len() == 0,
            r.categories@.len() == 0,
            r.items@.len() == 0,
            r.snapshots@.len() == 0,
    {
        proof {
            reveal(crate::store::items_history_wf);
        }
        Ledger { clock: Clock::new(), categories: Vec::new(), items: Vec::new(), snapshots: Vec::new() }
    }

    /// Find a category by scope and key.
    pub fn find_category(&self, owner: &String, section: bool, key: &Vec<char>) -> (r: Option<
        usize,
    >)
        requires
            self.wf(),
        ensures
            match r {
                Some(i) => {
                    &&& self.has_category(owner@, section, key@)
                    &&& i == self.cat_idx_of(owner@, section, key@)
                    &&& i < self.categories@.len()
                    &&& self.categories@[i as int].owner@ == owner@
                    &&& self.categories@[i as int].section == section
                    &&& self.categories@[i as int].name_key@ == key@
                },
                None => !self.has_category(owner@, section, key@),
            },
    {
        let n = self.categories.len();
        let mut i: usize = 0;
        while i < n
            invariant
                self.wf(),
                n == self.categories@.len(),
                i <= n,
                forall|k: int|
                    0 <= k < i ==> !((#[trigger] self.categories@[k]).owner@ == owner@
                        && self.categories@[k].section == section && self.categories@[k].name_key@
                        == key@),
            decreases n - i,
        {
            let c = &self.categories[i];
            if c.section == section && c.owner == *owner && key_eq(&c.name_key, key) {
                proof {
                    let j = self.cat_idx_of(owner@, section, key@);
                    assert(0 <= j < self.categories@.len() && self.categories@[j].owner@ == owner@
                        && self.categories@[j].section == section
                        && self.categories@[j].name_key@ == key@);
                    if j != i {
                        assert(false);
                    }
                }
                return Some(i);
            }
            i = i + 1;
        }
        None
    }

    /// Find the open version row with this name key, if any. By the store
    /// invariant there is at most one.
    #[verifier::rlimit(50)]
    pub fn find_open_item(&self, owner: &String, section: bool, key: &Vec<char>) -> (r: Option<
        usize,
    >)
        requires
            self.wf(),
        ensures
            match r {
                Some(i) => {
                    &&& self.has_open_item(owner@, section, key@)
                    &&& i == self.open_idx_of(owner@, section, key@)
                    &&& i < self.items@.len()
                    &&& self.items@[i as int].in_section(owner@, section)
                    &&& self.items@[i as int].name_key@ == key@
                    &&& !self.items@[i as int].is_closed
                },
                None => !self.has_open_item(owner@, section, key@),
            },
    {
        let n = self.items.len();
        let mut i: usize = 0;
        while i < n
            invariant
                self.wf(),
                n == self.items@.len(),
                i <= n,
                forall|k: int|
                    0 <= k < i ==> !((#[trigger] self.items@[k]).in_section(owner@, section)
                        && self.items@[k].name_key@ == key@ && !self.items@[k].is_closed),
            decreases n - i,
        {
            let it = &self.items[i];
            if it.section == section && !it.is_closed && it.owner == *owner && key_eq(
                &it.name_key,
                key,
            ) {
                proof {
                    reveal(crate::store::items_history_wf);
                    let j = self.open_idx_of(owner@, section, key@);
                    assert(0 <= j < self.items@.len() && self.items@[j].in_section(owner@, section)
                        && self.items@[j].name_key@ == key@ && !self.items@[j].is_closed);
                    if j != i {
                        assert(false);
                    }
                }
                return Some(i);
            }
            i = i + 1;
        }
        None
    }

    /// Why `create_category` refuses, if it does.
    pub open spec fn create_category_check(
        self,
        owner: Seq<char>,
        section: bool,
        name: Seq<char>,
    ) -> Option<LedgerError> {
        if trim_ws(name).len() == 0 {
            Some(LedgerError::EmptyName)
        } else {
            None
        }
    }

    /// Add a category. The name is trimmed and must be non-empty; if a
    /// category with the same folded key already exists in `(owner,
    /// section)` nothing is inserted and its index is reported as
    /// `Existing`, a soft condition the caller can recover from.
    pub fn create_category(&mut self, owner: &String, section: bool, name: &String) -> (r: Result<
        CategoryOutcome,
        LedgerError,
    >)
        requires
            old(self).wf(),
        ensures
            final(self).wf(),
            final(self).clock == old(self).clock,
            final(self).items@ == old(self).items@,
            final(self).snapshots@ == old(self).snapshots@,
            match r {
                Err(e) => {
                    &&& Some(e) == old(self).create_category_check(owner@, section, name@)
                    &&& final(self).categories@ == old(self).categories@
                },
                Ok(CategoryOutcome::Existing(i)) => {
                    &&& old(self).create_category_check(owner@, section, name@) is None
                    &&& old(self).has_category(owner@, section, fold(trim_ws(name@)))
                    &&& i == old(self).cat_idx_of(owner@, section, fold(trim_ws(name@)))
                    &&& final(self).categories@ == old(self).categories@
                },
                Ok(CategoryOutcome::Created(i)) => {
                    &&& old(self).create_category_check(owner@, section, name@) is None
                    &&& !old(self).has_category(owner@, section, fold(trim_ws(name@)))
                    &&& i == old(self).categories@.len()
                    &&& final(self).categories@.len() == old(self).categories@.len() + 1
                    &&& final(self).categories@.subrange(0, i as int) == old(self).categories@
                    &&& final(self).categories@.last().name@ == trim_ws(name@)
                    &&& final(self).categories@.last().name_key@ == fold(trim_ws(name@))
                    &&& final(self).categories@.last().owner@ == owner@
                    &&& final(self).categories@.last().section == section
                },
            },
    {
        let trimmed = trim_name(name.as_str());
        if trimmed.as_str().is_empty() {
            assert(trimmed@.len() == 0);
            return Err(LedgerError::EmptyName);
        }
        let key = fold_name(trimmed.as_str());
        match self.find_category(owner, section, &key) {
            Some(i) => Ok(CategoryOutcome::Existing(i)),
            None => {
                let i = self.categories.len();
                let ghost pre = *self;
                self.categories.push(
                    Category { name: trimmed, name_key: key, owner: owner.clone(), section },
                );
                proof {
                    let n = pre.categories@.len() as int;
                    assert(self.categories@.subrange(0, n) =~= pre.categories@);
                    assert forall|x: int|
                        0 <= x < self.categories@.len() implies cat_ok(
                        #[trigger] self.categories@[x],
                    ) by {
                        if x < n {
                            assert(self.categories@[x] == pre.categories@[x]);
                        } else {
                            assert(self.categories@[x].name@ == trim_ws(name@));
                        }
                    }
                    assert forall|a: int, b: int|
                        #![trigger self.categories@[a], self.categories@[b]]
                        0 <= a < b < self.categories@.len() implies !(self.categories@[a].owner@
                        == self.categories@[b].owner@ && self.categories@[a].section
                        == self.categories@[b].section && self.categories@[a].name_key@
                        == self.categories@[b].name_key@) by {
                        if b == n {
                            if self.categories@[a].owner@ == owner@ && self.categories@[a].section
                                == section && self.categories@[a].name_key@ == fold(
                                trim_ws(name@),
                            ) {
                                assert(pre.has_category(owner@, section, fold(trim_ws(name@))));
                            }
                        }
                    }
                }
                Ok(CategoryOutcome::Created(i))
            },
        }
    }

    /// Why `rename_category` refuses, if it does.
    pub open spec fn rename_category_check(
        self,
        owner: Seq<char>,
        section: bool,
        current: Seq<char>,
        new_name: Seq<char>,
    ) -> Option<LedgerError> {
        if !self.has_category(owner, section, fold(current)) {
            Some(LedgerError::NotFound)
        } else if trim_ws(new_name).len() == 0 {
            Some(LedgerError::EmptyName)
        } else if exists|j: int|
            0 <= j < self.categories@.len() && j != self.cat_idx_of(owner, section, fold(current))
                && (#[trigger] self.categories@[j]).owner@ == owner && self.categories@[j].section
                == section && self.categories@[j].name_key@ == fold(trim_ws(new_name)) {
            Some(LedgerError::DuplicateName)
        } else {
            None
        }
    }

    /// Rename the category whose current name folds to `current`'s key. The
    /// new name is trimmed, must be non-empty and must not collide with any
    /// other category of the scope. Item version rows keep their
    /// denormalised category labels: renaming never rewrites history.
    #[verifier::rlimit(100)]
    pub fn rename_category(
        &mut self,
        owner: &String,
        section: bool,
        current: &String,
        new_name: &String,
    ) -> (r: Result<usize, LedgerError>)
        requires
            old(self).wf(),
        ensures
            final(self).wf(),
            final(self).clock == old(self).clock,
            final(self).items@ == old(self).items@,
            final(self).snapshots@ == old(self).snapshots@,
            match r {
                Err(e) => {
                    &&& Some(e) == old(self).rename_category_check(
                        owner@,
                        section,
                        current@,
                        new_name@,
                    )
                    &&& final(self).categories@ == old(self).categories@
                },
                Ok(i) => {
                    &&& old(self).rename_category_check(owner@, section, current@, new_name@)
                        is None
                    &&& i == old(self).cat_idx_of(owner@, section, fold(current@))
                    &&& i < old(self).categories@.len()
                    &&& final(self).categories@.len() == old(self).categories@.len()
                    &&& forall|k: int|
                        0 <= k < old(self).categories@.len() && k != i ==> #[trigger] final(self).categories@[k] == old(self).categories@[k]
                    &&& final(self).categories@[i as int].name@ == trim_ws(new_name@)
                    &&& final(self).categories@[i as int].name_key@ == fold(trim_ws(new_name@))
                    &&& final(self).categories@[i as int].owner@ == old(self).categories@[i as int].owner@
                    &&& final(self).categories@[i as int].section == old(self).categories@[i as int].section
                },
            },
    {
        let cur_key = fold_name(current.as_str());
        let i = match self.find_category(owner, section, &cur_key) {
            Some(i) => i,
            None => {
                return Err(LedgerError::NotFound);
            },
        };
        let trimmed = trim_name(new_name.as_str());
        if trimmed.as_str().is_empty() {
            assert(trimmed@.len() == 0);
            return Err(LedgerError::EmptyName);
        }
        let new_key = fold_name(trimmed.as_str());
        // look for a different category already using the new key
        let n = self.categories.len();
        let mut j: usize = 0;
        while j < n
            invariant
                self.wf(),
                n == self.categories@.len(),
                j <= n,
                i < n,
                self.has_category(owner@, section, fold(current@)),
                i == self.cat_idx_of(owner@, section, fold(current@)),
                trim_ws(new_name@).len() != 0,
                new_key@ == fold(trim_ws(new_name@)),
                forall|k: int|
                    0 <= k < j && k != i ==> !((#[trigger] self.categories@[k]).owner@ == owner@
                        && self.categories@[k].section == section && self.categories@[k].name_key@
                        == new_key@),
            decreases n - j,
        {
            if j != i {
                let c = &self.categories[j];
                if c.section == section && c.owner == *owner && key_eq(&c.name_key, &new_key) {
                    proof {
                        let jj = j as int;
                        assert(0 <= jj < self.categories@.len() && jj != self.cat_idx_of(
                            owner@,
                            section,
                            fold(current@),
                        ) && self.categories@[jj].owner@ == owner@ && self.categories@[jj].section
                            == section && self.categories@[jj].name_key@ == fold(
                            trim_ws(new_name@),
                        ));
                    }
                    return Err(LedgerError::DuplicateName);
                }
            }
            j = j + 1;
        }
        let ghost pre = *self;
        let owner_copy = self.categories[i].owner.clone();
        self.categories[i] = Category {
            name: trimmed,
            name_key: new_key,
            owner: owner_copy,
            section,
        };
        proof {
            assert(self.categories@[i as int].owner@ == pre.categories@[i as int].owner@);
            assert(pre.categories@[i as int].owner@ == owner@);
            assert forall|x: int|
                0 <= x < self.categories@.len() implies cat_ok(#[trigger] self.categories@[x]) by {
                if x != i {
                    assert(self.categories@[x] == pre.categories@[x]);
                } else {
                    assert(self.categories@[x].name@ == trim_ws(new_name@));
                }
            }
            assert forall|a: int, b: int|
                #![trigger self.categories@[a], self.categories@[b]]
                0 <= a < b < self.categories@.len() implies !(self.categories@[a].owner@
                == self.categories@[b].owner@ && self.categories@[a].section
                == self.categories@[b].section && self.categories@[a].name_key@
                == self.categories@[b].name_key@) by {
                if a != i && b != i {
                    assert(self.categories@[a] == pre.categories@[a]);
                    assert(self.categories@[b] == pre.categories@[b]);
                } else {
                    let x = if a == i { b } else { a };
                    assert(self.categories@[x] == pre.categories@[x]);
                    if self.categories@[x].owner@ == owner@ && self.categories@[x].section
                        == section && self.categories@[x].name_key@ == fold(trim_ws(new_name@)) {
                        assert(false);
                    }
                }
            }
        }
        Ok(i)
    }
}

} // verus!
