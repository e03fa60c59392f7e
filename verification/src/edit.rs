//! Editing and deleting logical items.
//!
//! An edit draws two fresh ticks: the current open version is closed at the
//! first and a new version carrying the same origin opens at the second, so
//! the closing edge and the opening edge stay distinguishable events on the
//! timeline. A deletion closes the current version only.

use vstd::prelude::*;
use vstd::string::StrSliceExecFns;
use crate::names::copy_key;
use crate::names::fold;
use crate::names::fold_name;
use crate::names::key_eq;
use crate::items::lemma_wf_after_append;
use crate::items::lemma_wf_after_close;
use crate::items::lemma_wf_clock_bumped;
use crate::store::items_history_wf;
use crate::items::opt_amount;
use crate::items::opt_name;
use crate::store::item_ok;
use crate::store::same_group;
use crate::store::ItemVersion;
use crate::store::Ledger;
use crate::LedgerError;
use crate::MAX_ITEM_NAME_LEN;
use crate::OPEN_END;

verus! {

impl Ledger {
    /// Why `update_item` refuses, if it does.
    pub open spec fn update_item_check(
        self,
        owner: Seq<char>,
        section: bool,
        current: Seq<char>,
        new_name: Option<String>,
        new_amount: Option<i64>,
        new_category: Option<String>,
    ) -> Option<LedgerError> {
        if !self.has_open_item(owner, section, fold(current)) {
            Some(LedgerError::NotFound)
        } else {
            let k = self.open_idx_of(owner, section, fold(current));
            let rname = opt_name(new_name, self.items@[k].name@);
            let ramount = opt_amount(new_amount, self.items@[k].amount);
            if rname.len() == 0 {
                Some(LedgerError::EmptyName)
            } else if rname.len() > MAX_ITEM_NAME_LEN {
                Some(LedgerError::NameTooLong)
            } else if ramount < 0 {
                Some(LedgerError::NegativeAmount)
            } else if (new_category matches Some(c) && !self.has_category(
                owner,
                section,
                fold(c@),
            )) {
                Some(LedgerError::NotFound)
            } else if (exists|j: int|
                0 <= j < self.items@.len() && j != k && (#[trigger] self.items@[j]).in_section(
                    owner,
                    section,
                ) && self.items@[j].name_key@ == fold(rname) && !self.items@[j].is_closed) {
                Some(LedgerError::DuplicateName)
            } else if !self.clock.has_owner(owner) || self.clock.tick_of(owner) + 2 >= OPEN_END {
                Some(LedgerError::StorageError)
            } else {
                None
            }
        }
    }

    /// The category label an edit stores on the new version: the current
    /// display name of the chosen category, or, when no category change was
    /// requested, the label copied on the version being edited (which may be
    /// stale if the category was renamed since - deliberately so).
    pub open spec fn resolved_category(
        self,
        owner: Seq<char>,
        section: bool,
        new_category: Option<String>,
        k: int,
    ) -> Seq<char> {
        match new_category {
            Some(c) => self.categories@[self.cat_idx_of(owner, section, fold(c@))].name@,
            None => self.items@[k].category_name@,
        }
    }
}

/// The state one successful edit leaves behind, relative to the state
/// before it: version `k` is closed at the first fresh tick, and one new
/// open version carrying the same origin is appended at the second.
pub open spec fn update_applied(
    pre: Ledger,
    post: Ledger,
    owner: Seq<char>,
    section: bool,
    k: int,
    rname: Seq<char>,
    ramount: i64,
    rcat: Seq<char>,
) -> bool {
    let t0 = pre.clock.tick_of(owner);
    &&& post.items@.len() == pre.items@.len() + 1
    &&& forall|m: int| 0 <= m < pre.items@.len() && m != k ==> #[trigger] post.items@[m] == pre.items@[m]
    &&& post.items@[k] == (ItemVersion {
        is_closed: true,
        closed_at: (t0 + 1) as u64,
        ..pre.items@[k]
    })
    &&& post.items@.last().name@ == rname
    &&& post.items@.last().name_key@ == fold(rname)
    &&& post.items@.last().amount == ramount
    &&& post.items@.last().category_name@ == rcat
    &&& post.items@.last().category_key@ == fold(rcat)
    &&& post.items@.last().owner@ == owner
    &&& post.items@.last().section == section
    &&& post.items@.last().created_at == t0 + 2
    &&& post.items@.last().origin_at == pre.items@[k].origin_at
    &&& post.items@.last().closed_at == OPEN_END
    &&& !post.items@.last().is_closed
    &&& post.categories@ == pre.categories@
    &&& post.snapshots@ == pre.snapshots@
    &&& post.clock.tick_of(owner) == t0 + 2
    &&& forall|o: Seq<char>| #[trigger] post.clock.has_owner(o) == pre.clock.has_owner(o)
    &&& forall|o: Seq<char>|
        pre.clock.has_owner(o) && o != owner ==> #[trigger] post.clock.tick_of(o)
            == pre.clock.tick_of(o)
}

impl Ledger {
    /// Edit the logical item whose current open version's name folds to
    /// `current`'s key. Omitted fields keep their current values. Two fresh
    /// ticks are drawn: the open version is closed at the first and the new
    /// version opens at the second, so the two edges stay distinct events.
    #[verifier::rlimit(30)]
    #[verifier::spinoff_prover]
    pub fn update_item(
        &mut self,
        owner: &String,
        section: bool,
        current: &String,
        new_name: Option<String>,
        new_amount: Option<i64>,
        new_category: Option<String>,
    ) -> (r: Result<usize, LedgerError>)
        requires
            old(self).wf(),
        ensures
            final(self).wf(),
            match r {
                Err(e) => {
                    &&& Some(e) == old(self).update_item_check(
                        owner@,
                        section,
                        current@,
                        new_name,
                        new_amount,
                        new_category,
                    )
                    &&& *final(self) == *old(self)
                },
                Ok(idx) => ({
                    let k = old(self).open_idx_of(owner@, section, fold(current@));
                    &&& old(self).update_item_check(
                        owner@,
                        section,
                        current@,
                        new_name,
                        new_amount,
                        new_category,
                    ) is None
                    &&& idx == old(self).items@.len()
                    &&& update_applied(
                        *old(self),
                        *final(self),
                        owner@,
                        section,
                        k,
                        opt_name(new_name, old(self).items@[k].name@),
                        opt_amount(new_amount, old(self).items@[k].amount),
                        old(self).resolved_category(owner@, section, new_category, k),
                    )
                }),
            },
    {
        let cur_key = fold_name(current.as_str());
        let k = match self.find_open_item(owner, section, &cur_key) {
            Some(k) => k,
            None => {
                return Err(LedgerError::NotFound);
            },
        };
        let rname: String = match &new_name {
            Some(s) => s.clone(),
            None => self.items[k].name.clone(),
        };
        if rname.as_str().is_empty() {
            return Err(LedgerError::EmptyName);
        }
        if rname.as_str().unicode_len() > MAX_ITEM_NAME_LEN {
            return Err(LedgerError::NameTooLong);
        }
        let ramount: i64 = match new_amount {
            Some(a) => a,
            None => self.items[k].amount,
        };
        if ramount < 0 {
            return Err(LedgerError::NegativeAmount);
        }
        let picked = match &new_category {
            Some(c) => {
                let ck = fold_name(c.as_str());
                match self.find_category(owner, section, &ck) {
                    Some(ci) => Some(ci),
                    None => {
                        return Err(LedgerError::NotFound);
                    },
                }
            },
            None => None,
        };
        let rcat_name: String = match picked {
            Some(ci) => self.categories[ci].name.clone(),
            None => self.items[k].category_name.clone(),
        };
        let rcat_key: Vec<char> = match picked {
            Some(ci) => copy_key(&self.categories[ci].name_key),
            None => copy_key(&self.items[k].category_key),
        };
        proof {
            if picked is Some {
                assert(crate::store::cat_ok(self.categories@[picked->0 as int]));
            } else {
                assert(item_ok(self.items@[k as int], self.clock));
            }
        }
        let rkey = fold_name(rname.as_str());
        let n = self.items.len();
        let mut j: usize = 0;
        while j < n
            invariant
                self.wf(),
                *self == *old(self),
                n == self.items@.len(),
                j <= n,
                k < n,
                old(self).has_open_item(owner@, section, fold(current@)),
                k == old(self).open_idx_of(owner@, section, fold(current@)),
                rname@ == opt_name(new_name, old(self).items@[k as int].name@),
                ramount == opt_amount(new_amount, old(self).items@[k as int].amount),
                0 < rname@.len() <= MAX_ITEM_NAME_LEN,
                ramount >= 0,
                new_category matches Some(c) ==> old(self).has_category(owner@, section, fold(c@)),
                rkey@ == fold(rname@),
                forall|m: int|
                    0 <= m < j && m != k ==> !((#[trigger] self.items@[m]).in_section(
                        owner@,
                        section,
                    ) && self.items@[m].name_key@ == rkey@ && !self.items@[m].is_closed),
            decreases n - j,
        {
            if j != k {
                let it = &self.items[j];
                if it.section == section && !it.is_closed && it.owner == *owner && key_eq(
                    &it.name_key,
                    &rkey,
                ) {
                    proof {
                        let jj = j as int;
                        assert(0 <= jj < self.items@.len() && jj != k
                            && self.items@[jj].in_section(owner@, section)
                            && self.items@[jj].name_key@ == fold(rname@)
                            && !self.items@[jj].is_closed);
                    }
                    return Err(LedgerError::DuplicateName);
                }
            }
            j = j + 1;
        }
        let t0 = match self.clock.peek(owner) {
            Ok(t) => t,
            Err(e) => {
                proof {
                    assert(item_ok(self.items@[k as int], self.clock));
                    assert(false);
                }
                return Err(e);
            },
        };
        if t0 >= OPEN_END - 2 {
            return Err(LedgerError::StorageError);
        }
        let ghost s0 = *self;
        let ghost knames = (
            opt_name(new_name, s0.items@[k as int].name@),
            opt_amount(new_amount, s0.items@[k as int].amount),
            s0.resolved_category(owner@, section, new_category, k as int),
        );
        proof {
            assert(rname@ == knames.0);
            assert(ramount == knames.1);
            assert(rcat_name@ == knames.2);
            assert(s0.update_item_check(owner@, section, current@, new_name, new_amount,
                new_category) is None);
        }
        let idx = self.apply_update(owner, k, rname, rkey, ramount, rcat_name, rcat_key);
        Ok(idx)
    }


    /// Why `delete_item` refuses, if it does.
    pub open spec fn delete_item_check(
        self,
        owner: Seq<char>,
        section: bool,
        current: Seq<char>,
    ) -> Option<LedgerError> {
        if !self.has_open_item(owner, section, fold(current)) {
            Some(LedgerError::NotFound)
        } else if !self.clock.has_owner(owner) || self.clock.tick_of(owner) + 1 >= OPEN_END {
            Some(LedgerError::StorageError)
        } else {
            None
        }
    }

    /// Delete the logical item whose current open version's name folds to
    /// `current`'s key: close that version at a fresh tick. No new row is
    /// written, and the closed history stays reconstructable.
    #[verifier::rlimit(30)]
    #[verifier::spinoff_prover]
    pub fn delete_item(&mut self, owner: &String, section: bool, current: &String) -> (r: Result<
        (),
        LedgerError,
    >)
        requires
            old(self).wf(),
        ensures
            final(self).wf(),
            match r {
                Err(e) => {
                    &&& Some(e) == old(self).delete_item_check(owner@, section, current@)
                    &&& *final(self) == *old(self)
                },
                Ok(_) => ({
                    let k = old(self).open_idx_of(owner@, section, fold(current@));
                    &&& old(self).delete_item_check(owner@, section, current@) is None
                    &&& final(self).items@.len() == old(self).items@.len()
                    &&& forall|m: int|
                        0 <= m < old(self).items@.len() && m != k ==> #[trigger] final(self).items@[m] == old(self).items@[m]
                    &&& final(self).items@[k] == (ItemVersion {
                        is_closed: true,
                        closed_at: (old(self).clock.tick_of(owner@) + 1) as u64,
                        ..old(self).items@[k]
                    })
                    &&& final(self).categories@ == old(self).categories@
                    &&& final(self).snapshots@ == old(self).snapshots@
                    &&& final(self).clock.tick_of(owner@) == old(self).clock.tick_of(owner@) + 1
                    &&& forall|o: Seq<char>|
                        #[trigger] final(self).clock.has_owner(o) == old(self).clock.has_owner(o)
                    &&& forall|o: Seq<char>|
                        old(self).clock.has_owner(o) && o != owner@ ==> #[trigger] final(self).clock.tick_of(o) == old(self).clock.tick_of(o)
                }),
            },
    {
        let cur_key = fold_name(current.as_str());
        let k = match self.find_open_item(owner, section, &cur_key) {
            Some(k) => k,
            None => {
                return Err(LedgerError::NotFound);
            },
        };
        let ghost s0 = *self;
        let t1 = match self.clock.advance(owner) {
            Ok(t) => t,
            Err(e) => {
                return Err(e);
            },
        };
        let ghost s1 = *self;
        proof {
            lemma_wf_clock_bumped(s0, s1, owner@);
        }
        self.items[k].is_closed = true;
        self.items[k].closed_at = t1;
        proof {
            assert(self.items@[k as int] =~= (ItemVersion {
                is_closed: true,
                closed_at: t1,
                ..s1.items@[k as int]
            }));
            lemma_wf_after_close(s1, *self, owner@, k as int, t1);
            assert(s0.delete_item_check(owner@, section, current@) is None);
            assert(self.items@[k as int] =~= (ItemVersion {
                is_closed: true,
                closed_at: (s0.clock.tick_of(owner@) + 1) as u64,
                ..s0.items@[k as int]
            }));
        }
        Ok(())
    }
}

/// After closing the open version at `k`, every version of its logical item
/// is closed, and the group still holds its first version, whose creation
/// tick is the shared origin.
#[verifier::rlimit(50)]
proof fn lemma_group_state_after_close(
    items0: Seq<ItemVersion>,
    items2: Seq<ItemVersion>,
    k: int,
    t: u64,
)
    requires
        items_history_wf(items0),
        0 <= k < items0.len(),
        !items0[k].is_closed,
        items2.len() == items0.len(),
        forall|m: int| 0 <= m < items0.len() && m != k ==> #[trigger] items2[m] == items0[m],
        items2[k] == (ItemVersion { is_closed: true, closed_at: t, ..items0[k] }),
    ensures
        forall|m: int|
            0 <= m < items2.len() && (#[trigger] items2[m]).owner@ == items2[k].owner@
                && items2[m].section == items2[k].section && items2[m].origin_at
                == items2[k].origin_at ==> items2[m].is_closed,
        exists|j: int|
            0 <= j < items2.len() && (#[trigger] items2[j]).owner@ == items2[k].owner@
                && items2[j].section == items2[k].section && items2[j].origin_at
                == items2[k].origin_at && items2[j].created_at == items2[k].origin_at,
{
    reveal(crate::store::items_history_wf);
    assert forall|m: int|
        0 <= m < items2.len() && (#[trigger] items2[m]).owner@ == items2[k].owner@
            && items2[m].section == items2[k].section && items2[m].origin_at
            == items2[k].origin_at implies items2[m].is_closed by {
        if m != k {
            assert(items2[m] == items0[m]);
            assert(same_group(items0[m], items0[k]));
            if k < m {
                assert(items0[k].is_closed);
                assert(false);
            }
        }
    }
    let j0 = choose|j0: int|
        0 <= j0 < items0.len() && same_group(#[trigger] items0[k], items0[j0])
            && items0[j0].created_at == items0[k].origin_at;
    if j0 != k {
        assert(items2[j0] == items0[j0]);
        assert(items2[j0].owner@ == items2[k].owner@ && items2[j0].section == items2[k].section
            && items2[j0].origin_at == items2[k].origin_at && items2[j0].created_at
            == items2[k].origin_at);
    } else {
        assert(items2[k].created_at == items2[k].origin_at);
    }
}

impl Ledger {
    /// Close the open version at index `k` with a fresh tick, which is
    /// returned. Nothing else changes.
    #[verifier::rlimit(50)]
    #[verifier::spinoff_prover]
    fn close_open(&mut self, owner: &String, k: usize) -> (t: u64)
        requires
            old(self).wf(),
            k < old(self).items@.len(),
            old(self).items@[k as int].owner@ == owner@,
            !old(self).items@[k as int].is_closed,
            old(self).clock.has_owner(owner@),
            old(self).clock.tick_of(owner@) + 1 < OPEN_END,
        ensures
            final(self).wf(),
            t == old(self).clock.tick_of(owner@) + 1,
            final(self).items@.len() == old(self).items@.len(),
            forall|m: int|
                0 <= m < old(self).items@.len() && m != k ==> #[trigger] final(self).items@[m] == old(self).items@[m],
            final(self).items@[k as int] == (ItemVersion {
                is_closed: true,
                closed_at: t,
                ..old(self).items@[k as int]
            }),
            final(self).categories@ == old(self).categories@,
            final(self).snapshots@ == old(self).snapshots@,
            final(self).clock.tick_of(owner@) == t,
            forall|o: Seq<char>|
                #[trigger] final(self).clock.has_owner(o) == old(self).clock.has_owner(o),
            forall|o: Seq<char>|
                old(self).clock.has_owner(o) && o != owner@ ==> #[trigger] final(self).clock.tick_of(o) == old(self).clock.tick_of(o),
    {
        let ghost s0 = *self;
        let t = match self.clock.advance(owner) {
            Ok(t) => t,
            Err(_) => {
                proof {
                    assert(false);
                }
                0
            },
        };
        let ghost s1 = *self;
        proof {
            lemma_wf_clock_bumped(s0, s1, owner@);
        }
        self.items[k].is_closed = true;
        self.items[k].closed_at = t;
        proof {
            assert(self.items@[k as int] =~= (ItemVersion {
                is_closed: true,
                closed_at: t,
                ..s1.items@[k as int]
            }));
            lemma_wf_after_close(s1, *self, owner@, k as int, t);
        }
        t
    }

    /// Append one open version stamped with a fresh tick, which becomes its
    /// creation time. The origin is either that same tick (a first version)
    /// or carried over from an existing, fully closed group.
    #[verifier::rlimit(50)]
    #[verifier::spinoff_prover]
    fn append_open(
        &mut self,
        owner: &String,
        name: String,
        name_key: Vec<char>,
        amount: i64,
        category_name: String,
        category_key: Vec<char>,
        section: bool,
        origin: u64,
    ) -> (idx: usize)
        requires
            old(self).wf(),
            name_key@ == fold(name@),
            0 < name@.len() <= MAX_ITEM_NAME_LEN,
            amount >= 0,
            category_key@ == fold(category_name@),
            old(self).clock.has_owner(owner@),
            old(self).clock.tick_of(owner@) + 1 < OPEN_END,
            forall|m: int|
                0 <= m < old(self).items@.len() && (#[trigger] old(self).items@[m]).in_section(
                    owner@,
                    section,
                ) && old(self).items@[m].name_key@ == name_key@ ==> old(self).items@[m].is_closed,
            origin == old(self).clock.tick_of(owner@) + 1 || exists|j: int|
                0 <= j < old(self).items@.len() && (#[trigger] old(self).items@[j]).in_section(
                    owner@,
                    section,
                ) && old(self).items@[j].origin_at == origin && old(self).items@[j].created_at
                    == origin,
            forall|m: int|
                0 <= m < old(self).items@.len() && (#[trigger] old(self).items@[m]).in_section(
                    owner@,
                    section,
                ) && old(self).items@[m].origin_at == origin ==> old(self).items@[m].is_closed,
        ensures
            final(self).wf(),
            idx == old(self).items@.len(),
            final(self).items@.len() == old(self).items@.len() + 1,
            forall|m: int|
                0 <= m < old(self).items@.len() ==> #[trigger] final(self).items@[m] == old(self).items@[m],
            final(self).items@.last().name@ == name@,
            final(self).items@.last().name_key@ == name_key@,
            final(self).items@.last().amount == amount,
            final(self).items@.last().category_name@ == category_name@,
            final(self).items@.last().category_key@ == category_key@,
            final(self).items@.last().owner@ == owner@,
            final(self).items@.last().section == section,
            final(self).items@.last().created_at == old(self).clock.tick_of(owner@) + 1,
            final(self).items@.last().origin_at == origin,
            final(self).items@.last().closed_at == OPEN_END,
            !final(self).items@.last().is_closed,
            final(self).categories@ == old(self).categories@,
            final(self).snapshots@ == old(self).snapshots@,
            final(self).clock.tick_of(owner@) == old(self).clock.tick_of(owner@) + 1,
            forall|o: Seq<char>|
                #[trigger] final(self).clock.has_owner(o) == old(self).clock.has_owner(o),
            forall|o: Seq<char>|
                old(self).clock.has_owner(o) && o != owner@ ==> #[trigger] final(self).clock.tick_of(o) == old(self).clock.tick_of(o),
    {
        let t = match self.clock.advance(owner) {
            Ok(t) => t,
            Err(_) => {
                proof {
                    assert(false);
                }
                0
            },
        };
        let idx = self.items.len();
        let row = ItemVersion {
            name,
            name_key,
            amount,
            category_name,
            category_key,
            owner: owner.clone(),
            section,
            created_at: t,
            origin_at: origin,
            closed_at: OPEN_END,
            is_closed: false,
        };
        self.items.push(row);
        proof {
            let pre = *old(self);
            let nu = self.items@.last();
            assert(self.items@.subrange(0, pre.items@.len() as int) =~= pre.items@);
            assert forall|m: int|
                0 <= m < pre.items@.len() && same_group(#[trigger] pre.items@[m], nu) implies
                pre.items@[m].is_closed && pre.items@[m].closed_at <= t by {
                assert(item_ok(pre.items@[m], pre.clock));
            }
            lemma_wf_after_append(pre, *self, owner@, t);
        }
        idx
    }

    /// The validated core of an edit: close version `k` at one fresh tick,
    /// append the replacement at the next.
    #[verifier::rlimit(50)]
    #[verifier::spinoff_prover]
    fn apply_update(
        &mut self,
        owner: &String,
        k: usize,
        rname: String,
        rkey: Vec<char>,
        ramount: i64,
        rcat_name: String,
        rcat_key: Vec<char>,
    ) -> (idx: usize)
        requires
            old(self).wf(),
            k < old(self).items@.len(),
            old(self).items@[k as int].owner@ == owner@,
            !old(self).items@[k as int].is_closed,
            rkey@ == fold(rname@),
            0 < rname@.len() <= MAX_ITEM_NAME_LEN,
            ramount >= 0,
            rcat_key@ == fold(rcat_name@),
            old(self).clock.has_owner(owner@),
            old(self).clock.tick_of(owner@) + 2 < OPEN_END,
            forall|m: int|
                0 <= m < old(self).items@.len() && m != k ==> !((#[trigger] old(
                    self,
                ).items@[m]).in_section(owner@, old(self).items@[k as int].section) && old(
                    self,
                ).items@[m].name_key@ == rkey@ && !old(self).items@[m].is_closed),
        ensures
            final(self).wf(),
            idx == old(self).items@.len(),
            update_applied(
                *old(self),
                *final(self),
                owner@,
                old(self).items@[k as int].section,
                k as int,
                rname@,
                ramount,
                rcat_name@,
            ),
    {
        let ghost s0 = *self;
        let ghost section_g = s0.items@[k as int].section;
        let ghost origin_g = s0.items@[k as int].origin_at;
        let section_val = self.items[k].section;
        let origin = self.items[k].origin_at;
        let t1 = self.close_open(owner, k);
        let ghost s2 = *self;
        proof {
            // the replacement's name key stays unclaimed by any open version
            assert forall|m: int|
                0 <= m < s2.items@.len() && (#[trigger] s2.items@[m]).in_section(
                    owner@,
                    section_g,
                ) && s2.items@[m].name_key@ == rkey@ implies s2.items@[m].is_closed by {
                if m != k as int {
                    assert(s2.items@[m] == s0.items@[m]);
                }
            }
            lemma_group_state_after_close(s0.items@, s2.items@, k as int, t1);
            assert(s2.items@[k as int].owner@ == owner@ && s2.items@[k as int].section
                == section_g && s2.items@[k as int].origin_at == origin_g);
        }
        let idx = self.append_open(owner, rname, rkey, ramount, rcat_name, rcat_key, section_val, origin);
        proof {
            assert(self.items@[k as int] == (ItemVersion {
                is_closed: true,
                closed_at: (s0.clock.tick_of(owner@) + 1) as u64,
                ..s0.items@[k as int]
            }));
            assert forall|o: Seq<char>| #[trigger]
                self.clock.has_owner(o) == s0.clock.has_owner(o) by {
                assert(s2.clock.has_owner(o) == s0.clock.has_owner(o));
            }
            assert forall|o: Seq<char>|
                s0.clock.has_owner(o) && o != owner@ implies #[trigger] self.clock.tick_of(o)
                == s0.clock.tick_of(o) by {
                assert(s2.clock.tick_of(o) == s0.clock.tick_of(o));
            }
            assert(update_applied(s0, *self, owner@, section_g, k as int, rname@, ramount,
                rcat_name@));
        }
        idx
    }
}

} // verus!
