//! Mutations of logical items: the close-and-reinsert edit pattern.
//!
//! Creating an item appends its first version, stamped with a fresh tick
//! used as both `created_at` and `origin_at`. Editing an item draws two
//! fresh ticks: the current version is closed at the first and a new version
//! opens at the second, carrying `origin_at` over, so the closing edge and
//! the opening edge stay distinguishable events on the timeline. Deleting an
//! item closes the current version only.

use vstd::prelude::*;
use vstd::string::StrSliceExecFns;
use crate::names::copy_key;
use crate::names::fold;
use crate::names::fold_name;
use crate::names::key_eq;
use crate::store::cats_wf;
use crate::store::item_ok;
use crate::store::items_history_wf;
use crate::store::items_wf;
use crate::store::same_group;
use crate::store::snap_ok;
use crate::store::snaps_order_wf;
use crate::store::snaps_wf;
use crate::store::ItemVersion;
use crate::store::Ledger;
use crate::LedgerError;
use crate::MAX_ITEM_NAME_LEN;
use crate::OPEN_END;

verus! {

/// A field of an edit request: the new value, or keep the current one.
pub open spec fn opt_name(o: Option<String>, current: Seq<char>) -> Seq<char> {
    match o {
        Some(s) => s@,
        None => current,
    }
}

pub open spec fn opt_amount(o: Option<i64>, current: i64) -> i64 {
    match o {
        Some(a) => a,
        None => current,
    }
}

impl Ledger {
    /// Why `create_item` refuses, if it does.
    pub open spec fn create_item_check(
        self,
        owner: Seq<char>,
        section: bool,
        name: Seq<char>,
        amount: i64,
        category: Seq<char>,
    ) -> Option<LedgerError> {
        if name.len() == 0 {
            Some(LedgerError::EmptyName)
        } else if name.len() > MAX_ITEM_NAME_LEN {
            Some(LedgerError::NameTooLong)
        } else if amount < 0 {
            Some(LedgerError::NegativeAmount)
        } else if !self.has_category(owner, section, fold(category)) {
            Some(LedgerError::NotFound)
        } else if self.has_open_item(owner, section, fold(name)) {
            Some(LedgerError::DuplicateName)
        } else if !self.clock.has_owner(owner) || self.clock.tick_of(owner) + 1 >= OPEN_END {
            Some(LedgerError::StorageError)
        } else {
            None
        }
    }

    /// Create a logical item: append its first version, open-ended, stamped
    /// with a fresh tick as both creation and origin. The stored category
    /// label is the category's display name at this moment.
    pub fn create_item(
        &mut self,
        owner: &String,
        section: bool,
        name: &String,
        amount: i64,
        category: &String,
    ) -> (r: Result<usize, LedgerError>)
        requires
            old(self).wf(),
        ensures
            final(self).wf(),
            match r {
                Err(e) => {
                    &&& Some(e) == old(self).create_item_check(
                        owner@,
                        section,
                        name@,
                        amount,
                        category@,
                    )
                    &&& *final(self) == *old(self)
                },
                Ok(idx) => {
                    &&& old(self).create_item_check(owner@, section, name@, amount, category@)
                        is None
                    &&& idx == old(self).items@.len()
                    &&& final(self).items@.len() == old(self).items@.len() + 1
                    &&& final(self).items@.subrange(0, idx as int) == old(self).items@
                    &&& final(self).items@.last().name@ == name@
                    &&& final(self).items@.last().name_key@ == fold(name@)
                    &&& final(self).items@.last().amount == amount
                    &&& final(self).items@.last().category_name@ == old(self).categories@[old(
                        self,
                    ).cat_idx_of(owner@, section, fold(category@))].name@
                    &&& final(self).items@.last().owner@ == owner@
                    &&& final(self).items@.last().section == section
                    &&& final(self).items@.last().created_at == old(self).clock.tick_of(owner@)
                        + 1
                    &&& final(self).items@.last().origin_at == final(self).items@.last().created_at
                    &&& final(self).items@.last().closed_at == OPEN_END
                    &&& !final(self).items@.last().is_closed
                    &&& final(self).categories@ == old(self).categories@
                    &&& final(self).snapshots@ == old(self).snapshots@
                    &&& final(self).clock.tick_of(owner@) == old(self).clock.tick_of(owner@) + 1
                    &&& forall|o: Seq<char>|
                        #[trigger] final(self).clock.has_owner(o) == old(self).clock.has_owner(o)
                    &&& forall|o: Seq<char>|
                        old(self).clock.has_owner(o) && o != owner@ ==> #[trigger] final(self).clock.tick_of(o) == old(self).clock.tick_of(o)
                },
            },
    {
        if name.as_str().is_empty() {
            return Err(LedgerError::EmptyName);
        }
        if name.as_str().unicode_len() > MAX_ITEM_NAME_LEN {
            return Err(LedgerError::NameTooLong);
        }
        if amount < 0 {
            return Err(LedgerError::NegativeAmount);
        }
        let cat_key = fold_name(category.as_str());
        let cidx = match self.find_category(owner, section, &cat_key) {
            Some(c) => c,
            None => {
                return Err(LedgerError::NotFound);
            },
        };
        let name_key = fold_name(name.as_str());
        match self.find_open_item(owner, section, &name_key) {
            Some(_) => {
                return Err(LedgerError::DuplicateName);
            },
            None => (),
        }
        let t = match self.clock.advance(owner) {
            Ok(t) => t,
            Err(e) => {
                return Err(e);
            },
        };
        let cat_display = self.categories[cidx].name.clone();
        let cat_key_copy = copy_key(&self.categories[cidx].name_key);
        let idx = self.items.len();
        let row = ItemVersion {
            name: name.clone(),
            name_key,
            amount,
            category_name: cat_display,
            category_key: cat_key_copy,
            owner: owner.clone(),
            section,
            created_at: t,
            origin_at: t,
            closed_at: OPEN_END,
            is_closed: false,
        };
        self.items.push(row);
        proof {
            let pre = *old(self);
            let nu = self.items@.last();
            assert(self.items@.subrange(0, pre.items@.len() as int) =~= pre.items@);
            assert forall|j: int|
                0 <= j < pre.items@.len() && (#[trigger] pre.items@[j]).in_section(
                    owner@,
                    nu.section,
                ) && pre.items@[j].name_key@ == nu.name_key@ implies pre.items@[j].is_closed by {
                if !pre.items@[j].is_closed {
                    assert(pre.has_open_item(owner@, section, fold(name@)));
                }
            }
            assert forall|j: int|
                0 <= j < pre.items@.len() && same_group(#[trigger] pre.items@[j], nu) implies
                pre.items@[j].is_closed && pre.items@[j].closed_at <= t by {
                assert(item_ok(pre.items@[j], pre.clock));
                assert(pre.items@[j].origin_at <= pre.clock.tick_of(owner@));
                assert(false);
            }
            lemma_wf_after_append(pre, *self, owner@, t);
        }
        Ok(idx)
    }
}

/// After one `advance` for `owner` returning `t` and one appended row
/// stamped `created_at == t` for that owner, every store invariant holds
/// again. The appended row must be open with `origin_at` either `t` itself
/// (a first version) or the origin of a row already present for the same
/// owner and section whose own versions are all closed by `t`.
#[verifier::rlimit(100)]
pub proof fn lemma_wf_after_append(pre: Ledger, post: Ledger, owner: Seq<char>, t: u64)
    requires
        pre.wf(),
        post.categories@ == pre.categories@,
        post.snapshots@ == pre.snapshots@,
        // the clock advanced once for `owner`
        post.clock.wf(),
        pre.clock.has_owner(owner),
        t == pre.clock.tick_of(owner) + 1,
        t < OPEN_END,
        post.clock.tick_of(owner) == t,
        forall|o: Seq<char>| #[trigger] post.clock.has_owner(o) == pre.clock.has_owner(o),
        forall|o: Seq<char>|
            pre.clock.has_owner(o) && o != owner ==> #[trigger] post.clock.tick_of(o)
                == pre.clock.tick_of(o),
        // one appended open row stamped with the fresh tick
        post.items@.len() == pre.items@.len() + 1,
        post.items@.subrange(0, pre.items@.len() as int) == pre.items@,
        post.items@.last().owner@ == owner,
        post.items@.last().created_at == t,
        post.items@.last().closed_at == OPEN_END,
        !post.items@.last().is_closed,
        post.items@.last().name_key@ == fold(post.items@.last().name@),
        post.items@.last().category_key@ == fold(post.items@.last().category_name@),
        0 < post.items@.last().name@.len() <= MAX_ITEM_NAME_LEN,
        post.items@.last().amount >= 0,
        // origin: fresh, or carried over from an existing group
        post.items@.last().origin_at == t || exists|j: int|
            0 <= j < pre.items@.len() && same_group(#[trigger] pre.items@[j], post.items@.last())
                && pre.items@[j].created_at == post.items@.last().origin_at,
        // no other open row shares the appended row's name key
        forall|j: int|
            0 <= j < pre.items@.len() && (#[trigger] pre.items@[j]).in_section(
                owner,
                post.items@.last().section,
            ) && pre.items@[j].name_key@ == post.items@.last().name_key@
                ==> pre.items@[j].is_closed,
        // rows of the appended row's group are closed by the fresh tick
        forall|j: int|
            0 <= j < pre.items@.len() && same_group(#[trigger] pre.items@[j], post.items@.last())
                ==> pre.items@[j].is_closed && pre.items@[j].closed_at <= t,
    ensures
        post.wf(),
{
    reveal(crate::store::items_history_wf);
    let n = pre.items@.len() as int;
    let nu = post.items@.last();
    assert(cats_wf(post.categories@));
    assert forall|i: int| 0 <= i < post.items@.len() implies item_ok(
        #[trigger] post.items@[i],
        post.clock,
    ) by {
        if i < n {
            assert(post.items@[i] == pre.items@[i]);
            assert(item_ok(pre.items@[i], pre.clock));
            if pre.items@[i].owner@ == owner {
                assert(post.clock.tick_of(owner) == pre.clock.tick_of(owner) + 1);
            }
        } else {
            assert(nu.origin_at <= nu.created_at) by {
                if nu.origin_at != t {
                    let j = choose|j: int|
                        0 <= j < pre.items@.len() && same_group(
                            #[trigger] pre.items@[j],
                            post.items@.last(),
                        ) && pre.items@[j].created_at == post.items@.last().origin_at;
                    assert(item_ok(pre.items@[j], pre.clock));
                }
            }
            assert(0 < nu.origin_at) by {
                if nu.origin_at != t {
                    let j = choose|j: int|
                        0 <= j < pre.items@.len() && same_group(
                            #[trigger] pre.items@[j],
                            post.items@.last(),
                        ) && pre.items@[j].created_at == post.items@.last().origin_at;
                    assert(item_ok(pre.items@[j], pre.clock));
                }
            }
        }
    }
    assert forall|i: int, j: int|
        #![trigger post.items@[i], post.items@[j]]
        0 <= i < j < post.items@.len() && post.items@[i].owner@ == post.items@[j].owner@ implies
        post.items@[i].created_at < post.items@[j].created_at by {
        if j < n {
            assert(post.items@[i] == pre.items@[i]);
            assert(post.items@[j] == pre.items@[j]);
        } else {
            assert(post.items@[i] == pre.items@[i]);
            assert(item_ok(pre.items@[i], pre.clock));
        }
    }
    assert forall|i: int, j: int|
        #![trigger post.items@[i], post.items@[j]]
        0 <= i < j < post.items@.len() && same_group(post.items@[i], post.items@[j]) implies
        post.items@[i].is_closed && post.items@[i].closed_at <= post.items@[j].created_at by {
        if j < n {
            assert(post.items@[i] == pre.items@[i]);
            assert(post.items@[j] == pre.items@[j]);
        } else {
            assert(post.items@[i] == pre.items@[i]);
        }
    }
    assert forall|i: int, j: int|
        #![trigger post.items@[i], post.items@[j]]
        0 <= i < j < post.items@.len() && post.items@[i].owner@ == post.items@[j].owner@
            && post.items@[i].section == post.items@[j].section && post.items@[i].name_key@
            == post.items@[j].name_key@ implies post.items@[i].is_closed
            || post.items@[j].is_closed by {
        if j < n {
            assert(post.items@[i] == pre.items@[i]);
            assert(post.items@[j] == pre.items@[j]);
        } else {
            assert(post.items@[i] == pre.items@[i]);
            assert(pre.items@[i].in_section(owner, nu.section));
        }
    }
    assert forall|i: int| 0 <= i < post.items@.len() implies exists|j: int|
        0 <= j < post.items@.len() && same_group(#[trigger] post.items@[i], post.items@[j])
            && post.items@[j].created_at == post.items@[i].origin_at by {
        if i < n {
            assert(post.items@[i] == pre.items@[i]);
            let j = choose|j: int|
                0 <= j < pre.items@.len() && same_group(#[trigger] pre.items@[i], pre.items@[j])
                    && pre.items@[j].created_at == pre.items@[i].origin_at;
            assert(post.items@[j] == pre.items@[j]);
            assert(same_group(post.items@[i], post.items@[j]) && post.items@[j].created_at
                == post.items@[i].origin_at);
        } else {
            if nu.origin_at == t {
                assert(same_group(post.items@[i], post.items@[i]) && post.items@[i].created_at
                    == post.items@[i].origin_at);
            } else {
                let j = choose|j: int|
                    0 <= j < pre.items@.len() && same_group(
                        #[trigger] pre.items@[j],
                        post.items@.last(),
                    ) && pre.items@[j].created_at == post.items@.last().origin_at;
                assert(post.items@[j] == pre.items@[j]);
                assert(same_group(post.items@[i], post.items@[j]) && post.items@[j].created_at
                    == post.items@[i].origin_at);
            }
        }
    }
    assert forall|i: int| 0 <= i < post.snapshots@.len() implies snap_ok(
        #[trigger] post.snapshots@[i],
        post.clock,
    ) by {
        assert(snap_ok(pre.snapshots@[i], pre.clock));
        if post.snapshots@[i].owner@ == owner {
            assert(post.clock.tick_of(owner) == pre.clock.tick_of(owner) + 1);
        }
    }
    assert(snaps_wf(post.clock, post.snapshots@));
}

/// Raising the owner's clock (with every other owner untouched) preserves
/// the store invariant: every stored tick only falls further below it.
pub proof fn lemma_wf_clock_bumped(pre: Ledger, post: Ledger, owner: Seq<char>)
    requires
        pre.wf(),
        post.items@ == pre.items@,
        post.categories@ == pre.categories@,
        post.snapshots@ == pre.snapshots@,
        post.clock.wf(),
        pre.clock.has_owner(owner),
        forall|o: Seq<char>| #[trigger] post.clock.has_owner(o) == pre.clock.has_owner(o),
        post.clock.tick_of(owner) >= pre.clock.tick_of(owner),
        forall|o: Seq<char>|
            pre.clock.has_owner(o) && o != owner ==> #[trigger] post.clock.tick_of(o)
                == pre.clock.tick_of(o),
    ensures
        post.wf(),
{
    assert forall|i: int| 0 <= i < post.items@.len() implies item_ok(
        #[trigger] post.items@[i],
        post.clock,
    ) by {
        assert(post.items@[i] == pre.items@[i]);
        assert(item_ok(pre.items@[i], pre.clock));
        if post.items@[i].owner@ != owner {
            assert(post.clock.tick_of(post.items@[i].owner@) == pre.clock.tick_of(
                pre.items@[i].owner@,
            ));
        }
    }
    assert(items_history_wf(post.items@));
    assert forall|i: int| 0 <= i < post.snapshots@.len() implies snap_ok(
        #[trigger] post.snapshots@[i],
        post.clock,
    ) by {
        assert(snap_ok(pre.snapshots@[i], pre.clock));
        if post.snapshots@[i].owner@ != owner {
            assert(post.clock.tick_of(post.snapshots@[i].owner@) == pre.clock.tick_of(
                pre.snapshots@[i].owner@,
            ));
        }
    }
    assert(snaps_order_wf(post.snapshots@));
}

/// Closing the open version at index `k` preserves the clock-independent
/// history invariants, provided the closing tick is no earlier than the
/// version's creation.
#[verifier::rlimit(100)]
pub proof fn lemma_history_after_close(
    pre: Seq<ItemVersion>,
    post: Seq<ItemVersion>,
    k: int,
    t: u64,
)
    requires
        items_history_wf(pre),
        0 <= k < pre.len(),
        !pre[k].is_closed,
        pre[k].created_at <= t,
        post.len() == pre.len(),
        forall|m: int| 0 <= m < pre.len() && m != k ==> #[trigger] post[m] == pre[m],
        post[k] == (ItemVersion { is_closed: true, closed_at: t, ..pre[k] }),
    ensures
        items_history_wf(post),
{
    reveal(crate::store::items_history_wf);
    assert forall|i: int, j: int|
        #![trigger post[i], post[j]]
        0 <= i < j < post.len() && post[i].owner@ == post[j].owner@ implies post[i].created_at
        < post[j].created_at by {
        assert(pre[i].owner@ == post[i].owner@ && pre[i].created_at == post[i].created_at);
        assert(pre[j].owner@ == post[j].owner@ && pre[j].created_at == post[j].created_at);
    }
    assert forall|i: int, j: int|
        #![trigger post[i], post[j]]
        0 <= i < j < post.len() && same_group(post[i], post[j]) implies post[i].is_closed
        && post[i].closed_at <= post[j].created_at by {
        assert(same_group(pre[i], pre[j]));
        if i == k {
            // nothing of k's group comes after it: k was open in `pre`
            assert(pre[i].is_closed);
        }
    }
    assert forall|i: int, j: int|
        #![trigger post[i], post[j]]
        0 <= i < j < post.len() && post[i].owner@ == post[j].owner@ && post[i].section
            == post[j].section && post[i].name_key@ == post[j].name_key@ implies post[i].is_closed
        || post[j].is_closed by {
        if i != k && j != k {
            assert(post[i] == pre[i]);
            assert(post[j] == pre[j]);
        }
    }
    assert forall|i: int| 0 <= i < post.len() implies exists|j: int|
        0 <= j < post.len() && same_group(#[trigger] post[i], post[j]) && post[j].created_at
            == post[i].origin_at by {
        let j = choose|j: int|
            0 <= j < pre.len() && same_group(#[trigger] pre[i], pre[j]) && pre[j].created_at
                == pre[i].origin_at;
        assert(same_group(post[i], post[j]) && post[j].created_at == post[i].origin_at);
    }
}

/// Closing the open version at index `k` with the owner's current tick
/// preserves the store invariant.
#[verifier::rlimit(100)]
#[verifier::spinoff_prover]
pub proof fn lemma_wf_after_close(pre: Ledger, post: Ledger, owner: Seq<char>, k: int, t: u64)
    requires
        pre.wf(),
        0 <= k < pre.items@.len(),
        pre.items@[k].owner@ == owner,
        !pre.items@[k].is_closed,
        t == pre.clock.tick_of(owner),
        post.clock == pre.clock,
        post.categories@ == pre.categories@,
        post.snapshots@ == pre.snapshots@,
        post.items@.len() == pre.items@.len(),
        forall|m: int|
            0 <= m < pre.items@.len() && m != k ==> #[trigger] post.items@[m] == pre.items@[m],
        post.items@[k] == (ItemVersion { is_closed: true, closed_at: t, ..pre.items@[k] }),
    ensures
        post.wf(),
{
    assert(item_ok(pre.items@[k], pre.clock));
    lemma_history_after_close(pre.items@, post.items@, k, t);
    assert forall|i: int| 0 <= i < post.items@.len() implies item_ok(
        #[trigger] post.items@[i],
        post.clock,
    ) by {
        assert(item_ok(pre.items@[i], pre.clock));
        if i != k {
            assert(post.items@[i] == pre.items@[i]);
        }
    }
    assert(snaps_wf(post.clock, post.snapshots@));
}

} // verus!
