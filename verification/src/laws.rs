//! The global laws of the versioned store, stated once over the item rows
//! of any well-formed ledger: `Ledger::wf` gives `items_history_wf` of its
//! rows, and every operation preserves it.

use vstd::prelude::*;
use crate::store::items_history_wf;
use crate::store::same_group;
use crate::store::ItemVersion;

verus! {

/// At most one open version per `(owner, section, name key)`: after any
/// sequence of create, update and delete operations, two open version rows
/// with the same owner, section and name key are the same row.
pub proof fn lemma_at_most_one_open(items: Seq<ItemVersion>, i: int, j: int)
    requires
        items_history_wf(items),
        0 <= i < items.len(),
        0 <= j < items.len(),
        !items[i].is_closed,
        !items[j].is_closed,
        items[i].owner@ == items[j].owner@,
        items[i].section == items[j].section,
        items[i].name_key@ == items[j].name_key@,
    ensures
        i == j,
{
    reveal(crate::store::items_history_wf);
}

/// Timeline monotonicity: no two version rows of one owner share a creation
/// tick, so the clock never stamps two rows with the same timestamp.
pub proof fn lemma_created_at_unique(items: Seq<ItemVersion>, i: int, j: int)
    requires
        items_history_wf(items),
        0 <= i < items.len(),
        0 <= j < items.len(),
        i != j,
        items[i].owner@ == items[j].owner@,
    ensures
        items[i].created_at != items[j].created_at,
{
    reveal(crate::store::items_history_wf);
}

/// Reconstruction round trip: the validity windows of a logical item's
/// versions never overlap. A version alive at a query tick is therefore the
/// only version of its item that a reconstruction at that tick returns:
/// after an edit at tick `t`, any query below `t` still sees the old amount
/// and any query from `t` on sees the new one.
pub proof fn lemma_round_trip(items: Seq<ItemVersion>, i: int, j: int, q: u64)
    requires
        items_history_wf(items),
        0 <= i < items.len(),
        0 <= j < items.len(),
        i != j,
        same_group(items[i], items[j]),
        items[i].alive_at(q),
    ensures
        !items[j].alive_at(q),
{
    reveal(crate::store::items_history_wf);
    if i < j {
        assert(items[i].is_closed && items[i].closed_at <= items[j].created_at);
    } else {
        assert(items[j].is_closed && items[j].closed_at <= items[i].created_at);
    }
}

} // verus!
