//! A personal-finance ledger with bitemporal item versioning.
//!
//! Every edit to a named item produces a new immutable version stamped with a
//! logical timestamp drawn from a per-owner monotonic clock, while the old
//! version is closed with the same clock. The state of the ledger as of any
//! past timestamp can then be recovered by a pure range filter over the
//! version rows, which is what snapshots and side-by-side comparisons of
//! snapshots are built on.

pub mod clock;
pub mod compare;
pub mod edit;
pub mod halves;
pub mod items;
pub mod laws;
pub mod names;
pub mod recon;
pub mod selection;
pub mod snapshot;
pub mod store;
pub mod user;

use vstd::prelude::*;

verus! {

/// Closing timestamp given to a version row that is still open. It is far
/// above any timestamp the clock can issue, so an open version is alive at
/// every present and future tick.
pub const OPEN_END: u64 = u64::MAX / 4;

/// Longest item name accepted, counted in characters.
pub const MAX_ITEM_NAME_LEN: usize = 28;

/// Why an operation on the ledger was refused.
///
/// Name validation failures, `NegativeAmount` and `DuplicateName` are
/// recoverable input errors; the caller is expected to re-prompt.
/// `NotFound` means a referenced row vanished between listing and selection.
/// `StorageError` means the owner's clock row is missing (a programmer
/// error: it must be created when the owner is registered) or the clock can
/// no longer issue fresh ticks below `OPEN_END`.
#[derive(Debug, Clone, Copy, PartialEq, Eq, Structural)]
pub enum LedgerError {
    EmptyName,
    NameTooLong,
    NegativeAmount,
    DuplicateName,
    NotFound,
    StorageError,
}

} // verus!
