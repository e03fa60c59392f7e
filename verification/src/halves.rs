//! The two-valued partition of each ledger: assets vs. liabilities for the
//! balance sheet, income vs. expenses for the budget. Both convert to the
//! plain `bool` that the version rows carry as their `section` field.

use vstd::prelude::*;

verus! {

/// Assets or Liabilities.
#[derive(Debug, Clone, Copy, PartialEq, Eq, Structural)]
pub enum BalanceSheetHalf {
    Assets,
    Liabilities,
}

impl BalanceSheetHalf {
    pub fn to_str(&self) -> (r: &'static str)
        ensures
            *self == BalanceSheetHalf::Assets ==> r@ == "Assets"@,
            *self == BalanceSheetHalf::Liabilities ==> r@ == "Liabilities"@,
    {
        match self {
            BalanceSheetHalf::Assets => "Assets",
            BalanceSheetHalf::Liabilities => "Liabilities",
        }
    }

    /// The integer form of the section flag, as a storage row would hold it.
    pub fn to_bool_int(&self) -> (r: usize)
        ensures
            r == (if *self == BalanceSheetHalf::Assets { 1int } else { 0int }),
    {
        match self {
            BalanceSheetHalf::Assets => 1,
            BalanceSheetHalf::Liabilities => 0,
        }
    }

    /// The section flag carried by categories and item versions.
    pub fn to_bool(&self) -> (r: bool)
        ensures
            r == (*self == BalanceSheetHalf::Assets),
    {
        match self {
            BalanceSheetHalf::Assets => true,
            BalanceSheetHalf::Liabilities => false,
        }
    }
}

/// Income or Expenses.
#[derive(Debug, Clone, Copy, PartialEq, Eq, Structural)]
pub enum BudgetHalf {
    Income,
    Expenses,
}

impl BudgetHalf {
    pub fn to_str(&self) -> (r: &'static str)
        ensures
            *self == BudgetHalf::Income ==> r@ == "Income"@,
            *self == BudgetHalf::Expenses ==> r@ == "Expenses"@,
    {
        match self {
            BudgetHalf::Income => "Income",
            BudgetHalf::Expenses => "Expenses",
        }
    }

    /// The integer form of the section flag, as a storage row would hold it.
    pub fn to_bool_int(&self) -> (r: usize)
        ensures
            r == (if *self == BudgetHalf::Income { 1int } else { 0int }),
    {
        match self {
            BudgetHalf::Income => 1,
            BudgetHalf::Expenses => 0,
        }
    }

    /// The section flag carried by categories and item versions.
    pub fn to_bool(&self) -> (r: bool)
        ensures
            r == (*self == BudgetHalf::Income),
    {
        match self {
            BudgetHalf::Income => true,
            BudgetHalf::Expenses => false,
        }
    }
}

} // verus!
