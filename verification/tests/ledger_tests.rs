use burkebudget::clock::Clock;
use burkebudget::halves::BalanceSheetHalf;
use burkebudget::halves::BudgetHalf;
use burkebudget::names::fold_name;
use burkebudget::names::trim_name;
use burkebudget::selection::parse_selection;
use burkebudget::store::CategoryOutcome;
use burkebudget::store::Ledger;
use burkebudget::user::User;
use burkebudget::LedgerError;
use burkebudget::MAX_ITEM_NAME_LEN;
use burkebudget::OPEN_END;

fn s(x: &str) -> String {
    String::from(x)
}

fn setup(owner: &str) -> (Ledger, String) {
    let mut l = Ledger::new();
    let o = s(owner);
    l.clock.register_owner(&o);
    let r = l.create_category(&o, true, &s("Uncategorized"));
    assert!(matches!(r, Ok(CategoryOutcome::Created(_))));
    let r = l.create_category(&o, false, &s("Uncategorized"));
    assert!(matches!(r, Ok(CategoryOutcome::Created(_))));
    (l, o)
}

#[test]
fn clock_advances_strictly() {
    let mut c = Clock::new();
    let o = s("ann");
    assert!(matches!(c.advance(&o), Err(LedgerError::StorageError)));
    c.register_owner(&o);
    assert_eq!(c.peek(&o).unwrap(), 0);
    let t1 = c.advance(&o).unwrap();
    let t2 = c.advance(&o).unwrap();
    let t3 = c.advance(&o).unwrap();
    assert!(t1 < t2 && t2 < t3);
    assert_eq!((t1, t2, t3), (1, 2, 3));
    assert_eq!(c.peek(&o).unwrap(), 3);
    // a second owner has an independent counter
    let p = s("ben");
    c.register_owner(&p);
    assert_eq!(c.peek(&p).unwrap(), 0);
    assert_eq!(c.advance(&p).unwrap(), 1);
    assert_eq!(c.peek(&o).unwrap(), 3);
}

#[test]
fn names_fold_and_trim() {
    assert_eq!(fold_name("Liquid Assets"), "liquid assets".chars().collect::<Vec<char>>());
    assert_eq!(fold_name(""), Vec::<char>::new());
    assert_eq!(trim_name("  Cash \t"), s("Cash"));
    assert_eq!(trim_name("   "), s(""));
    assert_eq!(trim_name("Cash"), s("Cash"));
}

#[test]
fn halves_convert() {
    assert_eq!(BalanceSheetHalf::Assets.to_str(), "Assets");
    assert_eq!(BalanceSheetHalf::Liabilities.to_str(), "Liabilities");
    assert_eq!(BalanceSheetHalf::Assets.to_bool_int(), 1);
    assert_eq!(BalanceSheetHalf::Liabilities.to_bool_int(), 0);
    assert!(BalanceSheetHalf::Assets.to_bool());
    assert!(!BalanceSheetHalf::Liabilities.to_bool());
    assert_eq!(BudgetHalf::Income.to_str(), "Income");
    assert_eq!(BudgetHalf::Expenses.to_str(), "Expenses");
    assert_eq!(BudgetHalf::Income.to_bool_int(), 1);
    assert_eq!(BudgetHalf::Expenses.to_bool_int(), 0);
    assert!(BudgetHalf::Income.to_bool());
    assert!(!BudgetHalf::Expenses.to_bool());
}

#[test]
fn user_fullname() {
    let u = User {
        username: s("Ann"),
        username_lower: s("ann"),
        firstname: s("Ann"),
        lastname: s("Archer"),
        is_deleted: false,
    };
    assert_eq!(u.fullname(), s("Ann Archer"));
}

#[test]
fn category_validation_and_duplicates() {
    let (mut l, o) = setup("ann");
    assert!(matches!(l.create_category(&o, true, &s("   ")), Err(LedgerError::EmptyName)));
    let r = l.create_category(&o, true, &s("Bank"));
    let bank = match r {
        Ok(CategoryOutcome::Created(i)) => i,
        other => panic!("unexpected: {:?}", other),
    };
    assert_eq!(l.categories[bank].name, s("Bank"));
    // case-insensitive duplicate is a soft outcome pointing at the original
    match l.create_category(&o, true, &s("BANK")) {
        Ok(CategoryOutcome::Existing(i)) => assert_eq!(i, bank),
        other => panic!("unexpected: {:?}", other),
    }
    // the same key in the other section is a different scope
    assert!(matches!(l.create_category(&o, false, &s("Bank")), Ok(CategoryOutcome::Created(_))));
}

#[test]
fn rename_category_keeps_item_history() {
    let (mut l, o) = setup("ann");
    l.create_category(&o, true, &s("Cash")).unwrap();
    l.create_item(&o, true, &s("Wallet"), 100, &s("Cash")).unwrap();
    // renaming must not relabel the existing version row
    l.rename_category(&o, true, &s("Cash"), &s("Liquid Assets")).unwrap();
    let open = l.list_open_items(&o, true);
    assert_eq!(open.len(), 1);
    assert_eq!(l.items[open[0]].category_name, s("Cash"));
    // an item created after the rename carries the new display name
    l.create_item(&o, true, &s("Coins"), 5, &s("Liquid Assets")).unwrap();
    let open = l.list_open_items(&o, true);
    assert_eq!(open.len(), 2);
    assert_eq!(l.items[open[1]].category_name, s("Liquid Assets"));
    // renaming to a name colliding with another category is refused
    l.create_category(&o, true, &s("Stocks")).unwrap();
    assert!(matches!(
        l.rename_category(&o, true, &s("Stocks"), &s("liquid ASSETS")),
        Err(LedgerError::DuplicateName)
    ));
}

#[test]
fn item_validation_errors() {
    let (mut l, o) = setup("ann");
    l.create_category(&o, true, &s("Bank")).unwrap();
    assert!(matches!(l.create_item(&o, true, &s(""), 1, &s("Bank")), Err(LedgerError::EmptyName)));
    let long = "x".repeat(MAX_ITEM_NAME_LEN + 1);
    assert!(matches!(l.create_item(&o, true, &long, 1, &s("Bank")), Err(LedgerError::NameTooLong)));
    assert!(matches!(
        l.create_item(&o, true, &s("Checking"), -1, &s("Bank")),
        Err(LedgerError::NegativeAmount)
    ));
    assert!(matches!(
        l.create_item(&o, true, &s("Checking"), 1, &s("NoSuchCat")),
        Err(LedgerError::NotFound)
    ));
    l.create_item(&o, true, &s("Checking"), 1, &s("Bank")).unwrap();
    assert!(matches!(
        l.create_item(&o, true, &s("CHECKING"), 2, &s("Bank")),
        Err(LedgerError::DuplicateName)
    ));
    // an owner without a clock row cannot mutate
    let ghost_owner = s("nobody");
    let mut l2 = Ledger::new();
    l2.categories = Vec::new();
    assert!(matches!(
        l2.create_category(&ghost_owner, true, &s("Bank")),
        Ok(CategoryOutcome::Created(_))
    ));
    assert!(matches!(
        l2.create_item(&ghost_owner, true, &s("Checking"), 1, &s("Bank")),
        Err(LedgerError::StorageError)
    ));
}

#[test]
fn at_most_one_open_version() {
    let (mut l, o) = setup("ann");
    l.create_category(&o, true, &s("Bank")).unwrap();
    l.create_item(&o, true, &s("Checking"), 500, &s("Bank")).unwrap();
    l.update_item(&o, true, &s("Checking"), None, Some(700), None).unwrap();
    l.update_item(&o, true, &s("Checking"), None, Some(900), None).unwrap();
    let mut open = 0;
    for it in &l.items {
        if !it.is_closed && it.name_key == fold_name("Checking") {
            open += 1;
        }
    }
    assert_eq!(open, 1);
    l.delete_item(&o, true, &s("Checking")).unwrap();
    for it in &l.items {
        if it.name_key == fold_name("Checking") {
            assert!(it.is_closed);
        }
    }
}

#[test]
fn update_uses_two_ticks_and_carries_origin() {
    let (mut l, o) = setup("ann");
    l.create_category(&o, true, &s("Bank")).unwrap();
    let first = l.create_item(&o, true, &s("Checking"), 500, &s("Bank")).unwrap();
    let t_created = l.items[first].created_at;
    let second = l.update_item(&o, true, &s("Checking"), None, Some(700), None).unwrap();
    assert_eq!(l.items[first].closed_at, t_created + 1);
    assert!(l.items[first].is_closed);
    assert_eq!(l.items[second].created_at, t_created + 2);
    assert_eq!(l.items[second].origin_at, l.items[first].origin_at);
    assert_eq!(l.items[second].closed_at, OPEN_END);
    // rename via update keeps the origin too
    let third = l
        .update_item(&o, true, &s("Checking"), Some(s("Main Checking")), None, None)
        .unwrap();
    assert_eq!(l.items[third].origin_at, l.items[first].origin_at);
    assert_eq!(l.items[third].name, s("Main Checking"));
    assert_eq!(l.items[third].amount, 700);
}

#[test]
fn reconstruction_round_trip() {
    let (mut l, o) = setup("ann");
    l.create_category(&o, true, &s("Bank")).unwrap();
    let v1 = l.create_item(&o, true, &s("Checking"), 100, &s("Bank")).unwrap();
    let t0 = l.items[v1].created_at;
    let v2 = l.update_item(&o, true, &s("Checking"), None, Some(150), None).unwrap();
    let t2 = l.items[v2].created_at;
    // every tick in [t0, t2 - 1) sees amount 100 (the version closes at t0+1 = t2-1)
    for q in t0..l.items[v1].closed_at {
        let alive = l.reconstruct(&o, true, q);
        assert_eq!(alive, vec![v1]);
        assert_eq!(l.items[alive[0]].amount, 100);
    }
    // from t2 on, the reconstruction sees 150
    for q in t2..t2 + 5 {
        let alive = l.reconstruct(&o, true, q);
        assert_eq!(alive, vec![v2]);
        assert_eq!(l.items[alive[0]].amount, 150);
    }
    // before creation, nothing is alive
    assert!(l.reconstruct(&o, true, t0 - 1).is_empty());
}

#[test]
fn comparator_absence_marking() {
    // item A alive during [5, 10), item B alive during [8, 20)
    let (mut l, o) = setup("ann");
    l.create_category(&o, true, &s("Stuff")).unwrap();
    // categories draw no ticks; setup leaves the clock at 0
    for _ in 0..4 {
        l.clock.advance(&o).unwrap();
    }
    let a = l.create_item(&o, true, &s("A"), 10, &s("Stuff")).unwrap();
    assert_eq!(l.items[a].created_at, 5);
    for _ in 0..2 {
        l.clock.advance(&o).unwrap();
    }
    let b = l.create_item(&o, true, &s("B"), 20, &s("Stuff")).unwrap();
    assert_eq!(l.items[b].created_at, 8);
    l.clock.advance(&o).unwrap();
    l.delete_item(&o, true, &s("A")).unwrap();
    assert_eq!(l.items[a].closed_at, 10);
    for _ in 0..9 {
        l.clock.advance(&o).unwrap();
    }
    l.delete_item(&o, true, &s("B")).unwrap();
    assert_eq!(l.items[b].closed_at, 20);
    // compare at ticks 3, 9, 15
    let at3 = l.reconstruct(&o, true, 3);
    let at9 = l.reconstruct(&o, true, 9);
    let at15 = l.reconstruct(&o, true, 15);
    assert!(!at3.contains(&a) && !at3.contains(&b));
    assert!(at9.contains(&a) && at9.contains(&b));
    assert!(!at15.contains(&a) && at15.contains(&b));
    assert_eq!(l.section_total(&o, true, 3), 0);
    assert_eq!(l.section_total(&o, true, 9), 30);
    assert_eq!(l.section_total(&o, true, 15), 20);
}

#[test]
fn snapshot_scenario() {
    // create "Bank" (asset), "Checking" = 500; snapshot; update to 700;
    // snapshot; view both; delete; a third snapshot shows nothing alive
    let (mut l, o) = setup("ann");
    l.create_category(&o, true, &s("Bank")).unwrap();
    l.create_item(&o, true, &s("Checking"), 500, &s("Bank")).unwrap();
    let net1 = l.section_total(&o, true, l.clock.peek(&o).unwrap())
        - l.section_total(&o, false, l.clock.peek(&o).unwrap());
    assert_eq!(net1, 500);
    let s1 = l.create_snapshot(&o, s("2024-01-31"), net1, s("first")).unwrap();
    l.update_item(&o, true, &s("Checking"), None, Some(700), None).unwrap();
    let net2 = l.section_total(&o, true, l.clock.peek(&o).unwrap())
        - l.section_total(&o, false, l.clock.peek(&o).unwrap());
    assert_eq!(net2, 700);
    let s2 = l.create_snapshot(&o, s("2024-02-29"), net2, s("second")).unwrap();
    // viewing a snapshot = reconstructing at its recorded tick
    let t1 = l.snapshots[s1].tick;
    let t2 = l.snapshots[s2].tick;
    assert_eq!(l.section_total(&o, true, t1), 500);
    assert_eq!(l.section_total(&o, true, t2), 700);
    let alive1 = l.reconstruct(&o, true, t1);
    assert_eq!(alive1.len(), 1);
    assert_eq!(l.items[alive1[0]].amount, 500);
    let alive2 = l.reconstruct(&o, true, t2);
    assert_eq!(alive2.len(), 1);
    assert_eq!(l.items[alive2[0]].amount, 700);
    // delete the item; a third snapshot sees nothing
    l.delete_item(&o, true, &s("Checking")).unwrap();
    let net3 = l.section_total(&o, true, l.clock.peek(&o).unwrap())
        - l.section_total(&o, false, l.clock.peek(&o).unwrap());
    assert_eq!(net3, 0);
    let s3 = l.create_snapshot(&o, s("2024-03-31"), net3, s("")).unwrap();
    let t3 = l.snapshots[s3].tick;
    assert!(l.reconstruct(&o, true, t3).is_empty());
    assert_eq!(l.snapshots[s3].net_worth, 0);
    // earlier snapshots still reconstruct unchanged
    assert_eq!(l.section_total(&o, true, t1), 500);
    assert_eq!(l.section_total(&o, true, t2), 700);
}

#[test]
fn snapshot_listing_and_soft_delete() {
    let (mut l, o) = setup("ann");
    let s1 = l.create_snapshot(&o, s("2024-01-31"), 0, s("a")).unwrap();
    let s2 = l.create_snapshot(&o, s("2024-02-29"), 0, s("b")).unwrap();
    let s3 = l.create_snapshot(&o, s("2024-03-31"), 0, s("c")).unwrap();
    // snapshots of an unchanged ledger get distinct, increasing ticks
    assert!(l.snapshots[s1].tick < l.snapshots[s2].tick);
    assert!(l.snapshots[s2].tick < l.snapshots[s3].tick);
    assert_eq!(l.list_snapshots(&o), vec![s1, s2, s3]);
    let t2 = l.snapshots[s2].tick;
    l.delete_snapshot(&o, t2).unwrap();
    assert_eq!(l.snapshots[s2].deletion_marker, 1);
    assert_eq!(l.list_snapshots(&o), vec![s1, s3]);
    // deleting again: no live snapshot at that tick any more
    assert!(matches!(l.delete_snapshot(&o, t2), Err(LedgerError::NotFound)));
    // item rows are untouched by snapshot deletion
    assert!(l.items.is_empty());
}

#[test]
fn update_validation_and_missing_item() {
    let (mut l, o) = setup("ann");
    l.create_category(&o, true, &s("Bank")).unwrap();
    assert!(matches!(
        l.update_item(&o, true, &s("Nothing"), None, Some(1), None),
        Err(LedgerError::NotFound)
    ));
    l.create_item(&o, true, &s("Checking"), 500, &s("Bank")).unwrap();
    l.create_item(&o, true, &s("Savings"), 100, &s("Bank")).unwrap();
    assert!(matches!(
        l.update_item(&o, true, &s("Savings"), Some(s("checking")), None, None),
        Err(LedgerError::DuplicateName)
    ));
    assert!(matches!(
        l.update_item(&o, true, &s("Savings"), None, Some(-5), None),
        Err(LedgerError::NegativeAmount)
    ));
    assert!(matches!(
        l.update_item(&o, true, &s("Savings"), None, None, Some(s("NoSuchCat"))),
        Err(LedgerError::NotFound)
    ));
    assert!(matches!(
        l.delete_item(&o, true, &s("Nothing")),
        Err(LedgerError::NotFound)
    ));
}

#[test]
fn update_without_category_change_keeps_stale_label() {
    let (mut l, o) = setup("ann");
    l.create_category(&o, true, &s("Cash")).unwrap();
    l.create_item(&o, true, &s("Wallet"), 10, &s("Cash")).unwrap();
    l.rename_category(&o, true, &s("Cash"), &s("Liquid")).unwrap();
    // updating without choosing a category copies the version's own label
    let v = l.update_item(&o, true, &s("Wallet"), None, Some(20), None).unwrap();
    assert_eq!(l.items[v].category_name, s("Cash"));
    // explicitly re-picking the category stores its current display name
    let v = l.update_item(&o, true, &s("Wallet"), None, None, Some(s("liquid"))).unwrap();
    assert_eq!(l.items[v].category_name, s("Liquid"));
}

#[test]
fn comparator_matrix_marks_absence() {
    // item A alive during [5, 10), item B alive during [8, 20)
    let (mut l, o) = setup("ann");
    l.create_category(&o, true, &s("Stuff")).unwrap();
    for _ in 0..4 {
        l.clock.advance(&o).unwrap();
    }
    l.create_item(&o, true, &s("A"), 10, &s("Stuff")).unwrap();
    for _ in 0..2 {
        l.clock.advance(&o).unwrap();
    }
    l.create_item(&o, true, &s("B"), 20, &s("Stuff")).unwrap();
    l.clock.advance(&o).unwrap();
    l.delete_item(&o, true, &s("A")).unwrap();
    for _ in 0..9 {
        l.clock.advance(&o).unwrap();
    }
    l.delete_item(&o, true, &s("B")).unwrap();
    let (rows, totals) = l.compare(&o, true, &vec![3, 9, 15]);
    assert_eq!(rows.len(), 2);
    let a = rows.iter().find(|r| r.name == s("A")).unwrap();
    let b = rows.iter().find(|r| r.name == s("B")).unwrap();
    assert_eq!(a.cells, vec![None, Some(10), None]);
    assert_eq!(b.cells, vec![None, Some(20), Some(20)]);
    assert_eq!(totals, vec![0, 30, 20]);
    // a tick before anything existed yields no rows at all
    let (rows, totals) = l.compare(&o, true, &vec![1]);
    assert!(rows.is_empty());
    assert_eq!(totals, vec![0]);
}

#[test]
fn comparator_uses_latest_display_name() {
    let (mut l, o) = setup("ann");
    l.create_category(&o, true, &s("Bank")).unwrap();
    let v1 = l.create_item(&o, true, &s("Checking"), 500, &s("Bank")).unwrap();
    let t1 = l.items[v1].created_at;
    l.update_item(&o, true, &s("Checking"), Some(s("Main Checking")), Some(700), None).unwrap();
    let t2 = l.clock.peek(&o).unwrap();
    let (rows, totals) = l.compare(&o, true, &vec![t1, t2]);
    // one logical item across the rename, shown under its newest name
    assert_eq!(rows.len(), 1);
    assert_eq!(rows[0].name, s("Main Checking"));
    assert_eq!(rows[0].origin_at, l.items[v1].origin_at);
    assert_eq!(rows[0].cells, vec![Some(500), Some(700)]);
    assert_eq!(totals, vec![500, 700]);
}

#[test]
fn selection_accepts_in_range_tokens() {
    assert_eq!(parse_selection(&s("1 5 6"), 1, 9), Some(vec![0, 4, 5]));
    assert_eq!(parse_selection(&s("3"), 1, 3), Some(vec![2]));
    assert_eq!(parse_selection(&s(""), 1, 9), None);
    assert_eq!(parse_selection(&s("abc"), 1, 9), None);
    assert_eq!(parse_selection(&s("0 10"), 1, 9), None);
}

#[test]
fn selection_skips_duplicates_and_bad_tokens() {
    // duplicates count once; bad tokens do not fail the others
    assert_eq!(parse_selection(&s("2 2 2"), 1, 9), Some(vec![1]));
    assert_eq!(parse_selection(&s("4 x 2 99 2"), 1, 9), Some(vec![3, 1]));
    // an overflowing numeral is dropped like any other bad token
    assert_eq!(parse_selection(&s("99999999999999999999999999 1"), 1, 9), Some(vec![0]));
    // only the first five accepted survive
    assert_eq!(parse_selection(&s("1 2 3 4 5 6 7"), 1, 9), Some(vec![0, 1, 2, 3, 4]));
}
