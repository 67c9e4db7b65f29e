use moneybot::library::botdb::{MoneyDatabase, MoneyError};

fn fresh(gid: u64) -> MoneyDatabase {
    MoneyDatabase::open(gid).expect("opening a table cannot fail")
}

#[test]
fn open_names_the_table_after_the_guild() {
    let db = fresh(42);
    assert_eq!(db.tbl_name().as_str(), "guild_42");
    assert!(db.entries().is_empty());
    let db = fresh(0);
    assert_eq!(db.tbl_name().as_str(), "guild_0");
    let db = fresh(u64::MAX);
    assert_eq!(db.tbl_name().as_str(), "guild_18446744073709551615");
}

#[test]
fn balance_of_unknown_user_is_zero() {
    let db = fresh(1);
    assert_eq!(db.get_balance(99).unwrap(), 0);
}

#[test]
fn add_money_creates_and_accumulates() {
    let mut db = fresh(1);
    db.add_money(7, 100).unwrap();
    assert_eq!(db.get_balance(7).unwrap(), 100);
    db.add_money(7, 23).unwrap();
    assert_eq!(db.get_balance(7).unwrap(), 123);
    assert_eq!(db.entries(), &vec![(7u64, 123u32)]);
}

#[test]
fn add_zero_creates_a_row() {
    let mut db = fresh(1);
    db.add_money(5, 0).unwrap();
    assert_eq!(db.entries(), &vec![(5u64, 0u32)]);
}

#[test]
fn add_money_up_to_the_limit() {
    let mut db = fresh(1);
    db.add_money(1, u32::MAX - 5).unwrap();
    db.add_money(1, 5).unwrap();
    assert_eq!(db.get_balance(1).unwrap(), u32::MAX);
}

#[test]
fn delete_money_refuses_with_the_shortfall() {
    let mut db = fresh(1);
    db.add_money(7, 100).unwrap();
    match db.delete_money(7, 150) {
        Err(MoneyError::BalanceInsufficient { needmore }) => assert_eq!(needmore, 50),
        other => panic!("unexpected {:?}", other),
    }
    assert_eq!(db.get_balance(7).unwrap(), 100);
}

#[test]
fn delete_money_from_unknown_user() {
    let mut db = fresh(1);
    match db.delete_money(3, 10) {
        Err(MoneyError::BalanceInsufficient { needmore }) => assert_eq!(needmore, 10),
        other => panic!("unexpected {:?}", other),
    }
    // A debit of nothing from a user without a row succeeds and creates no row.
    db.delete_money(3, 0).unwrap();
    assert!(db.entries().is_empty());
}

#[test]
fn delete_money_lowers_and_may_reach_zero() {
    let mut db = fresh(1);
    db.add_money(7, 100).unwrap();
    db.delete_money(7, 30).unwrap();
    assert_eq!(db.get_balance(7).unwrap(), 70);
    db.delete_money(7, 70).unwrap();
    assert_eq!(db.get_balance(7).unwrap(), 0);
    assert_eq!(db.entries(), &vec![(7u64, 0u32)]);
}

#[test]
fn credit_then_debit_restores_the_balance() {
    let mut db = fresh(1);
    db.add_money(7, 40).unwrap();
    db.add_money(9, 5).unwrap();
    db.add_money(7, 25).unwrap();
    db.delete_money(7, 25).unwrap();
    assert_eq!(db.get_balance(7).unwrap(), 40);
    assert_eq!(db.get_balance(9).unwrap(), 5);
}

#[test]
fn debit_then_credit_restores_the_balance() {
    let mut db = fresh(1);
    db.add_money(7, 40).unwrap();
    db.delete_money(7, 15).unwrap();
    db.add_money(7, 15).unwrap();
    assert_eq!(db.get_balance(7).unwrap(), 40);
}

#[test]
fn set_balance_overwrites_or_inserts() {
    let mut db = fresh(1);
    db.set_balance(4, 10);
    db.set_balance(5, 20);
    db.set_balance(4, 30);
    assert_eq!(db.entries(), &vec![(4u64, 30u32), (5u64, 20u32)]);
}

#[test]
fn error_messages() {
    let e = MoneyError::BalanceInsufficient { needmore: 50 };
    assert_eq!(e.to_string(), "Balance Insufficient: need 50 more");
    let e = MoneyError::BalanceInsufficient { needmore: 0 };
    assert_eq!(e.to_string(), "Balance Insufficient: need 0 more");
    let e = MoneyError::Database("Query returned no rows".to_string());
    assert_eq!(e.to_string(), "Database Error: Query returned no rows");
}

#[test]
fn top_balances_ranks_richest_first() {
    let mut db = fresh(1);
    db.add_money(1, 10).unwrap();
    db.add_money(2, 50).unwrap();
    db.add_money(3, 30).unwrap();
    db.add_money(4, 40).unwrap();
    let (users, balances) = db.top_balances(3);
    assert_eq!(users, vec![2, 4, 3]);
    assert_eq!(balances, vec![50, 40, 30]);
}

#[test]
fn top_balances_limits() {
    let mut db = fresh(1);
    db.add_money(1, 10).unwrap();
    db.add_money(2, 20).unwrap();
    let (users, balances) = db.top_balances(0);
    assert!(users.is_empty() && balances.is_empty());
    let (users, balances) = db.top_balances(10);
    assert_eq!(users, vec![2, 1]);
    assert_eq!(balances, vec![20, 10]);
    let empty = fresh(2);
    let (users, _) = empty.top_balances(5);
    assert!(users.is_empty());
}

#[test]
fn top_balances_with_ties() {
    let mut db = fresh(1);
    db.add_money(1, 10).unwrap();
    db.add_money(2, 10).unwrap();
    db.add_money(3, 5).unwrap();
    let (users, balances) = db.top_balances(1);
    assert_eq!(balances, vec![10]);
    assert!(users == vec![1] || users == vec![2]);
    let (mut users, balances) = db.top_balances(2);
    assert_eq!(balances, vec![10, 10]);
    users.sort();
    assert_eq!(users, vec![1, 2]);
}

#[test]
fn pending_writes_lists_new_and_changed_rows() {
    let mut stored = fresh(1);
    stored.set_balance(1, 10);
    stored.set_balance(2, 20);
    let mut db = fresh(1);
    db.set_balance(1, 10);
    db.set_balance(2, 20);
    assert!(db.pending_writes(&stored).is_empty());
    db.add_money(2, 5).unwrap();
    db.add_money(3, 7).unwrap();
    db.delete_money(1, 0).unwrap();
    assert_eq!(db.pending_writes(&stored), vec![(2, 25, false), (3, 7, true)]);
}
