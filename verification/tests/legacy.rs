use moneybot::bot_check::bot_check;
use moneybot::bot_gamble::{bot_gamble, settle_gamble, settle_rolls};
use moneybot::bot_top10::{format_top10, get_top_users};
use moneybot::bot_work::{bot_work, pay_work};
use moneybot::library::botdb::{MoneyDatabase, MoneyError};

fn fresh() -> MoneyDatabase {
    MoneyDatabase::open(9).unwrap()
}

#[test]
fn legacy_check_returns_the_number() {
    let mut db = fresh();
    assert_eq!(bot_check(&db, 4), 0);
    db.add_money(4, 33).unwrap();
    assert_eq!(bot_check(&db, 4), 33);
}

#[test]
fn legacy_work() {
    let mut db = fresh();
    let paid = bot_work(&mut db, 4);
    assert!((1..=1000).contains(&paid));
    assert_eq!(db.get_balance(4).unwrap(), paid);
    assert_eq!(pay_work(&mut db, 4, 1000), 1000);
    assert_eq!(db.get_balance(4).unwrap(), paid + 1000);
}

#[test]
fn legacy_gamble_settles_on_the_average() {
    let mut db = fresh();
    db.add_money(4, 100).unwrap();
    assert_eq!(settle_gamble(&mut db, 4, 30, 6), "You won 60");
    assert_eq!(db.get_balance(4).unwrap(), 130);
    assert_eq!(settle_gamble(&mut db, 4, 30, 5), "You lost 30");
    assert_eq!(db.get_balance(4).unwrap(), 100);
    assert_eq!(settle_gamble(&mut db, 4, 130, 9), "Balance Insufficient: need 30 more");
    assert_eq!(db.get_balance(4).unwrap(), 100);
}

#[test]
fn legacy_gamble_random() {
    let mut db = fresh();
    db.add_money(4, 10_000).unwrap();
    for _ in 0..50 {
        let before = db.get_balance(4).unwrap();
        let reply = bot_gamble(&mut db, 4, 7);
        let after = db.get_balance(4).unwrap();
        if reply == "You won 14" {
            assert_eq!(after, before + 7);
        } else {
            assert_eq!(reply, "You lost 7");
            assert_eq!(after, before - 7);
        }
    }
    assert_eq!(bot_gamble(&mut db, 5, 3), "Balance Insufficient: need 3 more");
}

#[test]
fn legacy_board_with_small_ids() {
    let mut db = fresh();
    db.add_money(1, 10).unwrap();
    db.add_money(2, 40).unwrap();
    db.add_money(3, 30).unwrap();
    db.add_money(4, 20).unwrap();
    let board = get_top_users(&db).unwrap();
    assert_eq!(board.number, 3);
    assert_eq!(board.users, vec![2, 3, 4]);
    assert_eq!(board.balances, vec![40, 30, 20]);
}

#[test]
fn legacy_board_fails_on_wide_ids() {
    let mut db = fresh();
    db.add_money(1436064615728676979, 10).unwrap();
    match get_top_users(&db) {
        Err(MoneyError::Database(message)) => {
            assert_eq!(message, "Integer 1436064615728676979 out of range at index 0")
        },
        Err(other) => panic!("unexpected error {:?}", other),
        Ok(_) => panic!("a 64-bit id cannot be read as u32"),
    }
    // A wide id below the three richest is never read.
    let mut db = fresh();
    db.add_money(1, 10).unwrap();
    db.add_money(2, 10).unwrap();
    db.add_money(3, 10).unwrap();
    db.add_money(1436064615728676979, 1).unwrap();
    assert!(get_top_users(&db).is_ok());
}

#[test]
fn legacy_board_text_pads_to_its_places() {
    let names = vec!["ann".to_string()];
    assert_eq!(
        format_top10(&names, &vec![90], 3),
        "1. ann - $90\n2. Unknown - $0\n3. Unknown - $0"
    );
    assert_eq!(format_top10(&names, &vec![90], 0), "");
}

#[test]
fn legacy_gamble_both_outcomes_occur() {
    let mut db = fresh();
    db.add_money(4, 1_000_000).unwrap();
    let mut wins = 0;
    let mut losses = 0;
    for _ in 0..300 {
        if bot_gamble(&mut db, 4, 1) == "You won 2" {
            wins += 1;
        } else {
            losses += 1;
        }
    }
    assert!(wins > 0 && losses > 0);
}

#[test]
fn legacy_gamble_settles_on_the_rolls() {
    let mut db = fresh();
    db.add_money(4, 100).unwrap();
    // Sum 60: average 6 wins.
    assert_eq!(settle_rolls(&mut db, 4, 10, &vec![6; 10]), "You won 20");
    assert_eq!(db.get_balance(4).unwrap(), 110);
    // Sum 59: average 5 loses.
    let rolls = vec![6, 6, 6, 6, 6, 6, 6, 6, 6, 5];
    assert_eq!(settle_rolls(&mut db, 4, 10, &rolls), "You lost 10");
    assert_eq!(db.get_balance(4).unwrap(), 100);
    assert_eq!(settle_rolls(&mut db, 4, 200, &vec![10; 10]), "Balance Insufficient: need 100 more");
}

#[test]
fn losing_needs_no_room_for_a_payout() {
    let mut db = fresh();
    db.add_money(4, u32::MAX).unwrap();
    assert_eq!(settle_gamble(&mut db, 4, 10, 5), "You lost 10");
    assert_eq!(db.get_balance(4).unwrap(), u32::MAX - 10);
}
