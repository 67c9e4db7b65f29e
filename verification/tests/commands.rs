use moneybot::commands::bot_check::{bot_check, check_reply};
use moneybot::commands::bot_gamble::{bot_gamble, settle_gamble, GAMBLE_COOLDOWN_SECS};
use moneybot::commands::bot_top::{fallback_name, format_leaderboard, get_top_users, top_count};
use moneybot::commands::bot_transfer::{bot_transfer, transfer_reply};
use moneybot::commands::bot_work::{bot_work, pay_work, work_reply, WORK_COOLDOWN_SECS};
use moneybot::library::botdb::{MoneyDatabase, MoneyError};

fn fresh() -> MoneyDatabase {
    MoneyDatabase::open(77).unwrap()
}

#[test]
fn check_reads_the_balance() {
    let mut db = fresh();
    assert_eq!(bot_check(&db, 1).unwrap(), 0);
    db.add_money(1, 250).unwrap();
    assert_eq!(bot_check(&db, 1).unwrap(), 250);
    assert_eq!(check_reply(250), "You currently have $250");
}

#[test]
fn work_pays_between_one_and_a_thousand() {
    let mut db = fresh();
    let mut total: u64 = 0;
    for _ in 0..50 {
        let paid = bot_work(&mut db, 3).unwrap();
        assert!((1..=1000).contains(&paid));
        total += paid as u64;
        assert_eq!(db.get_balance(3).unwrap() as u64, total);
    }
    assert_eq!(WORK_COOLDOWN_SECS, 3);
}

#[test]
fn pay_work_credits_exactly() {
    let mut db = fresh();
    db.add_money(3, 10).unwrap();
    assert_eq!(pay_work(&mut db, 3, 417).unwrap(), 417);
    assert_eq!(db.get_balance(3).unwrap(), 427);
    assert_eq!(work_reply(417), "You earned $417");
}

#[test]
fn gamble_win_pays_double() {
    let mut db = fresh();
    db.add_money(5, 100).unwrap();
    let reply = settle_gamble(&mut db, 5, 40, 49).unwrap();
    assert_eq!(reply, "You won 80");
    assert_eq!(db.get_balance(5).unwrap(), 140);
    let reply = settle_gamble(&mut db, 5, 40, 100).unwrap();
    assert_eq!(reply, "You won 80");
    assert_eq!(db.get_balance(5).unwrap(), 180);
}

#[test]
fn gamble_loss_takes_the_stake() {
    let mut db = fresh();
    db.add_money(5, 100).unwrap();
    let reply = settle_gamble(&mut db, 5, 40, 48).unwrap();
    assert_eq!(reply, "You lost 40");
    assert_eq!(db.get_balance(5).unwrap(), 60);
    let reply = settle_gamble(&mut db, 5, 60, 1).unwrap();
    assert_eq!(reply, "You lost 60");
    assert_eq!(db.get_balance(5).unwrap(), 0);
}

#[test]
fn gamble_refused_without_money() {
    let mut db = fresh();
    db.add_money(5, 10).unwrap();
    match settle_gamble(&mut db, 5, 40, 90) {
        Err(MoneyError::BalanceInsufficient { needmore }) => assert_eq!(needmore, 30),
        other => panic!("unexpected {:?}", other),
    }
    assert_eq!(db.get_balance(5).unwrap(), 10);
    match bot_gamble(&mut db, 6, 1) {
        Err(MoneyError::BalanceInsufficient { needmore }) => assert_eq!(needmore, 1),
        other => panic!("unexpected {:?}", other),
    }
    assert_eq!(GAMBLE_COOLDOWN_SECS, 20);
}

#[test]
fn gamble_outcomes_match_the_balance() {
    let mut db = fresh();
    db.add_money(5, 1_000_000).unwrap();
    for _ in 0..100 {
        let before = db.get_balance(5).unwrap();
        let reply = bot_gamble(&mut db, 5, 10).unwrap();
        let after = db.get_balance(5).unwrap();
        if reply == "You won 20" {
            assert_eq!(after, before + 10);
        } else {
            assert_eq!(reply, "You lost 10");
            assert_eq!(after, before - 10);
        }
    }
}

#[test]
fn transfer_moves_money() {
    let mut db = fresh();
    db.add_money(1, 100).unwrap();
    db.add_money(2, 5).unwrap();
    bot_transfer(&mut db, 1, 2, 40).unwrap();
    assert_eq!(db.get_balance(1).unwrap(), 60);
    assert_eq!(db.get_balance(2).unwrap(), 45);
    bot_transfer(&mut db, 1, 3, 60).unwrap();
    assert_eq!(db.get_balance(1).unwrap(), 0);
    assert_eq!(db.get_balance(3).unwrap(), 60);
    let total: u64 = db.entries().iter().map(|&(_, b)| b as u64).sum();
    assert_eq!(total, 105);
}

#[test]
fn transfer_refused_without_money() {
    let mut db = fresh();
    db.add_money(1, 10).unwrap();
    match bot_transfer(&mut db, 1, 2, 11) {
        Err(MoneyError::BalanceInsufficient { needmore }) => assert_eq!(needmore, 1),
        other => panic!("unexpected {:?}", other),
    }
    assert_eq!(db.get_balance(1).unwrap(), 10);
    assert_eq!(db.get_balance(2).unwrap(), 0);
    assert_eq!(db.entries().len(), 1);
}

#[test]
fn transfer_to_oneself_changes_nothing() {
    let mut db = fresh();
    db.add_money(1, 10).unwrap();
    bot_transfer(&mut db, 1, 1, 10).unwrap();
    assert_eq!(db.get_balance(1).unwrap(), 10);
}

#[test]
fn transfer_reply_text() {
    assert_eq!(
        transfer_reply(25, "alice", "bob"),
        "Succesfully transffered $25 from alice to bob"
    );
}

#[test]
fn top_users_board() {
    let mut db = fresh();
    db.add_money(10, 5).unwrap();
    db.add_money(11, 500).unwrap();
    db.add_money(12, 50).unwrap();
    let board = get_top_users(&db, 2).unwrap();
    assert_eq!(board.users, vec![11, 12]);
    assert_eq!(board.balances, vec![500, 50]);
    let board = get_top_users(&db, 10).unwrap();
    assert_eq!(board.users, vec![11, 12, 10]);
    assert_eq!(top_count(None), 10);
    assert_eq!(top_count(Some(4)), 4);
}

#[test]
fn leaderboard_text() {
    let names = vec!["alice".to_string(), "bob".to_string()];
    assert_eq!(format_leaderboard(&names, &vec![500, 50]), "1. alice - $500\n2. bob - $50");
    assert_eq!(format_leaderboard(&names, &vec![500]), "1. alice - $500\n");
    assert_eq!(format_leaderboard(&vec![], &vec![]), "");
    assert_eq!(fallback_name(1436064615728676979), "User_1436064615728676979");
}

#[test]
fn work_pay_varies() {
    let mut db = fresh();
    let mut seen = std::collections::HashSet::new();
    for _ in 0..200 {
        seen.insert(bot_work(&mut db, 8).unwrap());
    }
    assert!(seen.len() > 1);
}

#[test]
fn gamble_both_outcomes_occur() {
    let mut db = fresh();
    db.add_money(5, 1_000_000).unwrap();
    let mut wins = 0;
    let mut losses = 0;
    for _ in 0..300 {
        if bot_gamble(&mut db, 5, 1).unwrap() == "You won 2" {
            wins += 1;
        } else {
            losses += 1;
        }
    }
    assert!(wins > 0 && losses > 0);
}

#[test]
fn losing_gamble_needs_no_room_for_a_payout() {
    let mut db = fresh();
    db.add_money(5, u32::MAX).unwrap();
    assert_eq!(settle_gamble(&mut db, 5, 10, 48).unwrap(), "You lost 10");
    assert_eq!(db.get_balance(5).unwrap(), u32::MAX - 10);
}
