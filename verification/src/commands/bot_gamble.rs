//! `gamble`: stake an amount; on a win the stake comes back doubled.
use vstd::prelude::*;
use crate::library::botdb::{MoneyDatabase, MoneyError, balance_of, credited, debited};
use crate::library::random::random_range_inclusive;
use crate::library::text::{decimal, decimal_value, push_decimal, law_decimal_denotes};

verus! {

/// Seconds a user waits between two uses of `gamble`.
pub const GAMBLE_COOLDOWN_SECS: u64 = 20;

/// A gamble draws a roll from 1 to `GAMBLE_ROLL_MAX`; rolls above `GAMBLE_LOSING_MAX` win.
pub const GAMBLE_ROLL_MAX: u64 = 100;
pub const GAMBLE_LOSING_MAX: u64 = 48;

/// The reply to a won stake of `amount`.
pub open spec fn won_text(amount: u32) -> Seq<char> {
    "You won "@ + decimal(2 * amount as nat)
}

/// The reply to a lost stake of `amount`.
pub open spec fn lost_text(amount: u32) -> Seq<char> {
    "You lost "@ + decimal(amount as nat)
}

/// The inputs on which a gamble can run to its end: a stake that can be taken can also
/// be paid back doubled without the balance leaving `u32`.
pub open spec fn gamble_fits(m: Map<u64, u32>, uid: u64, amount: u32) -> bool {
    balance_of(m, uid) >= amount ==> balance_of(m, uid) + amount <= u32::MAX
}

/// Settles a stake of `amount` by `uid` for a given `roll`: the stake is taken (or the
/// gamble refused for want of money), and on a roll above 48 twice the stake is paid.
/// Only a winning roll needs the payout to fit in `u32`.
pub fn settle_gamble(db: &mut MoneyDatabase, uid: u64, amount: u32, roll: u64) -> (r: Result<String, MoneyError>)
    requires
        roll > GAMBLE_LOSING_MAX ==> gamble_fits(old(db)@, uid, amount),
    ensures
        final(db).table_name() == old(db).table_name(),
        match debited(old(db)@, uid, amount) {
            Err(shortfall) => {
                &&& r matches Err(MoneyError::BalanceInsufficient { needmore }) && needmore == shortfall
                &&& final(db)@ == old(db)@
                &&& final(db).total() == old(db).total()
            },
            Ok(after) => if roll > GAMBLE_LOSING_MAX {
                &&& r matches Ok(s) && s@ == won_text(amount)
                &&& final(db)@ == credited(after, uid, (2 * amount) as u32)
                &&& final(db).total() == old(db).total() + amount
            } else {
                &&& r matches Ok(s) && s@ == lost_text(amount)
                &&& final(db)@ == after
                &&& final(db).total() == old(db).total() - amount
            },
        },
{
    if let Err(err) = db.delete_money(uid, amount) {
        return Err(err);
    }
    if roll > GAMBLE_LOSING_MAX {
        let payout = amount * 2;
        if let Ok(()) = db.add_money(uid, payout) {
            let mut s = String::from_str("You won ");
            push_decimal(&mut s, payout as u64);
            return Ok(s);
        } else {
            return Ok(String::from_str("There was an error"));
        }
    } else {
        let mut s = String::from_str("You lost ");
        push_decimal(&mut s, amount as u64);
        return Ok(s);
    }
}

/// Gambles `amount` for `uid` on a fresh roll from 1 to 100. Whatever the roll, the
/// gamble is refused exactly when the balance is below the stake; otherwise the user
/// either wins (net gain of the stake) or loses the stake.
pub fn bot_gamble(db: &mut MoneyDatabase, uid: u64, amount: u32) -> (r: Result<String, MoneyError>)
    requires
        gamble_fits(old(db)@, uid, amount),
    ensures
        final(db).table_name() == old(db).table_name(),
        match debited(old(db)@, uid, amount) {
            Err(shortfall) => {
                &&& r matches Err(MoneyError::BalanceInsufficient { needmore }) && needmore == shortfall
                &&& final(db)@ == old(db)@
            },
            Ok(after) => {
                ||| {
                    &&& r matches Ok(s) && s@ == won_text(amount)
                    &&& final(db)@ == credited(after, uid, (2 * amount) as u32)
                    &&& final(db).total() == old(db).total() + amount
                }
                ||| {
                    &&& r matches Ok(s) && s@ == lost_text(amount)
                    &&& final(db)@ == after
                    &&& final(db).total() == old(db).total() - amount
                }
            },
        },
{
    let mut rng = rand::rng();
    let roll = random_range_inclusive(&mut rng, 1, GAMBLE_ROLL_MAX);
    settle_gamble(db, uid, amount, roll)
}

/// A won gamble's reply is `You won ` followed by the digits of twice the stake; a lost
/// one's is `You lost ` followed by the digits of the stake.
pub proof fn law_gamble_replies(amount: u32)
    ensures
        won_text(amount).len() > 8,
        won_text(amount).take(8) == "You won "@,
        decimal_value(won_text(amount).skip(8)) == 2 * amount,
        lost_text(amount).len() > 9,
        lost_text(amount).take(9) == "You lost "@,
        decimal_value(lost_text(amount).skip(9)) == amount,
{
    reveal_strlit("You won ");
    reveal_strlit("You lost ");
    law_decimal_denotes(2 * amount as nat);
    law_decimal_denotes(amount as nat);
    assert(won_text(amount).take(8) =~= "You won "@);
    assert(won_text(amount).skip(8) =~= decimal(2 * amount as nat));
    assert(lost_text(amount).take(9) =~= "You lost "@);
    assert(lost_text(amount).skip(9) =~= decimal(amount as nat));
}

} // verus!
