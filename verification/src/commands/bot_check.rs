//! `check`: show the caller's balance.
use vstd::prelude::*;
use crate::library::botdb::{MoneyDatabase, MoneyError, balance_of};
use crate::library::text::{decimal, push_decimal};

verus! {

/// The balance of `uid`; a failed read counts as 0.
pub fn bot_check(db: &MoneyDatabase, uid: u64) -> (r: Result<u32, MoneyError>)
    ensures
        r matches Ok(amount) && amount == balance_of(db@, uid),
{
    if let Ok(money) = db.get_balance(uid) {
        return Ok(money);
    } else {
        return Ok(0);
    }
}

/// The reply to `check`: `You currently have $N`.
pub fn check_reply(amount: u32) -> (s: String)
    ensures
        s@ == "You currently have $"@ + decimal(amount as nat),
{
    let mut s = String::from_str("You currently have $");
    push_decimal(&mut s, amount as u64);
    s
}

} // verus!
