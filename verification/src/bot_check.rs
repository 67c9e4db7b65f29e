//! The first version of `check`, which answers with a bare number.
use vstd::prelude::*;
use crate::library::botdb::{MoneyDatabase, balance_of};

verus! {

/// The balance of `uid`; a failed read counts as 0.
pub fn bot_check(db: &MoneyDatabase, uid: u64) -> (money: u32)
    ensures
        money == balance_of(db@, uid),
{
    if let Ok(money) = db.get_balance(uid) {
        return money;
    } else {
        return 0;
    }
}

} // verus!
