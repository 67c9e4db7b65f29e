//! `work`: earn a random amount between 1 and 1000.
use vstd::prelude::*;
use crate::library::botdb::{MoneyDatabase, MoneyError, balance_of, credited};
use crate::library::random::random_range_inclusive;
use crate::library::text::{decimal, push_decimal};

verus! {

/// Seconds a user waits between two uses of `work`.
pub const WORK_COOLDOWN_SECS: u64 = 3;

/// Smallest and largest pay of one `work`.
pub const WORK_PAY_MIN: u32 = 1;
pub const WORK_PAY_MAX: u32 = 1000;

/// Pays `amount` to `uid` and reports it.
pub fn pay_work(db: &mut MoneyDatabase, uid: u64, amount: u32) -> (r: Result<u32, MoneyError>)
    requires
        balance_of(old(db)@, uid) + amount <= u32::MAX,
    ensures
        r matches Ok(paid) && paid == amount,
        final(db)@ == credited(old(db)@, uid, amount),
        final(db).total() == old(db).total() + amount,
        final(db).table_name() == old(db).table_name(),
{
    if let Err(_) = db.add_money(uid, amount) {
        return Ok(0);
    }
    Ok(amount)
}

/// Does work for `uid`: a random pay from 1 to 1000 is credited and returned.
pub fn bot_work(db: &mut MoneyDatabase, uid: u64) -> (r: Result<u32, MoneyError>)
    requires
        balance_of(old(db)@, uid) + WORK_PAY_MAX <= u32::MAX,
    ensures
        r matches Ok(paid) && {
            &&& WORK_PAY_MIN <= paid <= WORK_PAY_MAX
            &&& final(db)@ == credited(old(db)@, uid, paid)
            &&& final(db).total() == old(db).total() + paid
        },
        final(db).table_name() == old(db).table_name(),
{
    let mut rng = rand::rng();
    let randint = random_range_inclusive(&mut rng, WORK_PAY_MIN as u64, WORK_PAY_MAX as u64) as u32;
    pay_work(db, uid, randint)
}

/// The reply to `work`: `You earned $N`.
pub fn work_reply(amount: u32) -> (s: String)
    ensures
        s@ == "You earned $"@ + decimal(amount as nat),
{
    let mut s = String::from_str("You earned $");
    push_decimal(&mut s, amount as u64);
    s
}

} // verus!
