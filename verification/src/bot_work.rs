//! The first version of `work`, which answers with a bare number.
use vstd::prelude::*;
use crate::library::botdb::{MoneyDatabase, balance_of, credited};
use crate::library::random::random_range_inclusive;
use crate::commands::bot_work::{WORK_PAY_MIN, WORK_PAY_MAX};

verus! {

/// Pays `amount` to `uid` and reports it (0 if the credit failed).
pub fn pay_work(db: &mut MoneyDatabase, uid: u64, amount: u32) -> (paid: u32)
    requires
        balance_of(old(db)@, uid) + amount <= u32::MAX,
    ensures
        paid == amount,
        final(db)@ == credited(old(db)@, uid, amount),
        final(db).total() == old(db).total() + amount,
        final(db).table_name() == old(db).table_name(),
{
    if let Err(_) = db.add_money(uid, amount) {
        return 0;
    }
    amount
}

/// Does work for `uid`: a random pay from 1 to 1000 is credited and returned.
pub fn bot_work(db: &mut MoneyDatabase, uid: u64) -> (paid: u32)
    requires
        balance_of(old(db)@, uid) + WORK_PAY_MAX <= u32::MAX,
    ensures
        WORK_PAY_MIN <= paid <= WORK_PAY_MAX,
        final(db)@ == credited(old(db)@, uid, paid),
        final(db).total() == old(db).total() + paid,
        final(db).table_name() == old(db).table_name(),
{
    let mut rng = rand::rng();
    let randint = random_range_inclusive(&mut rng, WORK_PAY_MIN as u64, WORK_PAY_MAX as u64) as u32;
    pay_work(db, uid, randint)
}

} // verus!
