//! `transfer`: move money from the caller to another user.
use vstd::prelude::*;
use crate::library::botdb::{MoneyDatabase, MoneyError, balance_of, credited, debited};
use crate::library::text::{decimal, push_decimal};

verus! {

/// The inputs on which a transfer can run to its end: when the sender can pay, the
/// receiver's new balance still fits in `u32`.
pub open spec fn transfer_fits(m: Map<u64, u32>, from_uid: u64, to_uid: u64, amount: u32) -> bool {
    balance_of(m, from_uid) >= amount && from_uid != to_uid ==> balance_of(m, to_uid) + amount <= u32::MAX
}

/// The table after a granted transfer, or the sender's shortfall.
pub open spec fn transferred(m: Map<u64, u32>, from_uid: u64, to_uid: u64, amount: u32) -> Result<Map<u64, u32>, u32> {
    match debited(m, from_uid, amount) {
        Ok(after) => Ok(credited(after, to_uid, amount)),
        Err(shortfall) => Err(shortfall),
    }
}

/// Moves `amount` from `from_uid` to `to_uid`: the sender is debited (or the transfer
/// refused for want of money), then the receiver credited. No money is made or lost.
pub fn bot_transfer(db: &mut MoneyDatabase, from_uid: u64, to_uid: u64, amount: u32) -> (r: Result<(), MoneyError>)
    requires
        transfer_fits(old(db)@, from_uid, to_uid, amount),
    ensures
        final(db).table_name() == old(db).table_name(),
        final(db).total() == old(db).total(),
        match transferred(old(db)@, from_uid, to_uid, amount) {
            Ok(m) => r is Ok && final(db)@ == m,
            Err(shortfall) => {
                &&& r matches Err(MoneyError::BalanceInsufficient { needmore }) && needmore == shortfall
                &&& final(db)@ == old(db)@
            },
        },
{
    if let Err(e) = db.delete_money(from_uid, amount) {
        return Err(e);
    }
    if let Err(e) = db.add_money(to_uid, amount) {
        return Err(e);
    }
    Ok(())
}

/// A granted transfer between two different users lowers the sender by the amount,
/// raises the receiver by it, and leaves everyone else as they were; a transfer to
/// oneself leaves one's balance as it was.
pub proof fn law_transfer_moves_money(m: Map<u64, u32>, from_uid: u64, to_uid: u64, amount: u32, other: u64)
    requires
        transfer_fits(m, from_uid, to_uid, amount),
        transferred(m, from_uid, to_uid, amount) is Ok,
    ensures
        transferred(m, from_uid, to_uid, amount) matches Ok(after) && {
            &&& from_uid != to_uid ==> balance_of(after, from_uid) == balance_of(m, from_uid) - amount
            &&& from_uid != to_uid ==> balance_of(after, to_uid) == balance_of(m, to_uid) + amount
            &&& from_uid == to_uid ==> balance_of(after, from_uid) == balance_of(m, from_uid)
            &&& other != from_uid && other != to_uid ==> balance_of(after, other) == balance_of(m, other)
        },
{
}

/// The reply to a granted transfer (the wording is the bot's own, spelling included).
pub fn transfer_reply(amount: u32, from_name: &str, to_name: &str) -> (s: String)
    ensures
        s@ == "Succesfully transffered $"@ + decimal(amount as nat) + " from "@ + from_name@ + " to "@ + to_name@,
{
    let mut s = String::from_str("Succesfully transffered $");
    push_decimal(&mut s, amount as u64);
    s.append(" from ");
    s.append(from_name);
    s.append(" to ");
    s.append(to_name);
    s
}

/// A transfer is refused exactly when the sender holds less than the amount, and then
/// with the sender's shortfall; whom the money goes to plays no part.
pub proof fn law_transfer_refused_iff(m: Map<u64, u32>, from_uid: u64, to_uid: u64, amount: u32)
    ensures
        transferred(m, from_uid, to_uid, amount) is Err <==> balance_of(m, from_uid) < amount,
        transferred(m, from_uid, to_uid, amount) matches Err(shortfall) ==> shortfall == amount - balance_of(
            m,
            from_uid,
        ),
{
}

} // verus!
