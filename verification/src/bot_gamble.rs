//! The first version of `gamble`: ten rolls of a ten-sided die, averaged; an average
//! above 5 wins. Every outcome, errors included, is answered with a text.
use vstd::prelude::*;
use crate::library::botdb::{MoneyDatabase, balance_of, credited, debited, insufficient_text};
use crate::library::random::random_range_inclusive;
use crate::library::text::push_decimal;
use crate::commands::bot_gamble::{won_text, lost_text, gamble_fits};

verus! {

/// Number of die rolls averaged, and the faces of the die.
pub const ROLLS: u64 = 10;
pub const DIE_FACES: u64 = 10;

/// Averages above this win.
pub const LOSING_AVERAGE_MAX: u64 = 5;

/// Settles a stake of `amount` by `uid` for a given average roll. Only a winning
/// average needs the payout to fit in `u32`.
pub fn settle_gamble(db: &mut MoneyDatabase, uid: u64, amount: u32, avg: u64) -> (s: String)
    requires
        avg > LOSING_AVERAGE_MAX ==> gamble_fits(old(db)@, uid, amount),
    ensures
        final(db).table_name() == old(db).table_name(),
        match debited(old(db)@, uid, amount) {
            Err(shortfall) => s@ == insufficient_text(shortfall) && final(db)@ == old(db)@ && final(db).total()
                == old(db).total(),
            Ok(after) => if avg > LOSING_AVERAGE_MAX {
                &&& s@ == won_text(amount)
                &&& final(db)@ == credited(after, uid, (2 * amount) as u32)
                &&& final(db).total() == old(db).total() + amount
            } else {
                &&& s@ == lost_text(amount)
                &&& final(db)@ == after
                &&& final(db).total() == old(db).total() - amount
            },
        },
{
    if let Err(err) = db.delete_money(uid, amount) {
        return err.to_string();
    }
    if avg > LOSING_AVERAGE_MAX {
        let payout = amount * 2;
        if let Ok(()) = db.add_money(uid, payout) {
            let mut s = String::from_str("You won ");
            push_decimal(&mut s, payout as u64);
            return s;
        } else {
            return String::from_str("There was an error");
        }
    } else {
        let mut s = String::from_str("You lost ");
        push_decimal(&mut s, amount as u64);
        return s;
    }
}

/// The sum of the die rolls.
pub open spec fn roll_sum(rolls: Seq<u64>) -> int
    decreases rolls.len(),
{
    if rolls.len() == 0 {
        0
    } else {
        roll_sum(rolls.drop_last()) + rolls.last()
    }
}

/// The average the first gamble settles on: the rolls' sum divided by their number,
/// rounded down.
pub open spec fn roll_average(rolls: Seq<u64>) -> int {
    roll_sum(rolls) / (ROLLS as int)
}

/// The rolls of one gamble: ten rolls, each a face of the die.
pub open spec fn valid_rolls(rolls: Seq<u64>) -> bool {
    &&& rolls.len() == ROLLS
    &&& forall|i: int| 0 <= i < rolls.len() ==> 1 <= #[trigger] rolls[i] <= DIE_FACES
}

/// Settles a stake of `amount` by `uid` on ten die rolls: the gamble is won when the
/// average of the rolls (their sum divided by ten, rounded down) is above 5.
pub fn settle_rolls(db: &mut MoneyDatabase, uid: u64, amount: u32, rolls: &Vec<u64>) -> (s: String)
    requires
        valid_rolls(rolls@),
        roll_average(rolls@) > LOSING_AVERAGE_MAX ==> gamble_fits(old(db)@, uid, amount),
    ensures
        final(db).table_name() == old(db).table_name(),
        match debited(old(db)@, uid, amount) {
            Err(shortfall) => s@ == insufficient_text(shortfall) && final(db)@ == old(db)@ && final(db).total()
                == old(db).total(),
            Ok(after) => if roll_average(rolls@) > LOSING_AVERAGE_MAX {
                &&& s@ == won_text(amount)
                &&& final(db)@ == credited(after, uid, (2 * amount) as u32)
                &&& final(db).total() == old(db).total() + amount
            } else {
                &&& s@ == lost_text(amount)
                &&& final(db)@ == after
                &&& final(db).total() == old(db).total() - amount
            },
        },
{
    let mut sum: u64 = 0;
    let mut i: usize = 0;
    while i < rolls.len()
        invariant
            valid_rolls(rolls@),
            i <= rolls@.len(),
            sum == roll_sum(rolls@.take(i as int)),
            sum <= i * DIE_FACES,
        decreases rolls@.len() - i,
    {
        assert(rolls@.take(i + 1).drop_last() =~= rolls@.take(i as int));
        sum = sum + rolls[i];
        i = i + 1;
    }
    assert(rolls@.take(rolls@.len() as int) =~= rolls@);
    let avg = sum / ROLLS;
    settle_gamble(db, uid, amount, avg)
}

/// Gambles `amount` for `uid` on the average of ten fresh die rolls. Whatever the
/// rolls, the gamble is refused (with the shortfall message) exactly when the balance is
/// below the stake; otherwise the user either wins (net gain of the stake) or loses it.
pub fn bot_gamble(db: &mut MoneyDatabase, uid: u64, amount: u32) -> (s: String)
    requires
        gamble_fits(old(db)@, uid, amount),
    ensures
        final(db).table_name() == old(db).table_name(),
        match debited(old(db)@, uid, amount) {
            Err(shortfall) => s@ == insufficient_text(shortfall) && final(db)@ == old(db)@,
            Ok(after) => {
                ||| {
                    &&& s@ == won_text(amount)
                    &&& final(db)@ == credited(after, uid, (2 * amount) as u32)
                    &&& final(db).total() == old(db).total() + amount
                }
                ||| {
                    &&& s@ == lost_text(amount)
                    &&& final(db)@ == after
                    &&& final(db).total() == old(db).total() - amount
                }
            },
        },
{
    let mut rng = rand::rng();
    let mut rolls: Vec<u64> = Vec::new();
    while rolls.len() < ROLLS as usize
        invariant
            rolls@.len() <= ROLLS,
            forall|i: int| 0 <= i < rolls@.len() ==> 1 <= #[trigger] rolls@[i] <= DIE_FACES,
        decreases ROLLS - rolls@.len(),
    {
        let roll = random_range_inclusive(&mut rng, 1, DIE_FACES);
        rolls.push(roll);
    }
    settle_rolls(db, uid, amount, &rolls)
}

proof fn lemma_roll_sum_step(rolls: Seq<u64>, k: int)
    requires
        0 <= k < rolls.len(),
    ensures
        roll_sum(rolls.take(k + 1)) == roll_sum(rolls.take(k)) + rolls[k],
{
    assert(rolls.take(k + 1).drop_last() =~= rolls.take(k));
}

/// The first gamble is decided by the sum of its ten rolls alone: the average is the sum
/// divided by ten, rounded down, and the gamble is won exactly when the rolls add up to
/// at least 60 (so their order does not matter).
pub proof fn law_rolls_decide(rolls: Seq<u64>)
    requires
        valid_rolls(rolls),
    ensures
        roll_average(rolls) == (rolls[0] + rolls[1] + rolls[2] + rolls[3] + rolls[4] + rolls[5] + rolls[6]
            + rolls[7] + rolls[8] + rolls[9]) / 10,
        roll_average(rolls) > LOSING_AVERAGE_MAX <==> rolls[0] + rolls[1] + rolls[2] + rolls[3] + rolls[4]
            + rolls[5] + rolls[6] + rolls[7] + rolls[8] + rolls[9] >= 60,
{
    assert(rolls.take(0) =~= Seq::<u64>::empty());
    lemma_roll_sum_step(rolls, 0);
    lemma_roll_sum_step(rolls, 1);
    lemma_roll_sum_step(rolls, 2);
    lemma_roll_sum_step(rolls, 3);
    lemma_roll_sum_step(rolls, 4);
    lemma_roll_sum_step(rolls, 5);
    lemma_roll_sum_step(rolls, 6);
    lemma_roll_sum_step(rolls, 7);
    lemma_roll_sum_step(rolls, 8);
    lemma_roll_sum_step(rolls, 9);
    assert(rolls.take(10) =~= rolls);
}

} // verus!
