//! The first version of the leaderboard: always three places, user ids read as `u32`.
use vstd::prelude::*;
use crate::library::botdb::{MoneyDatabase, MoneyError, is_top_listing};
use crate::library::text::{decimal, joined, ranked_line, newline_count, push_joined_line, push_ranked_line, law_joined_line_count, lemma_ranked_line_no_newline};

verus! {

/// Places on this leaderboard.
pub const TOP_PLACES: u32 = 3;

/// The richest users of a guild, richest first, with their balances; `number` is the
/// number of places the board shows.
pub struct MoneyLeaderboard {
    pub number: u32,
    pub users: Vec<u32>,
    pub balances: Vec<u32>,
}

/// User ids read back as 64-bit values.
pub open spec fn widened(users: Seq<u32>) -> Seq<u64> {
    users.map_values(|u: u32| u as u64)
}

/// Widening keeps every user id, in place.
pub proof fn law_widened(users: Seq<u32>)
    ensures
        widened(users).len() == users.len(),
        forall|i: int| 0 <= i < users.len() ==> #[trigger] widened(users)[i] == users[i] as u64,
{
}

/// The driver's message for an integer that does not fit the type it is read as.
pub uninterp spec fn out_of_range_text(col: usize, value: i64) -> Seq<char>;

/// The message (`Display`, through `to_string`) of the driver's error
/// `rusqlite::Error::IntegralValueOutOfRange(col, value)`, which is what reading a
/// user id above `u32::MAX` as `u32` gives. The text depends on `col` and `value`
/// alone; its wording is left to the driver.
#[verifier::external_body]
fn integral_out_of_range_text(col: usize, value: i64) -> (s: String)
    ensures
        s@ == out_of_range_text(col, value),
{
    rusqlite::Error::IntegralValueOutOfRange(col, value).to_string()
}

/// The three richest users, read with 32-bit user ids, richest first. The read stops
/// at the first selected user id above `u32::MAX`, with the driver's out-of-range
/// message for it; it cannot fail when no user id of the guild exceeds `u32::MAX`.
pub fn get_top_users(db: &MoneyDatabase) -> (r: Result<MoneyLeaderboard, MoneyError>)
    ensures
        db@.dom().finite(),
        match r {
            Ok(board) => board.number == TOP_PLACES && is_top_listing(
                db@,
                TOP_PLACES as nat,
                widened(board.users@),
                board.balances@,
            ),
            Err(e) => exists|users: Seq<u64>, balances: Seq<u32>, i: int|
                #![trigger is_top_listing(db@, TOP_PLACES as nat, users, balances), users[i]]
                is_top_listing(db@, TOP_PLACES as nat, users, balances) && {
                    &&& 0 <= i < users.len()
                    &&& users[i] > u32::MAX
                    &&& forall|j: int| 0 <= j < i ==> users[j] <= u32::MAX
                    &&& e matches MoneyError::Database(message) && message@ == out_of_range_text(
                        0,
                        users[i] as i64,
                    )
                },
        },
        (forall|u: u64| db@.contains_key(u) ==> u <= u32::MAX) ==> r is Ok,
{
    let (users, balances) = db.top_balances(TOP_PLACES as u64);
    let mut board = MoneyLeaderboard { number: TOP_PLACES, users: Vec::new(), balances: Vec::new() };
    let n = users.len();
    let mut i: usize = 0;
    while i < n
        invariant
            is_top_listing(db@, TOP_PLACES as nat, users@, balances@),
            db@.dom().finite(),
            n == users@.len(),
            i <= n,
            board.number == TOP_PLACES,
            board.users@.len() == i,
            board.balances@.len() == i,
            forall|t: int| 0 <= t < i ==> board.users@[t] as u64 == users@[t] && board.balances@[t] == balances@[t],
        decreases n - i,
    {
        let uid = users[i];
        if uid > 4294967295u64 {
            let message = integral_out_of_range_text(0, uid as i64);
            proof {
                assert(is_top_listing(db@, TOP_PLACES as nat, users@, balances@) && {
                    &&& 0 <= i < users@.len()
                    &&& users@[i as int] > u32::MAX
                    &&& forall|j: int| 0 <= j < i ==> users@[j] <= u32::MAX
                    &&& message@ == out_of_range_text(0, users@[i as int] as i64)
                });
            }
            return Err(MoneyError::Database(message));
        }
        board.users.push(uid as u32);
        board.balances.push(balances[i]);
        i = i + 1;
    }
    assert(widened(board.users@) =~= users@);
    assert(board.balances@ =~= balances@);
    Ok(board)
}

/// The lines of the board: `number` places `R. NAME - $BALANCE`, with `Unknown` and 0
/// standing in where names or balances run out.
pub open spec fn top10_lines(names: Seq<String>, balances: Seq<u32>, number: u32) -> Seq<Seq<char>> {
    Seq::new(
        number as nat,
        |i: int|
            ranked_line(
                (i + 1) as nat,
                if i < names.len() { names[i]@ } else { "Unknown"@ },
                if i < balances.len() { balances[i] as nat } else { 0 },
            ),
    )
}

/// The board's text: its lines joined by newlines.
pub fn format_top10(names: &Vec<String>, balances: &Vec<u32>, number: u32) -> (s: String)
    ensures
        s@ == joined(top10_lines(names@, balances@, number), "\n"@),
{
    let ghost lines = top10_lines(names@, balances@, number);
    let unknown = String::from_str("Unknown");
    let mut out = String::new();
    let mut i: u32 = 0;
    assert(lines.take(0) =~= Seq::<Seq<char>>::empty());
    while i < number
        invariant
            lines == top10_lines(names@, balances@, number),
            unknown@ == "Unknown"@,
            i <= number,
            out@ == joined(lines.take(i as int), "\n"@),
        decreases number - i,
    {
        let idx = i as usize;
        let name: &String = if idx < names.len() { &names[idx] } else { &unknown };
        let balance: u32 = if idx < balances.len() { balances[idx] } else { 0 };
        let mut line = String::new();
        push_ranked_line(&mut line, (i as u64) + 1, name.as_str(), balance);
        proof {
            assert(line@ =~= lines[i as int]);
        }
        push_joined_line(&mut out, Ghost(lines), idx, line.as_str());
        i = i + 1;
    }
    assert(lines.take(number as int) =~= lines);
    out
}

/// The board shows exactly `number` places in order: place `i` shows rank `i + 1`, the
/// `i`-th name (or `Unknown`) and the `i`-th balance (or 0). Fed a richest-first listing,
/// it therefore shows the richest first.
pub proof fn law_top10_lines(names: Seq<String>, balances: Seq<u32>, number: u32)
    ensures
        top10_lines(names, balances, number).len() == number,
        forall|i: int|
            0 <= i < number ==> #[trigger] top10_lines(names, balances, number)[i] == decimal((i + 1) as nat)
                + ". "@ + (if i < names.len() { names[i]@ } else { "Unknown"@ }) + " - $"@ + decimal(
                if i < balances.len() { balances[i] as nat } else { 0 },
            ),
{
}

/// The board's text has one line per place: with names that hold no newline, exactly
/// `number - 1` newlines.
pub proof fn law_top10_line_count(names: Seq<String>, balances: Seq<u32>, number: u32)
    requires
        number >= 1,
        forall|i: int| 0 <= i < names.len() ==> newline_count(#[trigger] names[i]@) == 0,
    ensures
        newline_count(joined(top10_lines(names, balances, number), "\n"@)) == number - 1,
{
    let lines = top10_lines(names, balances, number);
    reveal_strlit("Unknown");
    let unknown: Seq<char> = "Unknown"@;
    assert(unknown =~= seq!['U', 'n', 'k', 'n', 'o', 'w', 'n']);
    crate::library::text::lemma_no_newline_chars(unknown);
    assert forall|i: int| 0 <= i < lines.len() implies newline_count(#[trigger] lines[i]) == 0 by {
        let name = if i < names.len() { names[i]@ } else { unknown };
        lemma_ranked_line_no_newline(
            (i + 1) as nat,
            name,
            if i < balances.len() { balances[i] as nat } else { 0 },
        );
    }
    law_joined_line_count(lines);
}

} // verus!
