//! `top`: the leaderboard of a guild.
use vstd::prelude::*;
use crate::library::botdb::{MoneyDatabase, MoneyError, is_top_listing};
use crate::library::text::{decimal, joined, ranked_line, newline_count, push_decimal, push_joined_line, push_ranked_line, law_joined_line_count, lemma_ranked_line_no_newline};

verus! {

/// How many users `top` lists when no count is given.
pub const DEFAULT_TOP_COUNT: u32 = 10;

/// The richest users of a guild, richest first, with their balances.
pub struct MoneyLeaderboard {
    pub users: Vec<u64>,
    pub balances: Vec<u32>,
}

/// The `amnt` richest users of the table, richest first.
pub fn get_top_users(db: &MoneyDatabase, amnt: u32) -> (r: Result<MoneyLeaderboard, MoneyError>)
    ensures
        r matches Ok(board) && is_top_listing(db@, amnt as nat, board.users@, board.balances@),
        db@.dom().finite(),
{
    let (users, balances) = db.top_balances(amnt as u64);
    Ok(MoneyLeaderboard { users, balances })
}

/// The number of users `top` lists: the count asked for, else 10.
pub fn top_count(count: Option<u32>) -> (n: u32)
    ensures
        n == match count {
            Some(c) => c,
            None => DEFAULT_TOP_COUNT,
        },
{
    match count {
        Some(c) => c,
        None => DEFAULT_TOP_COUNT,
    }
}

/// The name shown for a user whose profile could not be fetched: `User_ID`.
pub fn fallback_name(uid: u64) -> (s: String)
    ensures
        s@ == "User_"@ + decimal(uid as nat),
{
    let mut s = String::from_str("User_");
    push_decimal(&mut s, uid);
    s
}

/// The lines of the leaderboard: one per name, `R. NAME - $BALANCE` with ranks from 1,
/// or empty where no balance goes with the name.
pub open spec fn leaderboard_lines(names: Seq<String>, balances: Seq<u32>) -> Seq<Seq<char>> {
    Seq::new(
        names.len(),
        |i: int|
            if i < balances.len() {
                ranked_line((i + 1) as nat, names[i]@, balances[i] as nat)
            } else {
                Seq::<char>::empty()
            },
    )
}

/// The leaderboard text: its lines joined by newlines.
pub fn format_leaderboard(names: &Vec<String>, balances: &Vec<u32>) -> (s: String)
    ensures
        s@ == joined(leaderboard_lines(names@, balances@), "\n"@),
{
    let ghost lines = leaderboard_lines(names@, balances@);
    let mut out = String::new();
    let n = names.len();
    let mut i: usize = 0;
    assert(lines.take(0) =~= Seq::<Seq<char>>::empty());
    while i < n
        invariant
            n == names@.len(),
            lines == leaderboard_lines(names@, balances@),
            i <= n,
            out@ == joined(lines.take(i as int), "\n"@),
        decreases n - i,
    {
        let mut line = String::new();
        if i < balances.len() {
            push_ranked_line(&mut line, (i as u64) + 1, names[i].as_str(), balances[i]);
        }
        proof {
            assert(line@ =~= lines[i as int]);
        }
        push_joined_line(&mut out, Ghost(lines), i, line.as_str());
        i = i + 1;
    }
    assert(lines.take(n as int) =~= lines);
    out
}

/// The leaderboard has one line per fetched name, in the names' order: place `i` shows
/// rank `i + 1`, the `i`-th name and the `i`-th balance as `R. NAME - $BALANCE`, and is
/// empty only where no balance goes with the name.
pub proof fn law_leaderboard_lines(names: Seq<String>, balances: Seq<u32>)
    ensures
        leaderboard_lines(names, balances).len() == names.len(),
        forall|i: int|
            0 <= i < names.len() && i < balances.len() ==> #[trigger] leaderboard_lines(names, balances)[i]
                == decimal((i + 1) as nat) + ". "@ + names[i]@ + " - $"@ + decimal(balances[i] as nat),
        forall|i: int|
            0 <= i < names.len() && balances.len() <= i ==> #[trigger] leaderboard_lines(names, balances)[i]
                == Seq::<char>::empty(),
{
}

/// The leaderboard text has as many lines as there are names: when no name holds a
/// newline, the text holds exactly one newline fewer than there are names.
pub proof fn law_leaderboard_line_count(names: Seq<String>, balances: Seq<u32>)
    requires
        names.len() >= 1,
        forall|i: int| 0 <= i < names.len() ==> newline_count(#[trigger] names[i]@) == 0,
    ensures
        newline_count(joined(leaderboard_lines(names, balances), "\n"@)) == names.len() - 1,
{
    let lines = leaderboard_lines(names, balances);
    assert forall|i: int| 0 <= i < lines.len() implies newline_count(#[trigger] lines[i]) == 0 by {
        if i < balances.len() {
            lemma_ranked_line_no_newline((i + 1) as nat, names[i]@, balances[i] as nat);
        } else {
            assert(lines[i] == Seq::<char>::empty());
        }
    }
    law_joined_line_count(lines);
}

} // verus!
