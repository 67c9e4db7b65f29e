//! Rendering of numbers and joining of lines, as used by every reply the bot sends.
use vstd::prelude::*;

verus! {

/// The ASCII digit for `d`, for `d` below ten.
pub open spec fn digit_char(d: nat) -> char {
    if d == 0 { '0' }
    else if d == 1 { '1' }
    else if d == 2 { '2' }
    else if d == 3 { '3' }
    else if d == 4 { '4' }
    else if d == 5 { '5' }
    else if d == 6 { '6' }
    else if d == 7 { '7' }
    else if d == 8 { '8' }
    else { '9' }
}

/// The decimal notation of `n`, most significant digit first, without leading zeros
/// (zero itself is written `0`).
pub open spec fn decimal(n: nat) -> Seq<char>
    decreases n,
{
    if n < 10 {
        seq![digit_char(n)]
    } else {
        decimal(n / 10) + seq![digit_char(n % 10)]
    }
}

fn digit_str(d: u64) -> (s: &'static str)
    requires
        d < 10,
    ensures
        s@ == seq![digit_char(d as nat)],
{
    if d == 0 {
        proof { reveal_strlit("0"); }
        "0"
    } else if d == 1 {
        proof { reveal_strlit("1"); }
        "1"
    } else if d == 2 {
        proof { reveal_strlit("2"); }
        "2"
    } else if d == 3 {
        proof { reveal_strlit("3"); }
        "3"
    } else if d == 4 {
        proof { reveal_strlit("4"); }
        "4"
    } else if d == 5 {
        proof { reveal_strlit("5"); }
        "5"
    } else if d == 6 {
        proof { reveal_strlit("6"); }
        "6"
    } else if d == 7 {
        proof { reveal_strlit("7"); }
        "7"
    } else if d == 8 {
        proof { reveal_strlit("8"); }
        "8"
    } else {
        proof { reveal_strlit("9"); }
        "9"
    }
}

/// Appends the decimal notation of `n` to `out`.
pub fn push_decimal(out: &mut String, n: u64)
    ensures
        final(out)@ == old(out)@ + decimal(n as nat),
    decreases n,
{
    if n >= 10 {
        push_decimal(out, n / 10);
    }
    out.append(digit_str(n % 10));
    proof {
        if n >= 10 {
            assert(old(out)@ + decimal(n as nat) =~= old(out)@ + decimal((n / 10) as nat) + seq![digit_char((n % 10) as nat)]);
        }
    }
}

/// The decimal notation of `n` as a new string.
pub fn decimal_string(n: u64) -> (s: String)
    ensures
        s@ == decimal(n as nat),
{
    let mut s = String::new();
    push_decimal(&mut s, n);
    assert(s@ =~= decimal(n as nat));
    s
}

/// `lines` with `sep` between each pair of neighbours (the empty text for no lines).
pub open spec fn joined(lines: Seq<Seq<char>>, sep: Seq<char>) -> Seq<char>
    decreases lines.len(),
{
    if lines.len() == 0 {
        Seq::empty()
    } else if lines.len() == 1 {
        lines[0]
    } else {
        joined(lines.drop_last(), sep) + sep + lines.last()
    }
}

/// One ranked line: `R. NAME - $BALANCE`.
pub open spec fn ranked_line(rank: nat, name: Seq<char>, balance: nat) -> Seq<char> {
    decimal(rank) + ". "@ + name + " - $"@ + decimal(balance)
}

/// Appends line `i` of `lines` to the text made of lines `0..i`, with a newline between.
pub(crate) fn push_joined_line(out: &mut String, lines: Ghost<Seq<Seq<char>>>, i: usize, line: &str)
    requires
        old(out)@ == joined(lines@.take(i as int), "\n"@),
        i < lines@.len(),
        line@ == lines@[i as int],
    ensures
        final(out)@ == joined(lines@.take(i + 1), "\n"@),
{
    let ghost prev = lines@.take(i as int);
    let ghost next = lines@.take(i + 1);
    assert(next.drop_last() =~= prev);
    if i > 0 {
        out.append("\n");
    } else {
        assert(out@ =~= Seq::<char>::empty());
    }
    out.append(line);
    assert(out@ =~= joined(next, "\n"@));
}

/// Appends `R. NAME - $BALANCE` to `out`.
pub fn push_ranked_line(out: &mut String, rank: u64, name: &str, balance: u32)
    ensures
        final(out)@ == old(out)@ + ranked_line(rank as nat, name@, balance as nat),
{
    push_decimal(out, rank);
    out.append(". ");
    out.append(name);
    out.append(" - $");
    push_decimal(out, balance as u64);
    assert(out@ =~= old(out)@ + ranked_line(rank as nat, name@, balance as nat));
}

/// The number of newline characters in `s`.
pub open spec fn newline_count(s: Seq<char>) -> nat
    decreases s.len(),
{
    if s.len() == 0 {
        0
    } else {
        newline_count(s.drop_last()) + if s.last() == '\n' { 1nat } else { 0nat }
    }
}

/// The number that a string of decimal digits denotes.
pub open spec fn decimal_value(s: Seq<char>) -> int
    decreases s.len(),
{
    if s.len() == 0 {
        0
    } else {
        decimal_value(s.drop_last()) * 10 + (s.last() as int - '0' as int)
    }
}

pub(crate) proof fn lemma_newline_count_concat(a: Seq<char>, b: Seq<char>)
    ensures
        newline_count(a + b) == newline_count(a) + newline_count(b),
    decreases b.len(),
{
    if b.len() > 0 {
        lemma_newline_count_concat(a, b.drop_last());
        assert((a + b).drop_last() =~= a + b.drop_last());
    } else {
        assert(a + b =~= a);
    }
}

proof fn lemma_digit_char(d: nat)
    requires
        d < 10,
    ensures
        digit_char(d) != '\n',
        '0' <= digit_char(d) <= '9',
        digit_char(d) as int - '0' as int == d,
        d > 0 ==> digit_char(d) != '0',
{
}

proof fn lemma_single_newlines(c: char)
    ensures
        newline_count(seq![c]) == if c == '\n' { 1nat } else { 0nat },
{
    assert(seq![c].drop_last() =~= Seq::<char>::empty());
    assert(newline_count(Seq::<char>::empty()) == 0);
}

pub(crate) proof fn lemma_decimal_no_newline(n: nat)
    ensures
        newline_count(decimal(n)) == 0,
    decreases n,
{
    lemma_digit_char(n % 10);
    lemma_single_newlines(digit_char(n % 10));
    if n >= 10 {
        lemma_decimal_no_newline(n / 10);
        lemma_newline_count_concat(decimal(n / 10), seq![digit_char(n % 10)]);
    } else {
        assert(n % 10 == n);
    }
}

/// The decimal notation of `n` is a non-empty string of the digits `0`..`9`, with no
/// leading zero unless `n` is zero, that denotes `n`.
pub proof fn law_decimal_denotes(n: nat)
    ensures
        decimal(n).len() >= 1,
        forall|i: int| 0 <= i < decimal(n).len() ==> '0' <= #[trigger] decimal(n)[i] <= '9',
        n > 0 ==> decimal(n)[0] != '0',
        decimal_value(decimal(n)) == n,
    decreases n,
{
    lemma_digit_char(n % 10);
    let d = decimal(n);
    if n >= 10 {
        law_decimal_denotes(n / 10);
        assert(d.drop_last() =~= decimal(n / 10));
        assert(d.last() == digit_char(n % 10));
        assert(d[0] == decimal(n / 10)[0]);
        assert(decimal_value(d) == decimal_value(decimal(n / 10)) * 10 + (d.last() as int - '0' as int));
        assert(n == (n / 10) * 10 + n % 10);
        assert forall|i: int| 0 <= i < d.len() implies '0' <= #[trigger] d[i] <= '9' by {
            if i < d.len() - 1 {
                assert(d[i] == decimal(n / 10)[i]);
            }
        }
    } else {
        assert(n % 10 == n);
        assert(d == seq![digit_char(n)]);
        assert(d.drop_last() =~= Seq::<char>::empty());
        assert(decimal_value(Seq::<char>::empty()) == 0);
        assert(decimal_value(d) == decimal_value(d.drop_last()) * 10 + (d.last() as int - '0' as int));
    }
}

/// Joining lines that hold no newline with newlines gives one newline fewer than there
/// are lines: the lines are all there, in order, one per text line.
pub proof fn law_joined_line_count(lines: Seq<Seq<char>>)
    requires
        lines.len() >= 1,
        forall|i: int| 0 <= i < lines.len() ==> newline_count(#[trigger] lines[i]) == 0,
    ensures
        newline_count(joined(lines, "\n"@)) == lines.len() - 1,
    decreases lines.len(),
{
    reveal_strlit("\n");
    if lines.len() > 1 {
        let s = lines.drop_last();
        assert forall|i: int| 0 <= i < s.len() implies newline_count(#[trigger] s[i]) == 0 by {
            assert(s[i] == lines[i]);
        }
        law_joined_line_count(s);
        let nl: Seq<char> = "\n"@;
        assert(nl =~= seq!['\n']);
        lemma_single_newlines('\n');
        lemma_newline_count_concat(joined(s, nl), nl);
        lemma_newline_count_concat(joined(s, nl) + nl, lines.last());
        assert(newline_count(lines.last()) == 0) by {
            assert(lines.last() == lines[lines.len() - 1]);
        }
        assert(joined(lines, nl) == joined(s, nl) + nl + lines.last());
    } else {
        assert(newline_count(lines[0]) == 0);
    }
}

pub(crate) proof fn lemma_no_newline_chars(s: Seq<char>)
    requires
        forall|i: int| 0 <= i < s.len() ==> s[i] != '\n',
    ensures
        newline_count(s) == 0,
    decreases s.len(),
{
    if s.len() > 0 {
        let t = s.drop_last();
        assert forall|i: int| 0 <= i < t.len() implies t[i] != '\n' by {
            assert(t[i] == s[i]);
        }
        lemma_no_newline_chars(t);
        assert(s.last() == s[s.len() - 1]);
    }
}

/// A ranked line is one text line when the name is.
pub(crate) proof fn lemma_ranked_line_no_newline(rank: nat, name: Seq<char>, balance: nat)
    requires
        newline_count(name) == 0,
    ensures
        newline_count(decimal(rank) + ". "@ + name + " - $"@ + decimal(balance)) == 0,
{
    reveal_strlit(". ");
    reveal_strlit(" - $");
    let dot: Seq<char> = ". "@;
    let dash: Seq<char> = " - $"@;
    assert(dot =~= seq!['.', ' ']);
    assert(dash =~= seq![' ', '-', ' ', '$']);
    lemma_no_newline_chars(dot);
    lemma_no_newline_chars(dash);
    lemma_decimal_no_newline(rank);
    lemma_decimal_no_newline(balance);
    lemma_newline_count_concat(decimal(rank), dot);
    lemma_newline_count_concat(decimal(rank) + dot, name);
    lemma_newline_count_concat(decimal(rank) + dot + name, dash);
    lemma_newline_count_concat(decimal(rank) + dot + name + dash, decimal(balance));
}

} // verus!
