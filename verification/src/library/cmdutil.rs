//! Per-user command cooldowns: a command may be used again only once its cooldown has
//! passed since the user's last accepted use of it.
use vstd::prelude::*;
use crate::library::keyed::{keys_unique, keyed_map, lemma_keyed_facts, lemma_keyed_absent, lemma_keyed_push, lemma_keyed_update};
use crate::library::text::{decimal, push_decimal};

verus! {

/// A user id and a command name.
pub type UsageKey = (u64, Seq<char>);

/// Time from `last` to `now`, or zero when `now` is not after `last` (as
/// `Instant::duration_since` counts it).
pub open spec fn elapsed(now: u64, last: u64) -> nat {
    if now >= last { (now - last) as nat } else { 0 }
}

/// Whether `key` is still cooling down at `now`.
pub open spec fn cooling_down(m: Map<UsageKey, u64>, key: UsageKey, now: u64, duration: u64) -> bool {
    m.contains_key(key) && elapsed(now, m[key]) < duration
}

/// The answer to a use of a command, and the usage record afterwards: refused while the
/// command cools down (nothing recorded), else accepted with `now` as its last use.
pub open spec fn cooldown_check(m: Map<UsageKey, u64>, key: UsageKey, now: u64, duration: u64) -> (bool, Map<UsageKey, u64>) {
    if cooling_down(m, key, now, duration) {
        (false, m)
    } else {
        (true, m.insert(key, now))
    }
}

/// The usage rows as `(key, last use)` pairs.
pub open spec fn usage_rows(rows: Seq<(u64, String, u64)>) -> Seq<(UsageKey, u64)> {
    rows.map_values(|e: (u64, String, u64)| ((e.0, e.1@), e.2))
}

/// The bot's shared state: when each user last used each command.
pub struct Data {
    command_usage: Vec<(u64, String, u64)>,
}

impl View for Data {
    type V = Map<UsageKey, u64>;

    /// The last accepted use of each (user, command) pair, in the caller's time unit.
    closed spec fn view(&self) -> Map<UsageKey, u64> {
        keyed_map(usage_rows(self.command_usage@))
    }
}

impl Data {
    #[verifier::type_invariant]
    spec fn inv(self) -> bool {
        keys_unique(usage_rows(self.command_usage@))
    }

    /// No command used yet.
    pub fn new() -> (d: Self)
        ensures
            d@ == Map::<UsageKey, u64>::empty(),
    {
        let d = Data { command_usage: Vec::new() };
        assert(usage_rows(d.command_usage@) =~= Seq::<(UsageKey, u64)>::empty());
        assert(d@ =~= Map::<UsageKey, u64>::empty());
        d
    }

    fn find(&self, user_id: u64, command_name: &String) -> (r: Option<usize>)
        ensures
            r matches Some(i) ==> i < self.command_usage@.len() && usage_rows(self.command_usage@)[i as int].0
                == (user_id, command_name@),
            r is None ==> forall|i: int|
                0 <= i < self.command_usage@.len() ==> usage_rows(self.command_usage@)[i].0 != (
                    user_id,
                    command_name@,
                ),
    {
        let n = self.command_usage.len();
        let mut i: usize = 0;
        while i < n
            invariant
                n == self.command_usage@.len(),
                i <= n,
                forall|j: int| 0 <= j < i ==> usage_rows(self.command_usage@)[j].0 != (user_id, command_name@),
            decreases n - i,
        {
            let entry = &self.command_usage[i];
            if entry.0 == user_id && entry.1 == *command_name {
                return Some(i);
            }
            i = i + 1;
        }
        None
    }

    /// Decides a use of `command_name` by `user_id` at time `now`, given the command's
    /// cooldown `duration` (both in one time unit, such as nanoseconds of a monotonic
    /// clock). Returns whether the use may go ahead; an accepted use is recorded.
    pub fn check_dr(&mut self, user_id: u64, command_name: String, now: u64, duration: u64) -> (allowed: bool)
        ensures
            (allowed, final(self)@) == cooldown_check(old(self)@, (user_id, command_name@), now, duration),
    {
        proof {
            use_type_invariant(&*self);
            lemma_keyed_facts(usage_rows(self.command_usage@));
        }
        let ghost key = (user_id, command_name@);
        match self.find(user_id, &command_name) {
            Some(i) => {
                let last = self.command_usage[i].2;
                proof {
                    assert(usage_rows(self.command_usage@)[i as int] == (key, last));
                }
                let since = if now >= last { now - last } else { 0 };
                if since < duration {
                    return false;
                }
                let ghost rows = usage_rows(self.command_usage@);
                proof { lemma_keyed_update(rows, i as int, now); }
                let mut usage = Vec::new();
                std::mem::swap(&mut usage, &mut self.command_usage);
                usage.set(i, (user_id, command_name, now));
                assert(usage_rows(usage@) =~= rows.update(i as int, (rows[i as int].0, now)));
                self.command_usage = usage;
                true
            },
            None => {
                let ghost rows = usage_rows(self.command_usage@);
                proof {
                    lemma_keyed_absent(rows, key);
                    lemma_keyed_push(rows, (key, now));
                }
                let mut usage = Vec::new();
                std::mem::swap(&mut usage, &mut self.command_usage);
                usage.push((user_id, command_name, now));
                assert(usage_rows(usage@) =~= rows.push((key, now)));
                self.command_usage = usage;
                true
            },
        }
    }
}

/// A use accepted at `t` makes every later use of the same command by the same user
/// before `t + duration` refused, and a refused use records nothing.
pub proof fn law_cooldown_blocks_repeat(m: Map<UsageKey, u64>, key: UsageKey, t: u64, later: u64, duration: u64)
    requires
        cooldown_check(m, key, t, duration).0,
        t <= later,
        later < t + duration,
    ensures
        cooldown_check(cooldown_check(m, key, t, duration).1, key, later, duration) == (
            false,
            cooldown_check(m, key, t, duration).1,
        ),
{
}

/// Once `duration` has passed since the last accepted use, the command is accepted again.
pub proof fn law_cooldown_expires(m: Map<UsageKey, u64>, key: UsageKey, t: u64, later: u64, duration: u64)
    requires
        cooldown_check(m, key, t, duration).0,
        later >= t + duration,
    ensures
        cooldown_check(cooldown_check(m, key, t, duration).1, key, later, duration).0,
{
}

/// A use of one (user, command) pair never changes the record of another pair.
pub proof fn law_cooldown_keys_independent(m: Map<UsageKey, u64>, key: UsageKey, other: UsageKey, now: u64, duration: u64)
    requires
        key != other,
    ensures
        cooldown_check(m, key, now, duration).1.contains_key(other) == m.contains_key(other),
        m.contains_key(other) ==> cooldown_check(m, key, now, duration).1[other] == m[other],
{
}

/// The refusal sent while a command cools down.
pub fn cooldown_message(duration_secs: u64) -> (s: String)
    ensures
        s@ == "⏳ Please wait "@ + decimal(duration_secs as nat) + " seconds before using this command again"@,
{
    let mut s = String::from_str("⏳ Please wait ");
    push_decimal(&mut s, duration_secs);
    s.append(" seconds before using this command again");
    s
}

/// A use is refused exactly when the same user used the same command less than
/// `duration` ago (a clock that went back counts as no time passed); a refusal records
/// nothing, an accepted use records `now`. In particular a first use is always accepted.
pub proof fn law_cooldown_decision(m: Map<UsageKey, u64>, key: UsageKey, now: u64, duration: u64)
    ensures
        !cooldown_check(m, key, now, duration).0 <==> m.contains_key(key) && (if now >= m[key] {
            now - m[key]
        } else {
            0
        }) < duration,
        cooldown_check(m, key, now, duration).0 ==> cooldown_check(m, key, now, duration).1 == m.insert(key, now),
        !cooldown_check(m, key, now, duration).0 ==> cooldown_check(m, key, now, duration).1 == m,
        !m.contains_key(key) ==> cooldown_check(m, key, now, duration) == (true, m.insert(key, now)),
{
}

} // verus!
