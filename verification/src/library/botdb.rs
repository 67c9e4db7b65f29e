//! The money table of one guild: who holds how much, and the operations the bot
//! performs on it (read a balance, credit, debit, rank the richest users).
use vstd::prelude::*;
use crate::library::text::{decimal, decimal_value, push_decimal, law_decimal_denotes};
use crate::library::keyed::{keys_unique, keyed_map, lemma_keyed_facts, lemma_keyed_absent, lemma_keyed_push, lemma_keyed_update, lemma_keyed_swap};

verus! {

/// What can go wrong with a money operation.
#[derive(Debug)]
pub enum MoneyError {
    /// A debit asked for more than the balance holds; `needmore` is the shortfall.
    BalanceInsufficient { needmore: u32 },
    /// The storage layer failed; the driver's message.
    Database(String),
}

/// The message of a refused debit that lacked `needmore`.
pub open spec fn insufficient_text(needmore: u32) -> Seq<char> {
    "Balance Insufficient: need "@ + decimal(needmore as nat) + " more"@
}

/// The refusal message is `Balance Insufficient: need `, the digits of the shortfall,
/// then ` more`.
pub proof fn law_insufficient_text(needmore: u32)
    ensures
        insufficient_text(needmore).len() > 32,
        insufficient_text(needmore).take(27) == "Balance Insufficient: need "@,
        insufficient_text(needmore).skip(insufficient_text(needmore).len() - 5) == " more"@,
        decimal_value(insufficient_text(needmore).subrange(27, insufficient_text(needmore).len() - 5)) == needmore,
{
    reveal_strlit("Balance Insufficient: need ");
    reveal_strlit(" more");
    law_decimal_denotes(needmore as nat);
    let t = insufficient_text(needmore);
    let d = decimal(needmore as nat);
    assert(t.len() == 27 + d.len() + 5);
    assert(t.take(27) =~= "Balance Insufficient: need "@);
    assert(t.skip(t.len() - 5) =~= " more"@);
    assert(t.subrange(27, t.len() - 5) =~= d);
}

impl MoneyError {
    /// The message shown to users: `Balance Insufficient: need N more`, or
    /// `Database Error: ` followed by the driver's own message.
    pub fn to_string(&self) -> (s: String)
        ensures
            self matches MoneyError::BalanceInsufficient { needmore } ==> s@ == insufficient_text(*needmore),
            self matches MoneyError::Database(message) ==> s@ == "Database Error: "@ + message@,
    {
        match self {
            MoneyError::BalanceInsufficient { needmore } => {
                let mut s = String::from_str("Balance Insufficient: need ");
                push_decimal(&mut s, *needmore as u64);
                s.append(" more");
                s
            },
            MoneyError::Database(message) => {
                let mut s = String::from_str("Database Error: ");
                s.append(message.as_str());
                s
            },
        }
    }
}

/// The balance of `uid`: its stored value, or 0 for a user without a row.
pub open spec fn balance_of(m: Map<u64, u32>, uid: u64) -> nat {
    if m.contains_key(uid) {
        m[uid] as nat
    } else {
        0
    }
}

/// The table after crediting `amount` to `uid`: the row is created (at 0) when missing,
/// then set to the old balance plus `amount`.
pub open spec fn credited(m: Map<u64, u32>, uid: u64, amount: u32) -> Map<u64, u32> {
    m.insert(uid, (balance_of(m, uid) + amount) as u32)
}

/// The outcome of debiting `amount` from `uid`: the shortfall when the balance is too
/// small, else the table with the row lowered by `amount` (a missing row stays missing,
/// which can only happen for a debit of 0).
pub open spec fn debited(m: Map<u64, u32>, uid: u64, amount: u32) -> Result<Map<u64, u32>, u32> {
    if balance_of(m, uid) < amount {
        Err((amount - balance_of(m, uid)) as u32)
    } else if m.contains_key(uid) {
        Ok(m.insert(uid, (m[uid] - amount) as u32))
    } else {
        Ok(m)
    }
}

/// The sum of all balances in a list of rows.
pub open spec fn rows_total(rows: Seq<(u64, u32)>) -> int
    decreases rows.len(),
{
    if rows.len() == 0 {
        0
    } else {
        rows_total(rows.drop_last()) + rows.last().1
    }
}

/// `users`/`balances` answer "the `limit` richest users, richest first" on table `m`:
/// as many entries as the limit and the table allow, each a real row, no user twice,
/// balances non-increasing, and no user left out who holds more than one listed.
/// Users with equal balances may come in any order.
pub open spec fn is_top_listing(m: Map<u64, u32>, limit: nat, users: Seq<u64>, balances: Seq<u32>) -> bool {
    &&& users.len() == balances.len()
    &&& users.len() == if limit < m.dom().len() { limit } else { m.dom().len() }
    &&& forall|i: int| 0 <= i < users.len() ==> m.contains_key(#[trigger] users[i]) && m[users[i]] == balances[i]
    &&& users.no_duplicates()
    &&& forall|i: int, j: int| 0 <= i <= j < balances.len() ==> balances[i] >= balances[j]
    &&& forall|u: u64, i: int|
        #![trigger m.contains_key(u), balances[i]]
        m.contains_key(u) && !users.contains(u) && 0 <= i < balances.len() ==> m[u] <= balances[i]
}

proof fn lemma_total_push(rows: Seq<(u64, u32)>, x: (u64, u32))
    ensures
        rows_total(rows.push(x)) == rows_total(rows) + x.1,
{
    assert(rows.push(x).drop_last() =~= rows);
}

proof fn lemma_total_update(rows: Seq<(u64, u32)>, i: int, v: u32)
    requires
        0 <= i < rows.len(),
    ensures
        rows_total(rows.update(i, (rows[i].0, v))) == rows_total(rows) - rows[i].1 + v,
    decreases rows.len(),
{
    let t = rows.update(i, (rows[i].0, v));
    if i == rows.len() - 1 {
        assert(t.drop_last() =~= rows.drop_last());
    } else {
        let s = rows.drop_last();
        lemma_total_update(s, i, v);
        assert(t.drop_last() =~= s.update(i, (s[i].0, v)));
    }
}

/// Reading a balance after a credit gives the old balance plus the credit, and no
/// other user's balance moves.
pub proof fn law_credit_reads_back(m: Map<u64, u32>, uid: u64, amount: u32, other: u64)
    requires
        balance_of(m, uid) + amount <= u32::MAX,
    ensures
        balance_of(credited(m, uid, amount), uid) == balance_of(m, uid) + amount,
        other != uid ==> balance_of(credited(m, uid, amount), other) == balance_of(m, other),
{
}

/// Debiting what was just credited succeeds and gives the old balance back (the user
/// keeps a row, holding that balance).
pub proof fn law_credit_then_debit(m: Map<u64, u32>, uid: u64, amount: u32)
    requires
        balance_of(m, uid) + amount <= u32::MAX,
    ensures
        debited(credited(m, uid, amount), uid, amount) == Ok::<Map<u64, u32>, u32>(
            m.insert(uid, balance_of(m, uid) as u32),
        ),
{
    assert(credited(m, uid, amount).insert(uid, balance_of(m, uid) as u32) =~= m.insert(uid, balance_of(m, uid) as u32));
}

/// Crediting what was just debited gives the old balance back (the user keeps a row,
/// holding that balance).
pub proof fn law_debit_then_credit(m: Map<u64, u32>, uid: u64, amount: u32)
    requires
        debited(m, uid, amount) is Ok,
    ensures
        debited(m, uid, amount) matches Ok(after) && credited(after, uid, amount) == m.insert(
            uid,
            balance_of(m, uid) as u32,
        ),
{
    if m.contains_key(uid) {
        let after = m.insert(uid, (m[uid] - amount) as u32);
        assert(credited(after, uid, amount) =~= m.insert(uid, balance_of(m, uid) as u32));
    }
}

/// A debit, granted or refused, leaves every other user's balance as it was; a refused
/// one leaves the whole table as it was.
pub proof fn law_debit_touches_only_its_user(m: Map<u64, u32>, uid: u64, amount: u32, other: u64)
    ensures
        debited(m, uid, amount) matches Ok(after) ==> (other != uid ==> balance_of(after, other)
            == balance_of(m, other)),
        debited(m, uid, amount) is Err <==> balance_of(m, uid) < amount,
{
}

/// `n + 1` values in `0..n` cannot all differ.
proof fn lemma_pigeonhole(f: spec_fn(int) -> int, n: int)
    requires
        n >= 1,
        forall|j: int| 0 <= j <= n ==> 0 <= #[trigger] f(j) < n,
    ensures
        exists|a: int, b: int| #![trigger f(a), f(b)] 0 <= a < b <= n && f(a) == f(b),
    decreases n,
{
    if n == 1 {
        assert(f(0) == 0 && f(1) == 0);
    } else if forall|j: int| 0 <= j <= n - 1 ==> #[trigger] f(j) != n - 1 {
        assert forall|j: int| 0 <= j <= n - 1 implies 0 <= #[trigger] f(j) < n - 1 by {
            assert(f(j) != n - 1);
        }
        lemma_pigeonhole(f, n - 1);
        let (a, b) = choose|a: int, b: int| #![trigger f(a), f(b)] 0 <= a < b <= n - 1 && f(a) == f(b);
        assert(0 <= a < b <= n && f(a) == f(b));
    } else {
        let j0 = choose|j: int| 0 <= j <= n - 1 && #[trigger] f(j) == n - 1;
        if f(n) == n - 1 {
            assert(0 <= j0 < n && f(j0) == f(n));
        } else {
            let g = |j: int| if j >= j0 { f(j + 1) } else { f(j) };
            if forall|j: int| 0 <= j <= n - 1 ==> 0 <= #[trigger] g(j) < n - 1 {
                lemma_pigeonhole(g, n - 1);
                let (a, b) = choose|a: int, b: int| #![trigger g(a), g(b)] 0 <= a < b <= n - 1 && g(a) == g(b);
                let aa = if a >= j0 { a + 1 } else { a };
                let bb = if b >= j0 { b + 1 } else { b };
                assert(f(aa) == g(a) && f(bb) == g(b));
                assert(0 <= aa < bb <= n && f(aa) == f(bb));
            } else {
                let j = choose|j: int| 0 <= j <= n - 1 && !(0 <= #[trigger] g(j) < n - 1);
                let jj = if j >= j0 { j + 1 } else { j };
                assert(g(j) == f(jj));
                assert(f(jj) == n - 1);
                assert(jj != j0);
                if jj < j0 {
                    assert(0 <= jj < j0 <= n && f(jj) == f(j0));
                } else {
                    assert(0 <= j0 < jj <= n && f(j0) == f(jj));
                }
            }
        }
    }
}

proof fn lemma_listing_not_above(
    m: Map<u64, u32>,
    limit: nat,
    u1: Seq<u64>,
    b1: Seq<u32>,
    u2: Seq<u64>,
    b2: Seq<u32>,
    i: int,
)
    requires
        is_top_listing(m, limit, u1, b1),
        is_top_listing(m, limit, u2, b2),
        0 <= i < b1.len(),
    ensures
        b1[i] <= b2[i],
{
    if b1[i] > b2[i] {
        // The first i + 1 users of the first listing all hold more than b2[i], so the
        // second listing must show each of them before place i: too many for i places.
        assert forall|j: int| 0 <= j <= i implies u2.contains(#[trigger] u1[j]) by {
            assert(m.contains_key(u1[j]) && m[u1[j]] == b1[j]);
            assert(b1[j] >= b1[i]);
            if !u2.contains(u1[j]) {
                assert(m[u1[j]] <= b2[i]);
            }
        }
        let f = |j: int| choose|p: int| 0 <= p < u2.len() && u2[p] == u1[j];
        assert forall|j: int| 0 <= j <= i implies 0 <= #[trigger] f(j) < i && u2[f(j)] == u1[j] by {
            assert(u2.contains(u1[j]));
            let p = f(j);
            assert(0 <= p < u2.len() && u2[p] == u1[j]);
            assert(m[u2[p]] == b2[p]);
            assert(m[u1[j]] == b1[j]);
            assert(b1[j] >= b1[i]);
            if p >= i {
                assert(b2[i] >= b2[p]);
            }
        }
        if i == 0 {
            assert(u2.contains(u1[0]));
            let p = choose|p: int| 0 <= p < u2.len() && u2[p] == u1[0];
            assert(m[u2[p]] == b2[p] && m[u1[0]] == b1[0]);
            assert(b2[0] >= b2[p]);
        } else {
            lemma_pigeonhole(f, i);
            let (a, b) = choose|a: int, b: int| #![trigger f(a), f(b)] 0 <= a < b <= i && f(a) == f(b);
            assert(u1[a] == u2[f(a)] && u1[b] == u2[f(b)]);
            assert(u1[a] == u1[b]);
        }
    }
}

/// The first place of a non-empty listing holds the largest balance of the table, and
/// every listed user is one of the table's users with that user's balance.
pub proof fn law_top_listing_first_is_richest(m: Map<u64, u32>, limit: nat, users: Seq<u64>, balances: Seq<u32>, u: u64)
    requires
        is_top_listing(m, limit, users, balances),
        users.len() >= 1,
        m.contains_key(u),
    ensures
        m[u] <= balances[0],
        forall|i: int| 0 <= i < users.len() ==> m.contains_key(#[trigger] users[i]) && m[users[i]] == balances[i],
{
    if users.contains(u) {
        let i = choose|i: int| 0 <= i < users.len() && users[i] == u;
        assert(m[users[i]] == balances[i]);
    }
}

/// Any two answers to the same "richest users" question list the same balances in the
/// same order: only users with equal balances may trade places.
pub proof fn law_top_balances_determined(
    m: Map<u64, u32>,
    limit: nat,
    users1: Seq<u64>,
    balances1: Seq<u32>,
    users2: Seq<u64>,
    balances2: Seq<u32>,
)
    requires
        is_top_listing(m, limit, users1, balances1),
        is_top_listing(m, limit, users2, balances2),
    ensures
        balances1 == balances2,
{
    assert forall|i: int| 0 <= i < balances1.len() implies balances1[i] == balances2[i] by {
        lemma_listing_not_above(m, limit, users1, balances1, users2, balances2, i);
        lemma_listing_not_above(m, limit, users2, balances2, users1, balances1, i);
    }
    assert(balances1 =~= balances2);
}

/// `writes` brings a stored table `stored` up to date with `now` (rows are never
/// removed): one write per user whose row is missing from `stored` or holds another
/// balance there, carrying the new balance and whether the row must be inserted
/// (`true`) or updated (`false`), and no user twice.
pub open spec fn is_write_plan(stored: Map<u64, u32>, now: Map<u64, u32>, writes: Seq<(u64, u32, bool)>) -> bool {
    &&& forall|t: int|
        #![trigger writes[t]]
        0 <= t < writes.len() ==> {
            &&& now.contains_key(writes[t].0)
            &&& now[writes[t].0] == writes[t].1
            &&& writes[t].2 == !stored.contains_key(writes[t].0)
            &&& !(stored.contains_key(writes[t].0) && stored[writes[t].0] == writes[t].1)
        }
    &&& forall|u: u64|
        #![trigger now.contains_key(u)]
        now.contains_key(u) && !(stored.contains_key(u) && stored[u] == now[u]) ==> exists|t: int|
            0 <= t < writes.len() && writes[t].0 == u
    &&& forall|t1: int, t2: int| 0 <= t1 < t2 < writes.len() ==> writes[t1].0 != writes[t2].0
}

/// The money table of one guild.
pub struct MoneyDatabase {
    tbl_name: String,
    rows: Vec<(u64, u32)>,
}

impl View for MoneyDatabase {
    type V = Map<u64, u32>;

    /// The balance of every user that has a row.
    closed spec fn view(&self) -> Map<u64, u32> {
        keyed_map(self.rows@)
    }
}

impl MoneyDatabase {
    #[verifier::type_invariant]
    spec fn inv(self) -> bool {
        keys_unique(self.rows@)
    }

    /// The name of the table: `guild_` followed by the guild id.
    pub closed spec fn table_name(self) -> Seq<char> {
        self.tbl_name@
    }

    /// All money held in this guild.
    pub closed spec fn total(self) -> int {
        rows_total(self.rows@)
    }

    /// The table of a guild, with no rows yet.
    pub fn open(gid: u64) -> (r: Result<MoneyDatabase, MoneyError>)
        ensures
            r matches Ok(db) && {
                &&& db@ == Map::<u64, u32>::empty()
                &&& db.table_name() == "guild_"@ + decimal(gid as nat)
                &&& db.total() == 0
            },
    {
        let mut tbl_name = String::from_str("guild_");
        push_decimal(&mut tbl_name, gid);
        let db = MoneyDatabase { tbl_name, rows: Vec::new() };
        assert(db@ =~= Map::<u64, u32>::empty());
        Ok(db)
    }

    /// The table's name.
    pub fn tbl_name(&self) -> (r: &String)
        ensures
            r@ == self.table_name(),
    {
        &self.tbl_name
    }

    /// The stored rows, for writing the table back to storage.
    pub fn entries(&self) -> (r: &Vec<(u64, u32)>)
        ensures
            keyed_map(r@) == self@,
            keys_unique(r@),
            rows_total(r@) == self.total(),
    {
        proof { use_type_invariant(self); }
        &self.rows
    }

    fn find_row(&self, uid: u64) -> (r: Option<usize>)
        ensures
            r matches Some(i) ==> i < self.rows@.len() && self.rows@[i as int].0 == uid,
            r is None ==> forall|i: int| 0 <= i < self.rows@.len() ==> self.rows@[i].0 != uid,
    {
        let n = self.rows.len();
        let mut i: usize = 0;
        while i < n
            invariant
                n == self.rows@.len(),
                i <= n,
                forall|j: int| 0 <= j < i ==> self.rows@[j].0 != uid,
            decreases n - i,
        {
            if self.rows[i].0 == uid {
                return Some(i);
            }
            i = i + 1;
        }
        None
    }

    /// The balance of `uid` (0 for a user without a row).
    pub fn get_balance(&self, uid: u64) -> (r: Result<u32, MoneyError>)
        ensures
            r matches Ok(b) && b == balance_of(self@, uid),
    {
        proof {
            use_type_invariant(self);
            lemma_keyed_facts(self.rows@);
        }
        match self.find_row(uid) {
            Some(i) => Ok(self.rows[i].1),
            None => {
                proof { lemma_keyed_absent(self.rows@, uid); }
                Ok(0)
            },
        }
    }

    /// Sets the balance of `uid`, creating its row when missing.
    pub fn set_balance(&mut self, uid: u64, balance: u32)
        ensures
            final(self)@ == old(self)@.insert(uid, balance),
            final(self).total() == old(self).total() - balance_of(old(self)@, uid) + balance,
            final(self).table_name() == old(self).table_name(),
    {
        proof {
            use_type_invariant(&*self);
            lemma_keyed_facts(self.rows@);
        }
        match self.find_row(uid) {
            Some(i) => {
                proof {
                    lemma_keyed_update(self.rows@, i as int, balance);
                    lemma_total_update(self.rows@, i as int, balance);
                }
                let mut rows = Vec::new();
                std::mem::swap(&mut rows, &mut self.rows);
                rows.set(i, (uid, balance));
                self.rows = rows;
            },
            None => {
                proof {
                    lemma_keyed_push(self.rows@, (uid, balance));
                    lemma_total_push(self.rows@, (uid, balance));
                    lemma_keyed_absent(self.rows@, uid);
                }
                let mut rows = Vec::new();
                std::mem::swap(&mut rows, &mut self.rows);
                rows.push((uid, balance));
                self.rows = rows;
            },
        }
    }

    /// Credits `amount` to `uid`, creating its row at 0 first when missing.
    pub fn add_money(&mut self, uid: u64, amount: u32) -> (r: Result<(), MoneyError>)
        requires
            balance_of(old(self)@, uid) + amount <= u32::MAX,
        ensures
            r is Ok,
            final(self)@ == credited(old(self)@, uid, amount),
            final(self).total() == old(self).total() + amount,
            final(self).table_name() == old(self).table_name(),
    {
        let balance = match self.get_balance(uid) {
            Ok(b) => b,
            Err(e) => { return Err(e); },
        };
        self.set_balance(uid, amount + balance);
        Ok(())
    }

    /// Debits `amount` from `uid`, refusing when the balance is too small.
    pub fn delete_money(&mut self, uid: u64, amount: u32) -> (r: Result<(), MoneyError>)
        ensures
            final(self).table_name() == old(self).table_name(),
            match debited(old(self)@, uid, amount) {
                Ok(m) => {
                    &&& r is Ok
                    &&& final(self)@ == m
                    &&& final(self).total() == old(self).total() - amount
                },
                Err(shortfall) => {
                    &&& r matches Err(MoneyError::BalanceInsufficient { needmore }) && needmore == shortfall
                    &&& final(self)@ == old(self)@
                    &&& final(self).total() == old(self).total()
                },
            },
    {
        let balance = match self.get_balance(uid) {
            Ok(b) => b,
            Err(e) => { return Err(e); },
        };
        if balance < amount {
            return Err(MoneyError::BalanceInsufficient { needmore: amount - balance });
        }
        proof {
            use_type_invariant(&*self);
            lemma_keyed_facts(self.rows@);
        }
        match self.find_row(uid) {
            Some(i) => {
                proof {
                    lemma_keyed_update(self.rows@, i as int, (balance - amount) as u32);
                    lemma_total_update(self.rows@, i as int, (balance - amount) as u32);
                }
                let mut rows = Vec::new();
                std::mem::swap(&mut rows, &mut self.rows);
                rows.set(i, (uid, balance - amount));
                self.rows = rows;
            },
            None => {
                // No row to update: only a debit of 0 gets here, and it changes nothing.
            },
        }
        Ok(())
    }

    /// The writes that bring `stored` (the table as it was read from storage) up to
    /// date with this table.
    pub fn pending_writes(&self, stored: &MoneyDatabase) -> (writes: Vec<(u64, u32, bool)>)
        ensures
            is_write_plan(stored@, self@, writes@),
    {
        proof {
            use_type_invariant(self);
            use_type_invariant(stored);
            lemma_keyed_facts(self.rows@);
            lemma_keyed_facts(stored.rows@);
        }
        let mut writes: Vec<(u64, u32, bool)> = Vec::new();
        let n = self.rows.len();
        let mut i: usize = 0;
        while i < n
            invariant
                n == self.rows@.len(),
                i <= n,
                keys_unique(self.rows@),
                keys_unique(stored.rows@),
                forall|t: int|
                    #![trigger writes@[t]]
                    0 <= t < writes@.len() ==> {
                        &&& self@.contains_key(writes@[t].0)
                        &&& self@[writes@[t].0] == writes@[t].1
                        &&& writes@[t].2 == !stored@.contains_key(writes@[t].0)
                        &&& !(stored@.contains_key(writes@[t].0) && stored@[writes@[t].0] == writes@[t].1)
                        &&& exists|j: int| 0 <= j < i && self.rows@[j].0 == writes@[t].0
                    },
                forall|j: int|
                    #![trigger self.rows@[j]]
                    0 <= j < i ==> (stored@.contains_key(self.rows@[j].0) && stored@[self.rows@[j].0]
                        == self.rows@[j].1) || exists|t: int| 0 <= t < writes@.len() && writes@[t].0 == self.rows@[j].0,
                forall|t1: int, t2: int| 0 <= t1 < t2 < writes@.len() ==> writes@[t1].0 != writes@[t2].0,
            decreases n - i,
        {
            let (uid, balance) = self.rows[i];
            proof {
                lemma_keyed_facts(self.rows@);
                lemma_keyed_facts(stored.rows@);
                assert(self@.contains_key(self.rows@[i as int].0));
            }
            let found = stored.find_row(uid);
            let unchanged = match found {
                Some(j) => stored.rows[j].1 == balance,
                None => false,
            };
            proof {
                if found is None {
                    lemma_keyed_absent(stored.rows@, uid);
                } else {
                    let j = found.unwrap() as int;
                    assert(stored@[stored.rows@[j].0] == stored.rows@[j].1);
                }
            }
            if !unchanged {
                let ghost before = writes@;
                writes.push((uid, balance, found.is_none()));
                proof {
                    assert forall|t: int| #![trigger writes@[t]] 0 <= t < writes@.len() implies exists|j: int|
                        0 <= j < i + 1 && self.rows@[j].0 == writes@[t].0 by {
                        if t < before.len() {
                            assert(writes@[t] == before[t]);
                            let j = choose|j: int| 0 <= j < i && self.rows@[j].0 == before[t].0;
                            assert(0 <= j < i + 1 && self.rows@[j].0 == writes@[t].0);
                        } else {
                            assert(self.rows@[i as int].0 == writes@[t].0);
                        }
                    }
                    assert forall|t1: int, t2: int| 0 <= t1 < t2 < writes@.len() implies writes@[t1].0
                        != writes@[t2].0 by {
                        if t2 == before.len() {
                            assert(writes@[t1] == before[t1]);
                            let j = choose|j: int| 0 <= j < i && self.rows@[j].0 == before[t1].0;
                            assert(self.rows@[j].0 != self.rows@[i as int].0);
                        } else {
                            assert(writes@[t1] == before[t1] && writes@[t2] == before[t2]);
                        }
                    }
                    assert forall|j: int|
                        #![trigger self.rows@[j]]
                        0 <= j < i + 1 implies (stored@.contains_key(self.rows@[j].0) && stored@[self.rows@[j].0]
                        == self.rows@[j].1) || exists|t: int| 0 <= t < writes@.len() && writes@[t].0 == self.rows@[j].0 by {
                        if j == i {
                            assert(writes@[before.len() as int].0 == self.rows@[j].0);
                        } else if !(stored@.contains_key(self.rows@[j].0) && stored@[self.rows@[j].0] == self.rows@[j].1) {
                            let t = choose|t: int| 0 <= t < before.len() && before[t].0 == self.rows@[j].0;
                            assert(writes@[t] == before[t]);
                        }
                    }
                }
            }
            i = i + 1;
        }
        proof {
            lemma_keyed_facts(self.rows@);
            assert forall|u: u64|
                #![trigger self@.contains_key(u)]
                self@.contains_key(u) && !(stored@.contains_key(u) && stored@[u] == self@[u]) implies exists|t: int|
                0 <= t < writes@.len() && writes@[t].0 == u by {
                let j = choose|j: int| 0 <= j < self.rows@.len() && self.rows@[j].0 == u;
                assert(self@[self.rows@[j].0] == self.rows@[j].1);
            }
        }
        writes
    }

    /// The `limit` richest users with their balances, richest first.
    pub fn top_balances(&self, limit: u64) -> (r: (Vec<u64>, Vec<u32>))
        ensures
            self@.dom().finite(),
            is_top_listing(self@, limit as nat, r.0@, r.1@),
    {
        proof {
            use_type_invariant(self);
            lemma_keyed_facts(self.rows@);
        }
        let n = self.rows.len();
        let mut work: Vec<(u64, u32)> = Vec::new();
        let mut c: usize = 0;
        while c < n
            invariant
                n == self.rows@.len(),
                c <= n,
                work@ == self.rows@.take(c as int),
            decreases n - c,
        {
            work.push(self.rows[c]);
            c = c + 1;
            assert(work@ =~= self.rows@.take(c as int));
        }
        assert(work@ =~= self.rows@);
        let count: usize = if limit < n as u64 { limit as usize } else { n };
        let mut k: usize = 0;
        while k < count
            invariant
                count <= n,
                k <= count,
                work@.len() == n,
                keys_unique(work@),
                keyed_map(work@) == self@,
                forall|i: int, j: int| 0 <= i <= j < k ==> work@[i].1 >= work@[j].1,
                forall|i: int, j: int| 0 <= i < k <= j < n ==> work@[i].1 >= work@[j].1,
            decreases count - k,
        {
            let mut best: usize = k;
            let mut j: usize = k + 1;
            while j < n
                invariant
                    work@.len() == n,
                    k < n,
                    k <= best < n,
                    k < j <= n,
                    forall|t: int| k <= t < j ==> work@[best as int].1 >= work@[t].1,
                decreases n - j,
            {
                if work[j].1 > work[best].1 {
                    best = j;
                }
                j = j + 1;
            }
            let a = work[k];
            let b = work[best];
            proof { lemma_keyed_swap(work@, k as int, best as int); }
            work.set(k, b);
            work.set(best, a);
            k = k + 1;
        }
        let mut users: Vec<u64> = Vec::new();
        let mut balances: Vec<u32> = Vec::new();
        let mut i: usize = 0;
        while i < count
            invariant
                count <= n,
                work@.len() == n,
                i <= count,
                users@.len() == i,
                balances@.len() == i,
                forall|t: int| 0 <= t < i ==> users@[t] == work@[t].0 && balances@[t] == work@[t].1,
            decreases count - i,
        {
            users.push(work[i].0);
            balances.push(work[i].1);
            i = i + 1;
        }
        proof {
            lemma_keyed_facts(work@);
            let m = self@;
            assert forall|t: int| 0 <= t < users@.len() implies m.contains_key(#[trigger] users@[t])
                && m[users@[t]] == balances@[t] by {
                assert(work@[t].0 == users@[t]);
            }
            assert(users@.no_duplicates()) by {
                assert forall|p: int, q: int| 0 <= p < users@.len() && 0 <= q < users@.len() && p != q
                    implies users@[p] != users@[q] by {
                    if p < q {
                        assert(work@[p].0 != work@[q].0);
                    } else {
                        assert(work@[q].0 != work@[p].0);
                    }
                }
            }
            assert forall|u: u64, t: int|
                #![trigger m.contains_key(u), balances@[t]]
                m.contains_key(u) && !users@.contains(u) && 0 <= t < balances@.len() implies m[u]
                <= balances@[t] by {
                let p = choose|p: int| 0 <= p < work@.len() && work@[p].0 == u;
                if p < count {
                    assert(users@[p] == u);
                    assert(users@.contains(u));
                }
                assert(m[work@[p].0] == work@[p].1);
            }
        }
        (users, balances)
    }
}

} // verus!
