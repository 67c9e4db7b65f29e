//! Lists of `(key, value)` rows read as maps: the shape of every table the bot keeps.
use vstd::prelude::*;

verus! {

/// No key occurs in two rows.
pub open spec fn keys_unique<K, V>(rows: Seq<(K, V)>) -> bool {
    forall|i: int, j: int| 0 <= i < j < rows.len() ==> rows[i].0 != rows[j].0
}

/// The map that a list of `(key, value)` rows describes (a later row wins, which
/// matters only when keys repeat).
pub open spec fn keyed_map<K, V>(rows: Seq<(K, V)>) -> Map<K, V>
    decreases rows.len(),
{
    if rows.len() == 0 {
        Map::empty()
    } else {
        keyed_map(rows.drop_last()).insert(rows.last().0, rows.last().1)
    }
}

pub(crate) proof fn lemma_keyed_facts<K, V>(rows: Seq<(K, V)>)
    requires
        keys_unique(rows),
    ensures
        keyed_map(rows).dom().finite(),
        keyed_map(rows).dom().len() == rows.len(),
        forall|i: int|
            #![trigger rows[i]]
            0 <= i < rows.len() ==> keyed_map(rows).contains_key(rows[i].0) && keyed_map(rows)[rows[i].0] == rows[i].1,
        forall|k: K| #[trigger]
            keyed_map(rows).contains_key(k) ==> exists|i: int| 0 <= i < rows.len() && rows[i].0 == k,
    decreases rows.len(),
{
    if rows.len() > 0 {
        let s = rows.drop_last();
        let last = rows.last();
        assert(keys_unique(s));
        lemma_keyed_facts(s);
        assert(!keyed_map(s).contains_key(last.0)) by {
            if keyed_map(s).contains_key(last.0) {
                let i = choose|i: int| 0 <= i < s.len() && s[i].0 == last.0;
                assert(rows[i].0 == rows[rows.len() - 1].0);
            }
        }
        assert(keyed_map(rows).dom() =~= keyed_map(s).dom().insert(last.0));
        assert forall|i: int| #![trigger rows[i]] 0 <= i < rows.len() implies keyed_map(rows).contains_key(rows[i].0)
            && keyed_map(rows)[rows[i].0] == rows[i].1 by {
            if i < rows.len() - 1 {
                assert(s[i] == rows[i]);
                assert(rows[i].0 != last.0);
            }
        }
        assert forall|k: K| #[trigger] keyed_map(rows).contains_key(k) implies exists|i: int|
            0 <= i < rows.len() && rows[i].0 == k by {
            if k == last.0 {
                assert(rows[rows.len() - 1].0 == k);
            } else {
                let i = choose|i: int| 0 <= i < s.len() && s[i].0 == k;
                assert(rows[i] == s[i]);
            }
        }
    }
}

/// A key that no row holds is absent from the map.
pub(crate) proof fn lemma_keyed_absent<K, V>(rows: Seq<(K, V)>, k: K)
    requires
        keys_unique(rows),
        forall|i: int| 0 <= i < rows.len() ==> rows[i].0 != k,
    ensures
        !keyed_map(rows).contains_key(k),
{
    lemma_keyed_facts(rows);
    if keyed_map(rows).contains_key(k) {
        let i = choose|i: int| 0 <= i < rows.len() && rows[i].0 == k;
        assert(rows[i].0 != k);
    }
}

pub(crate) proof fn lemma_keyed_push<K, V>(rows: Seq<(K, V)>, x: (K, V))
    requires
        keys_unique(rows),
        forall|i: int| 0 <= i < rows.len() ==> rows[i].0 != x.0,
    ensures
        keys_unique(rows.push(x)),
        keyed_map(rows.push(x)) == keyed_map(rows).insert(x.0, x.1),
{
    assert(rows.push(x).drop_last() =~= rows);
}

pub(crate) proof fn lemma_keyed_update<K, V>(rows: Seq<(K, V)>, i: int, v: V)
    requires
        keys_unique(rows),
        0 <= i < rows.len(),
    ensures
        keys_unique(rows.update(i, (rows[i].0, v))),
        keyed_map(rows.update(i, (rows[i].0, v))) == keyed_map(rows).insert(rows[i].0, v),
    decreases rows.len(),
{
    let t = rows.update(i, (rows[i].0, v));
    if i == rows.len() - 1 {
        assert(t.drop_last() =~= rows.drop_last());
    } else {
        let s = rows.drop_last();
        assert(keys_unique(s));
        lemma_keyed_update(s, i, v);
        assert(t.drop_last() =~= s.update(i, (s[i].0, v)));
        assert(rows[i].0 != rows.last().0);
        assert(keyed_map(t) =~= keyed_map(rows).insert(rows[i].0, v));
    }
}

pub(crate) proof fn lemma_keyed_swap<K, V>(rows: Seq<(K, V)>, a: int, b: int)
    requires
        keys_unique(rows),
        0 <= a < rows.len(),
        0 <= b < rows.len(),
    ensures
        keys_unique(rows.update(a, rows[b]).update(b, rows[a])),
        keyed_map(rows.update(a, rows[b]).update(b, rows[a])) == keyed_map(rows),
{
    let t = rows.update(a, rows[b]).update(b, rows[a]);
    assert(t.len() == rows.len());
    assert forall|p: int| 0 <= p < t.len() implies t[p] == rows[if p == a { b } else if p == b { a } else { p }] by {}
    assert(keys_unique(t)) by {
        assert forall|p: int, q: int| 0 <= p < q < t.len() implies t[p].0 != t[q].0 by {
            let pp = if p == a { b } else if p == b { a } else { p };
            let qq = if q == a { b } else if q == b { a } else { q };
            assert(t[p] == rows[pp]);
            assert(t[q] == rows[qq]);
            assert(pp != qq);
            if pp < qq {
                assert(rows[pp].0 != rows[qq].0);
            } else {
                assert(rows[qq].0 != rows[pp].0);
            }
        }
    }
    lemma_keyed_facts(rows);
    lemma_keyed_facts(t);
    assert forall|k: K| #[trigger] keyed_map(t).contains_key(k) == keyed_map(rows).contains_key(k) by {
        if keyed_map(t).contains_key(k) {
            let p = choose|p: int| 0 <= p < t.len() && t[p].0 == k;
            let pp = if p == a { b } else if p == b { a } else { p };
            assert(t[p] == rows[pp]);
            assert(keyed_map(rows).contains_key(rows[pp].0));
        }
        if keyed_map(rows).contains_key(k) {
            let p = choose|p: int| 0 <= p < rows.len() && rows[p].0 == k;
            let pp = if p == a { b } else if p == b { a } else { p };
            assert(t[pp] == rows[p]);
            assert(keyed_map(t).contains_key(t[pp].0));
        }
    }
    assert forall|k: K| #[trigger] keyed_map(t).contains_key(k) implies keyed_map(t)[k] == keyed_map(rows)[k] by {
        let p = choose|p: int| 0 <= p < t.len() && t[p].0 == k;
        let pp = if p == a { b } else if p == b { a } else { p };
        assert(t[p] == rows[pp]);
        assert(keyed_map(t)[t[p].0] == t[p].1);
        assert(keyed_map(rows)[rows[pp].0] == rows[pp].1);
    }
    assert(keyed_map(t) =~= keyed_map(rows));
}

} // verus!
