//! Name-keyed tables kept as vectors of entries with distinct names, and the
//! maps they stand for.

use vstd::prelude::*;

verus! {

/// The map that a list of named entries stands for.
pub open spec fn table<V>(s: Seq<(Seq<char>, V)>) -> Map<Seq<char>, V>
    decreases s.len(),
{
    if s.len() == 0 {
        Map::empty()
    } else {
        table(s.drop_last()).insert(s.last().0, s.last().1)
    }
}

/// No name occurs twice.
pub open spec fn unique_keys<V>(s: Seq<(Seq<char>, V)>) -> bool {
    forall|i: int, j: int| 0 <= i < j < s.len() ==> s[i].0 != s[j].0
}

pub proof fn lemma_table_absent<V>(s: Seq<(Seq<char>, V)>, k: Seq<char>)
    requires
        forall|j: int| 0 <= j < s.len() ==> s[j].0 != k,
    ensures
        !table(s).contains_key(k),
    decreases s.len(),
{
    if s.len() > 0 {
        let t = s.drop_last();
        assert forall|j: int| 0 <= j < t.len() implies t[j].0 != k by {
            assert(t[j] == s[j]);
        }
        lemma_table_absent(t, k);
        assert(s.last().0 != k);
    }
}

pub proof fn lemma_table_get<V>(s: Seq<(Seq<char>, V)>, j: int)
    requires
        unique_keys(s),
        0 <= j < s.len(),
    ensures
        table(s).contains_key(s[j].0),
        table(s)[s[j].0] == s[j].1,
    decreases s.len(),
{
    let t = s.drop_last();
    if j < s.len() - 1 {
        assert(unique_keys(t)) by {
            assert forall|a: int, b: int| 0 <= a < b < t.len() implies t[a].0 != t[b].0 by {
                assert(t[a] == s[a] && t[b] == s[b]);
            }
        }
        assert(t[j] == s[j]);
        lemma_table_get(t, j);
        assert(s[j].0 != s.last().0);
    }
}

pub proof fn lemma_table_update<V>(s: Seq<(Seq<char>, V)>, j: int, v: V)
    requires
        unique_keys(s),
        0 <= j < s.len(),
    ensures
        unique_keys(s.update(j, (s[j].0, v))),
        table(s.update(j, (s[j].0, v))) == table(s).insert(s[j].0, v),
    decreases s.len(),
{
    let u = s.update(j, (s[j].0, v));
    assert(unique_keys(u)) by {
        assert forall|a: int, b: int| 0 <= a < b < u.len() implies u[a].0 != u[b].0 by {
            assert(u[a].0 == s[a].0 && u[b].0 == s[b].0);
        }
    }
    let t = s.drop_last();
    if j == s.len() - 1 {
        assert(u.drop_last() =~= t);
        assert(forall|a: int| 0 <= a < t.len() ==> t[a].0 != s[j].0 && t[a] == s[a]);
        lemma_table_absent(t, s[j].0);
        assert(table(u) =~= table(s).insert(s[j].0, v));
    } else {
        assert(unique_keys(t)) by {
            assert forall|a: int, b: int| 0 <= a < b < t.len() implies t[a].0 != t[b].0 by {
                assert(t[a] == s[a] && t[b] == s[b]);
            }
        }
        assert(t[j] == s[j]);
        lemma_table_update(t, j, v);
        assert(u.drop_last() =~= t.update(j, (t[j].0, v)));
        assert(s[j].0 != s.last().0);
        assert(table(u) =~= table(s).insert(s[j].0, v));
    }
}

pub proof fn lemma_push_unique<V>(s: Seq<(Seq<char>, V)>, k: Seq<char>, v: V)
    requires
        unique_keys(s),
        forall|j: int| 0 <= j < s.len() ==> s[j].0 != k,
    ensures
        unique_keys(s.push((k, v))),
        table(s.push((k, v))) == table(s).insert(k, v),
{
    assert(s.push((k, v)).drop_last() =~= s);
}

pub proof fn lemma_table_contains<V>(s: Seq<(Seq<char>, V)>, k: Seq<char>)
    requires
        table(s).contains_key(k),
    ensures
        exists|j: int| 0 <= j < s.len() && s[j].0 == k,
    decreases s.len(),
{
    if s.len() > 0 && s.last().0 != k {
        let t = s.drop_last();
        lemma_table_contains(t, k);
        let j = choose|j: int| 0 <= j < t.len() && t[j].0 == k;
        assert(s[j] == t[j]);
    }
}

pub proof fn lemma_table_insert_at<V>(s: Seq<(Seq<char>, V)>, p: int, k: Seq<char>, v: V)
    requires
        0 <= p <= s.len(),
        unique_keys(s.insert(p, (k, v))),
    ensures
        table(s.insert(p, (k, v))) == table(s).insert(k, v),
{
    let t = s.insert(p, (k, v));
    assert(unique_keys(s)) by {
        assert forall|a: int, b: int| 0 <= a < b < s.len() implies s[a].0 != s[b].0 by {
            if b < p {
                assert(t[a] == s[a] && t[b] == s[b]);
            } else if a < p {
                assert(t[a] == s[a] && t[b + 1] == s[b]);
            } else {
                assert(t[a + 1] == s[a] && t[b + 1] == s[b]);
            }
        }
    }
    lemma_table_get(t, p);
    assert(t[p] == (k, v));
    let goal = table(s).insert(k, v);
    assert forall|q: Seq<char>| #[trigger] table(t).contains_key(q) == goal.contains_key(q) && (
    table(t).contains_key(q) ==> table(t)[q] == goal[q]) by {
        if q != k {
            if table(s).contains_key(q) {
                lemma_table_contains(s, q);
                let j = choose|j: int| 0 <= j < s.len() && s[j].0 == q;
                lemma_table_get(s, j);
                if j < p {
                    assert(t[j] == s[j]);
                    lemma_table_get(t, j);
                } else {
                    assert(t[j + 1] == s[j]);
                    lemma_table_get(t, j + 1);
                }
            }
            if table(t).contains_key(q) {
                lemma_table_contains(t, q);
                let j = choose|j: int| 0 <= j < t.len() && t[j].0 == q;
                if j < p {
                    assert(t[j] == s[j]);
                    lemma_table_get(s, j);
                } else {
                    assert(j != p);
                    assert(t[j] == s[j - 1]);
                    lemma_table_get(s, j - 1);
                }
            }
        }
    }
    assert(table(t) =~= goal);
}

/// The position of the entry named `key`, if there is one.
pub fn find_key<V>(entries: &Vec<(String, V)>, key: &str) -> (r: Option<usize>)
    ensures
        match r {
            Some(j) => j < entries@.len() && entries@[j as int].0@ == key@,
            None => forall|j: int| 0 <= j < entries@.len() ==> entries@[j].0@ != key@,
        },
{
    let k = key.to_owned();
    let mut i: usize = 0;
    while i < entries.len()
        invariant
            k@ == key@,
            i <= entries@.len(),
            forall|j: int| 0 <= j < i ==> entries@[j].0@ != key@,
        decreases entries@.len() - i,
    {
        if entries[i].0 == k {
            return Some(i);
        }
        i = i + 1;
    }
    None
}

} // verus!
