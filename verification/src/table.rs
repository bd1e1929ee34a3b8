//! Tables keyed by text, as a vector of pairs with distinct keys, viewed as
//! a map.

use vstd::prelude::*;

verus! {

/// The map that a table of pairs stands for (later pairs win, which with
/// distinct keys never matters).
pub open spec fn table_map<V: View>(t: Seq<(String, V)>) -> Map<Seq<char>, V::V>
    decreases t.len(),
{
    if t.len() == 0 {
        Map::empty()
    } else {
        table_map(t.drop_last()).insert(t.last().0@, t.last().1@)
    }
}

/// No key occurs twice.
pub open spec fn keys_distinct<V>(t: Seq<(String, V)>) -> bool {
    forall|i: int, j: int| 0 <= i < j < t.len() ==> #[trigger] t[i].0@ != #[trigger] t[j].0@
}

pub proof fn lemma_table_dom<V: View>(t: Seq<(String, V)>, k: Seq<char>)
    ensures
        table_map(t).dom().contains(k) <==> exists|i: int| 0 <= i < t.len() && #[trigger] t[i].0@ == k,
    decreases t.len(),
{
    if t.len() > 0 {
        lemma_table_dom(t.drop_last(), k);
        if table_map(t).dom().contains(k) && k != t.last().0@ {
            let i = choose|i: int| 0 <= i < t.drop_last().len() && #[trigger] t.drop_last()[i].0@ == k;
            assert(t[i].0@ == k);
        }
        if exists|i: int| 0 <= i < t.len() && #[trigger] t[i].0@ == k {
            let i = choose|i: int| 0 <= i < t.len() && #[trigger] t[i].0@ == k;
            if i < t.len() - 1 {
                assert(t.drop_last()[i].0@ == k);
            }
        }
    }
}

pub proof fn lemma_table_val<V: View>(t: Seq<(String, V)>, i: int)
    requires
        keys_distinct(t),
        0 <= i < t.len(),
    ensures
        table_map(t).dom().contains(t[i].0@),
        table_map(t)[t[i].0@] == t[i].1@,
    decreases t.len(),
{
    if i < t.len() - 1 {
        let s = t.drop_last();
        assert(keys_distinct(s));
        assert(s[i] == t[i]);
        lemma_table_val(s, i);
        assert(t[i].0@ != t.last().0@);
    }
}

/// The position of key `k`, if the table has it.
pub fn table_find<V: View>(t: &Vec<(String, V)>, k: &str) -> (r: Option<usize>)
    ensures
        r matches Some(i) ==> i < t@.len() && t@[i as int].0@ == k@,
        r is None ==> !table_map(t@).dom().contains(k@),
{
    let key = k.to_owned();
    let mut i: usize = 0;
    while i < t.len()
        invariant
            i <= t.len(),
            key@ == k@,
            forall|j: int| 0 <= j < i ==> #[trigger] t@[j].0@ != k@,
        decreases t.len() - i,
    {
        if t[i].0 == key {
            return Some(i);
        }
        i += 1;
    }
    proof {
        lemma_table_dom(t@, k@);
    }
    None
}

/// Sets key `k` to `v`, adding the key if it is new.
pub fn table_set<V: View>(t: &mut Vec<(String, V)>, k: &str, v: V)
    requires
        keys_distinct(old(t)@),
    ensures
        keys_distinct(final(t)@),
        table_map(final(t)@) == table_map(old(t)@).insert(k@, v@),
{
    let ghost vv = v@;
    match table_find(t, k) {
        Some(i) => {
            let ghost old_t = t@;
            t.set(i, (k.to_owned(), v));
            proof {
                let n = t@;
                assert(n == old_t.update(i as int, n[i as int]));
                assert(keys_distinct(n)) by {
                    assert forall|a: int, b: int| 0 <= a < b < n.len() implies #[trigger] n[a].0@ != #[trigger] n[b].0@ by {
                        if a != i && b != i {
                            assert(n[a] == old_t[a] && n[b] == old_t[b]);
                        } else if a == i {
                            assert(n[b] == old_t[b]);
                            assert(old_t[a].0@ != old_t[b].0@);
                        } else {
                            assert(n[a] == old_t[a]);
                            assert(old_t[a].0@ != old_t[b].0@);
                        }
                    }
                }
                assert forall|key: Seq<char>| #[trigger] table_map(n).dom().contains(key) == table_map(old_t).insert(k@, vv).dom().contains(key) by {
                    lemma_table_dom(n, key);
                    lemma_table_dom(old_t, key);
                    if exists|j: int| 0 <= j < old_t.len() && #[trigger] old_t[j].0@ == key {
                        let j = choose|j: int| 0 <= j < old_t.len() && #[trigger] old_t[j].0@ == key;
                        if j != i {
                            assert(n[j] == old_t[j]);
                        } else {
                            assert(n[i as int].0@ == key);
                        }
                    }
                    if exists|j: int| 0 <= j < n.len() && #[trigger] n[j].0@ == key {
                        let j = choose|j: int| 0 <= j < n.len() && #[trigger] n[j].0@ == key;
                        if j != i {
                            assert(n[j] == old_t[j]);
                        }
                    }
                }
                assert forall|key: Seq<char>| #[trigger] table_map(n).dom().contains(key) implies table_map(n)[key] == table_map(old_t).insert(k@, vv)[key] by {
                    lemma_table_dom(n, key);
                    let j = choose|j: int| 0 <= j < n.len() && #[trigger] n[j].0@ == key;
                    lemma_table_val(n, j);
                    if j != i {
                        assert(n[j] == old_t[j]);
                        lemma_table_val(old_t, j);
                    }
                }
                assert(table_map(n) =~= table_map(old_t).insert(k@, vv));
            }
        },
        None => {
            let ghost old_t = t@;
            t.push((k.to_owned(), v));
            proof {
                let n = t@;
                assert(n.drop_last() =~= old_t);
                assert(keys_distinct(n)) by {
                    assert forall|a: int, b: int| 0 <= a < b < n.len() implies #[trigger] n[a].0@ != #[trigger] n[b].0@ by {
                        if b == n.len() - 1 {
                            assert(n[a] == old_t[a]);
                            lemma_table_dom(old_t, k@);
                        } else {
                            assert(n[a] == old_t[a] && n[b] == old_t[b]);
                        }
                    }
                }
            }
        },
    }
}

/// Removes key `k`, if present.
pub fn table_remove<V: View>(t: &mut Vec<(String, V)>, k: &str)
    requires
        keys_distinct(old(t)@),
    ensures
        keys_distinct(final(t)@),
        table_map(final(t)@) == table_map(old(t)@).remove(k@),
{
    match table_find(t, k) {
        Some(i) => {
            let ghost old_t = t@;
            t.remove(i);
            proof {
                let n = t@;
                assert(n == old_t.remove(i as int));
                assert forall|j: int| 0 <= j < n.len() implies #[trigger] n[j] == old_t[if j < i { j } else { j + 1 }] by {}
                assert(keys_distinct(n)) by {
                    assert forall|a: int, b: int| 0 <= a < b < n.len() implies #[trigger] n[a].0@ != #[trigger] n[b].0@ by {
                        let a2 = if a < i { a } else { a + 1 };
                        let b2 = if b < i { b } else { b + 1 };
                        assert(n[a] == old_t[a2]);
                        assert(n[b] == old_t[b2]);
                    }
                }
                assert forall|key: Seq<char>| #[trigger] table_map(n).dom().contains(key) == table_map(old_t).remove(k@).dom().contains(key) by {
                    lemma_table_dom(n, key);
                    lemma_table_dom(old_t, key);
                    if exists|j: int| 0 <= j < old_t.len() && #[trigger] old_t[j].0@ == key {
                        let j = choose|j: int| 0 <= j < old_t.len() && #[trigger] old_t[j].0@ == key;
                        if key != k@ {
                            assert(j != i);
                            let j2 = if j < i { j } else { j - 1 };
                            assert(n[j2] == old_t[j]);
                        }
                    }
                    if exists|j: int| 0 <= j < n.len() && #[trigger] n[j].0@ == key {
                        let j = choose|j: int| 0 <= j < n.len() && #[trigger] n[j].0@ == key;
                        let j2 = if j < i { j } else { j + 1 };
                        assert(n[j] == old_t[j2]);
                        assert(old_t[j2].0@ != old_t[i as int].0@);
                    }
                }
                assert forall|key: Seq<char>| #[trigger] table_map(n).dom().contains(key) implies table_map(n)[key] == table_map(old_t).remove(k@)[key] by {
                    lemma_table_dom(n, key);
                    let j = choose|j: int| 0 <= j < n.len() && #[trigger] n[j].0@ == key;
                    let j2 = if j < i { j } else { j + 1 };
                    assert(n[j] == old_t[j2]);
                    lemma_table_val(n, j);
                    lemma_table_val(old_t, j2);
                }
                assert(table_map(n) =~= table_map(old_t).remove(k@));
            }
        },
        None => {
            proof {
                assert(table_map(t@) =~= table_map(t@).remove(k@));
            }
        },
    }
}

/// The value for key `k`, if present.
pub fn table_get<'a, V: View>(t: &'a Vec<(String, V)>, k: &str) -> (r: Option<&'a V>)
    requires
        keys_distinct(t@),
    ensures
        r matches Some(v) ==> table_map(t@).dom().contains(k@) && table_map(t@)[k@] == v@,
        r is None ==> !table_map(t@).dom().contains(k@),
{
    match table_find(t, k) {
        Some(i) => {
            proof {
                lemma_table_val(t@, i as int);
            }
            Some(&t[i].1)
        },
        None => None,
    }
}

/// A copy of a table of texts.
pub fn table_copy_text(t: &Vec<(String, String)>) -> (r: Vec<(String, String)>)
    requires
        keys_distinct(t@),
    ensures
        keys_distinct(r@),
        table_map(r@) == table_map(t@),
{
    let mut out: Vec<(String, String)> = Vec::new();
    let mut i: usize = 0;
    while i < t.len()
        invariant
            i <= t.len(),
            keys_distinct(t@),
            out@.len() == i,
            forall|j: int| 0 <= j < i ==> #[trigger] out@[j].0@ == t@[j].0@,
            keys_distinct(out@),
            table_map(out@) == table_map(t@.take(i as int)),
        decreases t.len() - i,
    {
        let ghost before = out@;
        let e = (t[i].0.clone(), t[i].1.clone());
        out.push(e);
        proof {
            assert(out@.drop_last() =~= before);
            assert(t@.take(i as int + 1).drop_last() =~= t@.take(i as int));
            assert(t@.take(i as int + 1).last() == t@[i as int]);
            assert(keys_distinct(out@)) by {
                assert forall|a: int, b: int| 0 <= a < b < out@.len() implies #[trigger] out@[a].0@ != #[trigger] out@[b].0@ by {
                    assert(out@[a].0@ == t@[a].0@);
                    assert(out@[b].0@ == t@[b].0@);
                }
            }
        }
        i += 1;
    }
    proof {
        assert(t@.take(t.len() as int) =~= t@);
    }
    out
}

/// A copy of a table of flags.
pub fn table_copy_flags(t: &Vec<(String, bool)>) -> (r: Vec<(String, bool)>)
    requires
        keys_distinct(t@),
    ensures
        keys_distinct(r@),
        table_map(r@) == table_map(t@),
{
    let mut out: Vec<(String, bool)> = Vec::new();
    let mut i: usize = 0;
    while i < t.len()
        invariant
            i <= t.len(),
            keys_distinct(t@),
            out@.len() == i,
            forall|j: int| 0 <= j < i ==> #[trigger] out@[j].0@ == t@[j].0@,
            keys_distinct(out@),
            table_map(out@) == table_map(t@.take(i as int)),
        decreases t.len() - i,
    {
        let ghost before = out@;
        let e = (t[i].0.clone(), t[i].1);
        out.push(e);
        proof {
            assert(out@.drop_last() =~= before);
            assert(t@.take(i as int + 1).drop_last() =~= t@.take(i as int));
            assert(t@.take(i as int + 1).last() == t@[i as int]);
            assert(keys_distinct(out@)) by {
                assert forall|a: int, b: int| 0 <= a < b < out@.len() implies #[trigger] out@[a].0@ != #[trigger] out@[b].0@ by {
                    assert(out@[a].0@ == t@[a].0@);
                    assert(out@[b].0@ == t@[b].0@);
                }
            }
        }
        i += 1;
    }
    proof {
        assert(t@.take(t.len() as int) =~= t@);
    }
    out
}

} // verus!
