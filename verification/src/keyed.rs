//! Maps keyed by strings, held as lists sorted by key without repeats (the
//! order and contents of a `BTreeMap<String, V>`).
use vstd::prelude::*;
use crate::sorting::strictly_sorted;
use crate::text::chars_of;
use crate::version::{lemma_text_order_antisym, lemma_text_order_trans, lemma_text_order_zero, text_order, text_order_exec};

verus! {

pub open spec fn keys_of<V>(v: Seq<(String, V)>) -> Seq<Seq<char>> {
    v.map_values(|e: (String, V)| e.0@)
}

/// Keys strictly ascending.
pub open spec fn keyed_wf<V>(v: Seq<(String, V)>) -> bool {
    strictly_sorted(keys_of(v))
}

/// The map a list stands for (a later entry for a key wins).
pub open spec fn as_map<V>(v: Seq<(String, V)>) -> Map<Seq<char>, V>
    decreases v.len(),
{
    if v.len() == 0 {
        Map::empty()
    } else {
        as_map(v.drop_last()).insert(v.last().0@, v.last().1)
    }
}

pub proof fn lemma_as_map_dom<V>(v: Seq<(String, V)>, k: Seq<char>)
    ensures
        as_map(v).dom().contains(k) <==> keys_of(v).contains(k),
    decreases v.len(),
{
    if v.len() > 0 {
        lemma_as_map_dom(v.drop_last(), k);
        assert(keys_of(v) =~= keys_of(v.drop_last()).push(v.last().0@));
        crate::sorting::lemma_push_contains(keys_of(v.drop_last()), v.last().0@, k);
    }
}

/// In a list without repeated keys, the entry at `i` gives its key's value.
pub proof fn lemma_as_map_at<V>(v: Seq<(String, V)>, i: int)
    requires
        keyed_wf(v),
        0 <= i < v.len(),
    ensures
        as_map(v).dom().contains(v[i].0@),
        as_map(v)[v[i].0@] == v[i].1,
    decreases v.len(),
{
    if i == v.len() - 1 {
    } else {
        let w = v.drop_last();
        assert(keys_of(w) =~= keys_of(v).drop_last());
        lemma_as_map_at(w, i);
        assert(keys_of(v)[i] == v[i].0@);
        assert(keys_of(v)[v.len() - 1] == v.last().0@);
        lemma_text_order_zero(v[i].0@, v.last().0@);
    }
}

/// Index of the entry for `k`, if any.
pub fn find_key<V>(v: &Vec<(String, V)>, k: &str) -> (r: Option<usize>)
    ensures
        match r {
            Some(i) => i < v@.len() && v@[i as int].0@ == k@,
            None => forall|j: int| 0 <= j < v@.len() ==> v@[j].0@ != k@,
        },
{
    let kv = chars_of(k);
    let mut i: usize = 0;
    while i < v.len()
        invariant
            i <= v@.len(),
            kv@ == k@,
            forall|j: int| 0 <= j < i ==> v@[j].0@ != k@,
        decreases v@.len() - i,
    {
        if crate::text::chars_eq(&chars_of(v[i].0.as_str()), &kv) {
            return Some(i);
        }
        i = i + 1;
    }
    None
}

pub proof fn lemma_not_in_keys<V>(v: Seq<(String, V)>, k: Seq<char>)
    requires
        forall|j: int| 0 <= j < v.len() ==> v[j].0@ != k,
    ensures
        !as_map(v).dom().contains(k),
{
    lemma_as_map_dom(v, k);
    if keys_of(v).contains(k) {
        let j = choose|j: int| 0 <= j < keys_of(v).len() && keys_of(v)[j] == k;
        assert(v[j].0@ == k);
    }
}

/// The value for `k` (a `BTreeMap::get`).
pub fn get_key<'a, V>(v: &'a Vec<(String, V)>, k: &str) -> (r: Option<&'a V>)
    requires
        keyed_wf(v@),
    ensures
        match r {
            Some(x) => as_map(v@).dom().contains(k@) && as_map(v@)[k@] == *x,
            None => !as_map(v@).dom().contains(k@),
        },
{
    match find_key(v, k) {
        Some(i) => {
            proof {
                lemma_as_map_at(v@, i as int);
            }
            Some(&v[i].1)
        },
        None => {
            proof {
                lemma_not_in_keys(v@, k@);
            }
            None
        },
    }
}

pub proof fn lemma_as_map_insert_at<V>(v: Seq<(String, V)>, pos: int, e: (String, V))
    requires
        keyed_wf(v),
        keyed_wf(v.insert(pos, e)),
        0 <= pos <= v.len(),
    ensures
        as_map(v.insert(pos, e)) == as_map(v).insert(e.0@, e.1),
{
    let w = v.insert(pos, e);
    assert forall|k: Seq<char>| as_map(w).dom().contains(k) <==> as_map(v).insert(e.0@, e.1).dom().contains(k) by {
        lemma_as_map_dom(w, k);
        lemma_as_map_dom(v, k);
        if keys_of(w).contains(k) {
            let m = choose|m: int| 0 <= m < keys_of(w).len() && keys_of(w)[m] == k;
            if m < pos {
                assert(keys_of(v)[m] == k);
            } else if m > pos {
                assert(keys_of(v)[m - 1] == k);
            }
        }
        if keys_of(v).contains(k) {
            let m = choose|m: int| 0 <= m < keys_of(v).len() && keys_of(v)[m] == k;
            if m < pos {
                assert(keys_of(w)[m] == k);
            } else {
                assert(keys_of(w)[m + 1] == k);
            }
        }
        if k == e.0@ {
            assert(keys_of(w)[pos] == k);
        }
    }
    assert forall|k: Seq<char>| as_map(w).dom().contains(k) implies as_map(w)[k] == as_map(v).insert(e.0@, e.1)[k] by {
        lemma_as_map_dom(w, k);
        let m = choose|m: int| 0 <= m < keys_of(w).len() && keys_of(w)[m] == k;
        lemma_as_map_at(w, m);
        if m < pos {
            assert(w[m] == v[m]);
            lemma_as_map_at(v, m);
            assert(keys_of(w)[pos] == e.0@);
            lemma_text_order_zero(k, e.0@);
        } else if m > pos {
            assert(w[m] == v[m - 1]);
            lemma_as_map_at(v, m - 1);
            assert(keys_of(w)[pos] == e.0@);
            lemma_text_order_zero(e.0@, k);
        }
    }
    assert(as_map(w) =~= as_map(v).insert(e.0@, e.1));
}

pub proof fn lemma_as_map_update<V>(v: Seq<(String, V)>, pos: int, e: (String, V))
    requires
        keyed_wf(v),
        0 <= pos < v.len(),
        v[pos].0@ == e.0@,
    ensures
        keyed_wf(v.update(pos, e)),
        as_map(v.update(pos, e)) == as_map(v).insert(e.0@, e.1),
{
    let w = v.update(pos, e);
    assert(keys_of(w) =~= keys_of(v));
    assert forall|k: Seq<char>| as_map(w).dom().contains(k) <==> as_map(v).insert(e.0@, e.1).dom().contains(k) by {
        lemma_as_map_dom(w, k);
        lemma_as_map_dom(v, k);
        assert(keys_of(v)[pos] == e.0@);
    }
    assert forall|k: Seq<char>| as_map(w).dom().contains(k) implies as_map(w)[k] == as_map(v).insert(e.0@, e.1)[k] by {
        lemma_as_map_dom(w, k);
        let m = choose|m: int| 0 <= m < keys_of(w).len() && keys_of(w)[m] == k;
        lemma_as_map_at(w, m);
        if m != pos {
            lemma_as_map_at(v, m);
            assert(keys_of(w)[pos] == e.0@);
            lemma_text_order_zero(k, e.0@);
            if k == e.0@ {
                assert(keys_of(w)[m] == keys_of(w)[pos]);
                if m < pos {
                } else {
                }
            }
        }
    }
    assert(as_map(w) =~= as_map(v).insert(e.0@, e.1));
}

/// Sets the value for `k` (a `BTreeMap::insert`), keeping the order.
pub fn upsert_key<V>(v: &mut Vec<(String, V)>, k: String, val: V)
    requires
        keyed_wf(old(v)@),
    ensures
        keyed_wf(final(v)@),
        as_map(final(v)@) == as_map(old(v)@).insert(k@, val),
{
    let kv = chars_of(k.as_str());
    let ghost prev = v@;
    let mut pos: usize = 0;
    while pos < v.len() && text_order_exec(&chars_of(v[pos].0.as_str()), &kv) < 0
        invariant
            pos <= v@.len(),
            kv@ == k@,
            prev == v@,
            forall|m: int| 0 <= m < pos ==> text_order(prev[m].0@, k@) < 0,
        decreases v@.len() - pos,
    {
        pos = pos + 1;
    }
    if pos < v.len() && crate::text::chars_eq(&chars_of(v[pos].0.as_str()), &kv) {
        proof {
            lemma_as_map_update(prev, pos as int, (k, val));
        }
        v.set(pos, (k, val));
        return;
    }
    proof {
        if pos < prev.len() {
            lemma_text_order_zero(prev[pos as int].0@, k@);
            lemma_text_order_antisym(prev[pos as int].0@, k@);
        }
    }
    let ghost e = (k, val);
    v.insert(pos, (k, val));
    proof {
        let o = keys_of(v@);
        let pk = keys_of(prev);
        assert(v@ == prev.insert(pos as int, e));
        assert(o =~= pk.insert(pos as int, k@));
        assert forall|a: int, b: int| 0 <= a < b < o.len() implies text_order(o[a], o[b]) < 0 by {
            if b < pos {
                assert(o[a] == pk[a] && o[b] == pk[b]);
            } else if b == pos {
                assert(o[a] == pk[a]);
                assert(pk[a] == prev[a].0@);
            } else if a == pos {
                assert(o[b] == pk[b - 1]);
                if b - 1 > pos {
                    lemma_text_order_trans(k@, pk[pos as int], pk[b - 1]);
                }
            } else if a < pos {
                assert(o[a] == pk[a] && o[b] == pk[b - 1]);
            } else {
                assert(o[a] == pk[a - 1] && o[b] == pk[b - 1]);
            }
        }
        lemma_as_map_insert_at(prev, pos as int, e);
    }
}

/// Drops the entry for `k` (a `BTreeMap::remove`); whether there was one.
pub fn remove_key<V>(v: &mut Vec<(String, V)>, k: &str) -> (r: bool)
    requires
        keyed_wf(old(v)@),
    ensures
        keyed_wf(final(v)@),
        as_map(final(v)@) == as_map(old(v)@).remove(k@),
        r == as_map(old(v)@).dom().contains(k@),
{
    match find_key(v, k) {
        None => {
            proof {
                lemma_not_in_keys(v@, k@);
                assert(as_map(v@) =~= as_map(v@).remove(k@));
            }
            false
        },
        Some(i) => {
            let ghost prev = v@;
            proof {
                lemma_as_map_at(prev, i as int);
            }
            v.remove(i);
            proof {
                let w = v@;
                assert(w =~= prev.remove(i as int));
                assert(prev =~= w.insert(i as int, prev[i as int]));
                assert(keys_of(w) =~= keys_of(prev).remove(i as int));
                assert forall|a: int, b: int| 0 <= a < b < keys_of(w).len() implies text_order(keys_of(w)[a], keys_of(w)[b]) < 0 by {
                    if b < i {
                        assert(keys_of(w)[a] == keys_of(prev)[a] && keys_of(w)[b] == keys_of(prev)[b]);
                    } else if a < i {
                        assert(keys_of(w)[a] == keys_of(prev)[a] && keys_of(w)[b] == keys_of(prev)[b + 1]);
                    } else {
                        assert(keys_of(w)[a] == keys_of(prev)[a + 1] && keys_of(w)[b] == keys_of(prev)[b + 1]);
                    }
                }
                lemma_as_map_insert_at(w, i as int, prev[i as int]);
                assert forall|j: int| 0 <= j < w.len() implies w[j].0@ != k@ by {
                    let jj = if j < i { j } else { j + 1 };
                    assert(w[j] == prev[jj]);
                    assert(keys_of(prev)[jj] == prev[jj].0@);
                    assert(keys_of(prev)[i as int] == k@);
                    lemma_text_order_zero(prev[jj].0@, k@);
                }
                lemma_not_in_keys(w, k@);
                assert(as_map(w) =~= as_map(prev).remove(k@));
            }
            true
        },
    }
}

} // verus!
