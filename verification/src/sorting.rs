//! Sorted, duplicate-free lists of strings (the order of a `BTreeSet`).
use vstd::prelude::*;
use crate::metadata::strs_view;
use crate::text::chars_of;
use crate::version::{lemma_text_order_antisym, lemma_text_order_trans, lemma_text_order_zero, text_order, text_order_exec};

verus! {

/// Strictly ascending in text order (so without repeats).
pub open spec fn strictly_sorted(v: Seq<Seq<char>>) -> bool {
    forall|i: int, j: int| 0 <= i < j < v.len() ==> text_order(v[i], v[j]) < 0
}

/// Adds `x` to a strictly sorted list, at its place, unless present.
pub fn insert_unique(out: &mut Vec<String>, x: String)
    requires
        strictly_sorted(strs_view(old(out)@)),
    ensures
        strictly_sorted(strs_view(final(out)@)),
        forall|y: Seq<char>| #[trigger] strs_view(final(out)@).contains(y) <==> (strs_view(
            old(out)@,
        ).contains(y) || y == x@),
{
    let xs = chars_of(x.as_str());
    let ghost prev = strs_view(out@);
    let mut pos: usize = 0;
    while pos < out.len() && text_order_exec(&chars_of(out[pos].as_str()), &xs) < 0
        invariant
            pos <= out@.len(),
            xs@ == x@,
            prev == strs_view(out@),
            forall|m: int| 0 <= m < pos ==> text_order(prev[m], x@) < 0,
        decreases out@.len() - pos,
    {
        pos = pos + 1;
    }
    if pos < out.len() && out[pos] == x {
        proof {
            assert forall|y: Seq<char>| #[trigger] strs_view(out@).contains(y) <==> (prev.contains(y)
                || y == x@) by {
                if y == x@ {
                    assert(prev[pos as int] == y);
                }
            }
        }
        return;
    }
    proof {
        if pos < prev.len() {
            lemma_text_order_zero(prev[pos as int], x@);
            lemma_text_order_antisym(prev[pos as int], x@);
            assert(prev[pos as int] == out@[pos as int]@);
        }
    }
    out.insert(pos, x);
    proof {
        let o = strs_view(out@);
        assert(o =~= prev.insert(pos as int, x@));
        assert forall|a: int, b: int| 0 <= a < b < o.len() implies text_order(o[a], o[b]) < 0 by {
            if b < pos {
                assert(o[a] == prev[a] && o[b] == prev[b]);
            } else if b == pos {
                assert(o[a] == prev[a]);
            } else if a == pos {
                assert(o[b] == prev[b - 1]);
                if b - 1 > pos {
                    lemma_text_order_trans(x@, prev[pos as int], prev[b - 1]);
                }
            } else if a < pos {
                assert(o[a] == prev[a] && o[b] == prev[b - 1]);
            } else {
                assert(o[a] == prev[a - 1] && o[b] == prev[b - 1]);
            }
        }
        assert forall|y: Seq<char>| #[trigger] o.contains(y) <==> (prev.contains(y) || y == x@) by {
            if o.contains(y) {
                let m = choose|m: int| 0 <= m < o.len() && o[m] == y;
                if m < pos {
                    assert(prev[m] == y);
                } else if m > pos {
                    assert(prev[m - 1] == y);
                }
            }
            if prev.contains(y) {
                let m = choose|m: int| 0 <= m < prev.len() && prev[m] == y;
                if m < pos {
                    assert(o[m] == y);
                } else {
                    assert(o[m + 1] == y);
                }
            }
            if y == x@ {
                assert(o[pos as int] == y);
            }
        }
    }
}

/// The distinct strings of `v`, ascending (`BTreeSet` order).
pub fn sorted_unique(v: &Vec<String>) -> (r: Vec<String>)
    ensures
        strictly_sorted(strs_view(r@)),
        forall|y: Seq<char>| #[trigger] strs_view(r@).contains(y) <==> strs_view(v@).contains(y),
{
    let mut out: Vec<String> = Vec::new();
    assert(strs_view(out@) =~= Seq::<Seq<char>>::empty());
    let mut i: usize = 0;
    while i < v.len()
        invariant
            i <= v@.len(),
            strictly_sorted(strs_view(out@)),
            forall|y: Seq<char>| #[trigger] strs_view(out@).contains(y) <==> strs_view(v@).take(
                i as int,
            ).contains(y),
        decreases v@.len() - i,
    {
        let ghost before = strs_view(out@);
        insert_unique(&mut out, v[i].clone());
        proof {
            let t = strs_view(v@).take(i as int + 1);
            assert(t =~= strs_view(v@).take(i as int).push(v@[i as int]@));
            assert forall|y: Seq<char>| #[trigger] strs_view(out@).contains(y) <==> t.contains(y) by {
                if t.contains(y) && y != v@[i as int]@ {
                    let m = choose|m: int| 0 <= m < t.len() && t[m] == y;
                    assert(strs_view(v@).take(i as int)[m] == y);
                }
                if strs_view(v@).take(i as int).contains(y) {
                    let m = choose|m: int| 0 <= m < i && strs_view(v@).take(i as int)[m] == y;
                    assert(t[m] == y);
                }
                if y == v@[i as int]@ {
                    assert(t[i as int] == y);
                }
            }
        }
        i = i + 1;
    }
    assert(strs_view(v@).take(v@.len() as int) =~= strs_view(v@));
    out
}

/// Membership in a sequence with one more element.
pub proof fn lemma_push_contains<A>(s: Seq<A>, x: A, y: A)
    ensures
        s.push(x).contains(y) <==> (s.contains(y) || x == y),
{
    if s.push(x).contains(y) && x != y {
        let m = choose|m: int| 0 <= m < s.push(x).len() && s.push(x)[m] == y;
        assert(s[m] == y);
    }
    if s.contains(y) {
        let m = choose|m: int| 0 <= m < s.len() && s[m] == y;
        assert(s.push(x)[m] == y);
    }
    if x == y {
        assert(s.push(x)[s.len() as int] == y);
    }
}

} // verus!
