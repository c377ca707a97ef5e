//! File-system paths as text, joined the way `Path::join` does.
use vstd::prelude::*;
use crate::text::push_str;

verus! {

/// `base.join(comp)`: an absolute `comp` replaces `base`; otherwise a `/`
/// separates them unless `base` is empty or already ends with one.
pub open spec fn join_path(base: Seq<char>, comp: Seq<char>) -> Seq<char> {
    if comp.len() > 0 && comp[0] == '/' {
        comp
    } else if base.len() == 0 || base.last() == '/' {
        base + comp
    } else {
        base + seq!['/'] + comp
    }
}

/// Joins `comp` onto `base` (see [`join_path`]).
pub fn path_join(base: &str, comp: &str) -> (r: String)
    ensures
        r@ == join_path(base@, comp@),
{
    let b = crate::text::chars_of(base);
    let c = crate::text::chars_of(comp);
    if c.len() > 0 && c[0] == '/' {
        return comp.to_owned();
    }
    let mut s = base.to_owned();
    if !(b.len() == 0 || b[b.len() - 1] == '/') {
        push_str(&mut s, "/");
        proof {
            reveal_strlit("/");
            assert("/"@ =~= seq!['/']);
        }
    }
    push_str(&mut s, comp);
    s
}

/// The last component of a path (`Path::file_name` on a path without a
/// trailing `..`): the text after the last `/`, none when it is empty.
pub open spec fn file_name(p: Seq<char>) -> Option<Seq<char>>
    decreases p.len(),
{
    if p.len() == 0 {
        None
    } else if p.last() == '/' {
        file_name(p.drop_last())
    } else {
        Some(last_segment(p))
    }
}

/// The text after the last `/` of `p`.
pub open spec fn last_segment(p: Seq<char>) -> Seq<char>
    decreases p.len(),
{
    if p.len() == 0 {
        p
    } else if p.last() == '/' {
        Seq::empty()
    } else {
        last_segment(p.drop_last()).push(p.last())
    }
}

/// The last component of `p` (see [`file_name`]).
pub fn file_name_of(p: &[char]) -> (r: Option<Vec<char>>)
    ensures
        match r {
            Some(v) => file_name(p@) == Some(v@),
            None => file_name(p@) is None,
        },
{
    // drop trailing slashes
    let mut end: usize = p.len();
    assert(p@.take(p@.len() as int) =~= p@);
    while end > 0 && p[end - 1] == '/'
        invariant
            end <= p@.len(),
            file_name(p@) == file_name(p@.take(end as int)),
        decreases end,
    {
        proof {
            assert(p@.take(end as int).drop_last() =~= p@.take(end as int - 1));
        }
        end = end - 1;
    }
    if end == 0 {
        return None;
    }
    let mut start: usize = end;
    while start > 0 && p[start - 1] != '/'
        invariant
            start <= end <= p@.len(),
            end > 0,
            p@[end - 1] != '/',
            last_segment(p@.take(end as int)) == last_segment(p@.take(start as int)) + p@.subrange(
                start as int,
                end as int,
            ),
        decreases start,
    {
        proof {
            let t = p@.take(start as int);
            assert(t.drop_last() =~= p@.take(start as int - 1));
            assert(p@.subrange(start as int - 1, end as int) =~= seq![p@[start as int - 1]]
                + p@.subrange(start as int, end as int));
            assert(last_segment(t) == last_segment(t.drop_last()).push(t.last()));
            assert(last_segment(t.drop_last()).push(t.last()) + p@.subrange(start as int, end as int)
                =~= last_segment(t.drop_last()) + p@.subrange(start as int - 1, end as int));
        }
        start = start - 1;
    }
    proof {
        let t = p@.take(start as int);
        if start > 0 {
            assert(t.last() == '/');
            assert(last_segment(t) =~= Seq::<char>::empty());
        } else {
            assert(last_segment(t) =~= Seq::<char>::empty());
        }
        assert(p@.take(end as int).last() == p@[end - 1]);
        assert(Seq::<char>::empty() + p@.subrange(start as int, end as int) =~= p@.subrange(start as int, end as int));
    }
    Some(crate::text::slice_vec(p, start, end))
}

} // verus!
