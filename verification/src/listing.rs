//! Listing the packages of a repository clone from `git ls-tree` output,
//! without a checkout: the layout (`srcpkgs/`, `pkgs/` or flat), the
//! package directories of each layout, and one extra level for
//! repositories that group packages in categories.
use vstd::prelude::*;
use crate::metadata::strs_view;
use crate::text::{chars_of, contains, has_prefix, lines, string_from};
use crate::version::{lemma_text_order_antisym, lemma_text_order_trans, lemma_text_order_zero, text_order, text_order_exec};

verus! {

/// Ascending in text order (repeats allowed).
pub open spec fn sorted_text(v: Seq<Seq<char>>) -> bool {
    forall|i: int, j: int| 0 <= i < j < v.len() ==> text_order(v[i], v[j]) <= 0
}

/// The strings of `v`, sorted (`slice::sort`: the same strings, repeats
/// kept, ascending).
pub fn sort_strings(v: &Vec<String>) -> (r: Vec<String>)
    ensures
        sorted_text(strs_view(r@)),
        strs_view(r@).to_multiset() == strs_view(v@).to_multiset(),
{
    broadcast use vstd::seq_lib::group_to_multiset_ensures;
    let mut out: Vec<String> = Vec::new();
    assert(strs_view(out@) =~= Seq::<Seq<char>>::empty());
    assert(strs_view(v@).take(0) =~= Seq::<Seq<char>>::empty());
    let mut i: usize = 0;
    while i < v.len()
        invariant
            i <= v@.len(),
            sorted_text(strs_view(out@)),
            strs_view(out@).to_multiset() == strs_view(v@).take(i as int).to_multiset(),
        decreases v@.len() - i,
    {
        let x = v[i].clone();
        let xs = chars_of(x.as_str());
        let ghost o = strs_view(out@);
        let mut pos: usize = 0;
        while pos < out.len() && text_order_exec(&chars_of(out[pos].as_str()), &xs) <= 0
            invariant
                pos <= out@.len(),
                xs@ == x@,
                o == strs_view(out@),
                forall|m: int| 0 <= m < pos ==> text_order(o[m], x@) <= 0,
            decreases out@.len() - pos,
        {
            pos = pos + 1;
        }
        out.insert(pos, x);
        proof {
            let n = strs_view(out@);
            assert(n =~= o.insert(pos as int, x@));
            vstd::seq_lib::to_multiset_insert(o, pos as int, x@);
            assert(strs_view(v@).take(i as int + 1) =~= strs_view(v@).take(i as int).push(x@));
            vstd::seq_lib::to_multiset_build(strs_view(v@).take(i as int), x@);
            assert forall|a: int, b: int| 0 <= a < b < n.len() implies text_order(n[a], n[b]) <= 0 by {
                if b == pos {
                    assert(n[a] == o[a]);
                } else if a == pos {
                    // x comes before everything it was inserted in front of.
                    assert(n[b] == o[b - 1]);
                    assert(text_order(o[pos as int], x@) > 0);
                    lemma_text_order_antisym(o[pos as int], x@);
                    lemma_text_order_zero(o[pos as int], x@);
                    if b - 1 > pos {
                        lemma_le_chain(x@, o[pos as int], o[b - 1]);
                    }
                } else {
                    let a0 = if a < pos { a } else { a - 1 };
                    let b0 = if b < pos { b } else { b - 1 };
                    assert(n[a] == o[a0]);
                    assert(n[b] == o[b0]);
                }
            }
        }
        i = i + 1;
    }
    assert(strs_view(v@).take(v@.len() as int) =~= strs_view(v@));
    out
}

proof fn lemma_le_chain(a: Seq<char>, b: Seq<char>, c: Seq<char>)
    requires
        text_order(a, b) < 0,
        text_order(b, c) <= 0,
    ensures
        text_order(a, c) <= 0,
{
    lemma_text_order_zero(b, c);
    if text_order(b, c) < 0 {
        lemma_text_order_trans(a, b, c);
    }
}

/// The layout of a clone from the top-level names: `srcpkgs`, its alias
/// `pkgs`, or flat (empty).
pub open spec fn layout_prefix_of(names: Seq<Seq<char>>) -> Seq<char> {
    if names.contains("srcpkgs"@) {
        "srcpkgs"@
    } else if names.contains("pkgs"@) {
        "pkgs"@
    } else {
        Seq::empty()
    }
}

fn has_line(ls: &Vec<Vec<char>>, name: &str) -> (r: bool)
    ensures
        r == crate::text::views(ls@).contains(name@),
{
    let n = chars_of(name);
    let mut i: usize = 0;
    while i < ls.len()
        invariant
            i <= ls@.len(),
            n@ == name@,
            forall|j: int| 0 <= j < i ==> ls@[j]@ != name@,
        decreases ls@.len() - i,
    {
        if crate::text::chars_eq(ls[i].as_slice(), n.as_slice()) {
            assert(crate::text::views(ls@)[i as int] == name@);
            return true;
        }
        i = i + 1;
    }
    false
}

/// The layout prefix of a clone from `git ls-tree --name-only HEAD`.
pub fn layout_prefix(output: &str) -> (r: String)
    ensures
        r@ == layout_prefix_of(lines(output@)),
{
    let ls = crate::text::lines_of(chars_of(output).as_slice());
    if has_line(&ls, "srcpkgs") {
        "srcpkgs".to_string()
    } else if has_line(&ls, "pkgs") {
        "pkgs".to_string()
    } else {
        String::new()
    }
}

/// A package directory name: not empty, not hidden.
pub open spec fn listed_name(n: Seq<char>) -> bool {
    n.len() > 0 && n[0] != '.'
}

/// The names under `sub` (`<prefix>/`) that `ls-tree <prefix>/` lists.
pub open spec fn under_prefix(ls: Seq<Seq<char>>, sub: Seq<char>) -> Seq<Seq<char>>
    decreases ls.len(),
{
    if ls.len() == 0 {
        Seq::empty()
    } else {
        let rest = under_prefix(ls.drop_last(), sub);
        let l = ls.last();
        if has_prefix(l, sub) && listed_name(l.subrange(sub.len() as int, l.len() as int)) {
            rest.push(l.subrange(sub.len() as int, l.len() as int))
        } else {
            rest
        }
    }
}

pub fn prefixed_entries(output: &str, prefix: &str) -> (r: Vec<String>)
    ensures
        strs_view(r@) == under_prefix(lines(output@), prefix@ + "/"@),
{
    let sub = crate::text::concat(prefix, "/");
    let sc = chars_of(sub.as_str());
    let ls = crate::text::lines_of(chars_of(output).as_slice());
    let ghost vs = crate::text::views(ls@);
    let mut r: Vec<String> = Vec::new();
    let mut i: usize = 0;
    while i < ls.len()
        invariant
            i <= ls@.len(),
            vs == crate::text::views(ls@),
            vs == lines(output@),
            sc@ == prefix@ + "/"@,
            strs_view(r@) == under_prefix(vs.take(i as int), sc@),
        decreases ls@.len() - i,
    {
        proof {
            assert(vs.take(i as int + 1).drop_last() =~= vs.take(i as int));
            assert(vs.take(i as int + 1).last() == ls@[i as int]@);
        }
        let l = &ls[i];
        if crate::text::has_prefix_exec(l.as_slice(), sc.as_slice()) {
            let rest = crate::text::slice_vec(l.as_slice(), sc.len(), l.len());
            if rest.len() > 0 && rest[0] != '.' {
                let ghost before = strs_view(r@);
                r.push(string_from(rest.as_slice()));
                assert(strs_view(r@) =~= before.push(rest@));
            }
        }
        i = i + 1;
    }
    assert(vs.take(vs.len() as int) =~= vs);
    r
}

/// Index of the first whitespace character of `l` at or after `i`.
pub open spec fn next_ws(l: Seq<char>, i: int) -> int {
    crate::text::first_match_from(l, crate::text::ws_pred(), i)
}

/// Whether an `ls-tree` line names a directory: ` tree ` or a tab-framed
/// `tree` in it, or `tree` as its second whitespace-separated field when
/// it has four.
pub open spec fn is_tree_line(l: Seq<char>) -> bool {
    let i1 = next_ws(l, 0);
    let i2 = next_ws(l, i1 + 1);
    let i3 = next_ws(l, i2 + 1);
    contains(l, "\ttree\t"@) || contains(l, " tree "@) || (i1 < l.len() && i2 < l.len() && i3 < l.len()
        && l.subrange(i1 + 1, i2) == "tree"@)
}

/// The second tab-separated field of a line, when it has one.
pub open spec fn tab_field(l: Seq<char>) -> Option<Seq<char>> {
    let t1 = crate::text::first_match_from(l, |c: char| c == '\t', 0);
    if t1 < l.len() {
        let t2 = crate::text::first_match_from(l, |c: char| c == '\t', t1 + 1);
        Some(l.subrange(t1 + 1, t2))
    } else {
        None
    }
}

/// The directories of a flat clone, from `git ls-tree HEAD`.
pub open spec fn flat_dirs_of(ls: Seq<Seq<char>>) -> Seq<Seq<char>>
    decreases ls.len(),
{
    if ls.len() == 0 {
        Seq::empty()
    } else {
        let rest = flat_dirs_of(ls.drop_last());
        let l = ls.last();
        if is_tree_line(l) {
            match tab_field(l) {
                Some(n) => if n.len() > 0 && n[0] == '.' {
                    rest
                } else {
                    rest.push(n)
                },
                None => rest,
            }
        } else {
            rest
        }
    }
}

fn stops(c: char, tab_only: bool) -> (r: bool)
    ensures
        tab_only ==> r == (c == '\t'),
        !tab_only ==> r == crate::text::is_ws(c),
{
    if tab_only {
        c == '\t'
    } else {
        crate::text::is_whitespace(c)
    }
}

fn next_match(l: &Vec<char>, i: usize, tab_only: bool) -> (r: usize)
    requires
        i <= l@.len(),
    ensures
        tab_only ==> r == crate::text::first_match_from(l@, |c: char| c == '\t', i as int),
        !tab_only ==> r == next_ws(l@, i as int),
        i <= r <= l@.len(),
{
    let mut j = i;
    while j < l.len() && !stops(l[j], tab_only)
        invariant
            i <= j <= l@.len(),
            tab_only ==> crate::text::first_match_from(l@, |c: char| c == '\t', i as int)
                == crate::text::first_match_from(l@, |c: char| c == '\t', j as int),
            !tab_only ==> next_ws(l@, i as int) == next_ws(l@, j as int),
        decreases l@.len() - j,
    {
        j = j + 1;
    }
    j
}

pub fn flat_dirs(output: &str) -> (r: Vec<String>)
    ensures
        strs_view(r@) == flat_dirs_of(lines(output@)),
{
    let ls = crate::text::lines_of(chars_of(output).as_slice());
    let ghost vs = crate::text::views(ls@);
    let mut r: Vec<String> = Vec::new();
    let mut i: usize = 0;
    while i < ls.len()
        invariant
            i <= ls@.len(),
            vs == crate::text::views(ls@),
            vs == lines(output@),
            strs_view(r@) == flat_dirs_of(vs.take(i as int)),
        decreases ls@.len() - i,
    {
        proof {
            assert(vs.take(i as int + 1).drop_last() =~= vs.take(i as int));
            assert(vs.take(i as int + 1).last() == ls@[i as int]@);
        }
        let l = &ls[i];
        let mut tree = crate::text::str_contains(l.as_slice(), "\ttree\t") || crate::text::str_contains(
            l.as_slice(),
            " tree ",
        );
        if !tree {
            let i1 = next_match(l, 0, false);
            if i1 < l.len() {
                let i2 = next_match(l, i1 + 1, false);
                if i2 < l.len() {
                    let i3 = next_match(l, i2 + 1, false);
                    if i3 < l.len() {
                        let f = crate::text::slice_vec(l.as_slice(), i1 + 1, i2);
                        tree = crate::text::str_is(f.as_slice(), "tree");
                    }
                }
            }
        }
        if tree {
            let t1 = next_match(l, 0, true);
            if t1 < l.len() {
                let t2 = next_match(l, t1 + 1, true);
                let name = crate::text::slice_vec(l.as_slice(), t1 + 1, t2);
                if !(name.len() > 0 && name[0] == '.') {
                    let ghost before = strs_view(r@);
                    r.push(string_from(name.as_slice()));
                    assert(strs_view(r@) =~= before.push(name@));
                }
            }
        }
        i = i + 1;
    }
    assert(vs.take(vs.len() as int) =~= vs);
    r
}

/// A package directory below the layout prefix: its `/`-separated parts
/// are all non-empty and none is hidden.
pub open spec fn ok_dir(d: Seq<char>) -> bool {
    &&& d.len() > 0
    &&& d[0] != '/' && d[0] != '.'
    &&& d.last() != '/'
    &&& forall|i: int| 0 <= i < d.len() - 1 && #[trigger] d[i] == '/' ==> d[i + 1] != '/' && d[i + 1] != '.'
}

/// The directory a line of `git ls-tree -r --name-only HEAD <prefix>/`
/// shows to hold a template or an index: `<prefix>/<dir>/template` or
/// `<prefix>/<dir>/.VURINFO`.
pub open spec fn indexed_dir(l: Seq<char>, sub: Seq<char>) -> Option<Seq<char>> {
    let marker = if crate::text::has_suffix(l, "/template"@) {
        Some("/template"@)
    } else if crate::text::has_suffix(l, "/.VURINFO"@) {
        Some("/.VURINFO"@)
    } else {
        None
    };
    match marker {
        Some(m) => {
            let x = l.subrange(0, l.len() - m.len());
            if has_prefix(x, sub) && ok_dir(x.subrange(sub.len() as int, x.len() as int)) {
                Some(x.subrange(sub.len() as int, x.len() as int))
            } else {
                None
            }
        },
        None => None,
    }
}

/// Whether some line shows `d` to hold a template or an index.
pub open spec fn is_indexed(ls: Seq<Seq<char>>, sub: Seq<char>, d: Seq<char>) -> bool {
    exists|i: int| 0 <= i < ls.len() && indexed_dir(#[trigger] ls[i], sub) == Some(d)
}

pub open spec fn one_slash(d: Seq<char>) -> bool {
    exists|i: int| 0 <= i < d.len() && d[i] == '/' && forall|j: int| 0 <= j < d.len() && d[j] == '/' ==> j == i
}

/// The top-level entries kept: those with a `/` and those that are
/// packages themselves.
pub open spec fn kept_top(top: Seq<Seq<char>>, ls: Seq<Seq<char>>, sub: Seq<char>) -> Seq<Seq<char>>
    decreases top.len(),
{
    if top.len() == 0 {
        Seq::empty()
    } else {
        let rest = kept_top(top.drop_last(), ls, sub);
        let e = top.last();
        if crate::text::has_char(e, '/') || is_indexed(ls, sub, e) {
            rest.push(e)
        } else {
            rest
        }
    }
}

/// One listing line checked for a template or an index directory.
fn indexed_dir_exec(l: &Vec<char>, sub: &Vec<char>) -> (r: Option<String>)
    ensures
        crate::metadata::opt_view(r) == indexed_dir(l@, sub@),
{
    let t = chars_of("/template");
    let v = chars_of("/.VURINFO");
    proof {
        reveal_strlit("/template");
        reveal_strlit("/.VURINFO");
    }
    let cut = if crate::text::has_suffix_exec(l.as_slice(), t.as_slice()) {
        t.len()
    } else if crate::text::has_suffix_exec(l.as_slice(), v.as_slice()) {
        v.len()
    } else {
        return None;
    };
    let x = crate::text::slice_vec(l.as_slice(), 0, l.len() - cut);
    if !crate::text::has_prefix_exec(x.as_slice(), sub.as_slice()) {
        return None;
    }
    let d = crate::text::slice_vec(x.as_slice(), sub.len(), x.len());
    if d.len() == 0 || d[0] == '/' || d[0] == '.' || d[d.len() - 1] == '/' {
        return None;
    }
    assert(indexed_dir(l@, sub@) == (if ok_dir(d@) {
        Some(d@)
    } else {
        None
    }));
    let mut i: usize = 0;
    while i < d.len() - 1
        invariant
            d@.len() > 0,
            i <= d@.len(),
            indexed_dir(l@, sub@) == (if ok_dir(d@) {
                Some(d@)
            } else {
                None
            }),
            forall|k: int| 0 <= k < i && k < d@.len() - 1 && #[trigger] d@[k] == '/' ==> d@[k + 1] != '/' && d@[k + 1] != '.',
        decreases d@.len() - i,
    {
        if d[i] == '/' && (d[i + 1] == '/' || d[i + 1] == '.') {
            assert(!ok_dir(d@)) by {
                assert(d@[i as int] == '/');
            }
            return None;
        }
        i = i + 1;
    }
    Some(string_from(d.as_slice()))
}

fn count_slashes_is_one(d: &Vec<char>) -> (r: bool)
    ensures
        r == one_slash(d@),
{
    let mut n: usize = 0;
    let mut at: usize = 0;
    let mut i: usize = 0;
    while i < d.len()
        invariant
            i <= d@.len(),
            n <= 2,
            n == 0 ==> forall|j: int| 0 <= j < i ==> d@[j] != '/',
            n == 1 ==> at < i && d@[at as int] == '/' && forall|j: int| 0 <= j < i && d@[j] == '/' ==> j == at,
            n == 2 ==> !one_slash(d@),
        decreases d@.len() - i,
    {
        if d[i] == '/' {
            if n == 0 {
                n = 1;
                at = i;
            } else if n == 1 {
                proof {
                    assert(!one_slash(d@)) by {
                        if one_slash(d@) {
                            let w = choose|w: int| 0 <= w < d@.len() && d@[w] == '/' && forall|j: int|
                                0 <= j < d@.len() && d@[j] == '/' ==> j == w;
                            assert(at as int == w);
                            assert(i as int == w);
                        }
                    }
                }
                n = 2;
            }
        }
        i = i + 1;
    }
    if n == 1 {
        assert(one_slash(d@));
    }
    if n == 0 {
        assert(!one_slash(d@)) by {
            if one_slash(d@) {
                let w = choose|w: int| 0 <= w < d@.len() && d@[w] == '/' && forall|j: int|
                    0 <= j < d@.len() && d@[j] == '/' ==> j == w;
                assert(d@[w] != '/');
            }
        }
    }
    n == 1
}

fn contains_str(v: &Vec<String>, x: &String) -> (r: bool)
    ensures
        r == strs_view(v@).contains(x@),
{
    let mut i: usize = 0;
    while i < v.len()
        invariant
            i <= v@.len(),
            forall|j: int| 0 <= j < i ==> v@[j]@ != x@,
        decreases v@.len() - i,
    {
        if v[i] == *x {
            assert(strs_view(v@)[i as int] == x@);
            return true;
        }
        i = i + 1;
    }
    false
}

/// One level deeper for repositories with categories
/// (`<prefix>/<category>/<pkg>`): from the recursive listing of the
/// prefix, the directories holding a template or an index are found; a
/// top-level entry stays when it has a `/` or is such a directory itself,
/// and every such `category/pkg` directory not listed yet is added. The
/// result is sorted.
pub fn with_extra_level(top: &Vec<String>, rec_output: &str, prefix: &str) -> (r: Vec<String>)
    ensures
        sorted_text(strs_view(r@)),
        exists|extra: Seq<Seq<char>>|
            {
                &&& crate::sorting::strictly_sorted(extra)
                &&& forall|y: Seq<char>| #[trigger]
                    extra.contains(y) <==> (is_indexed(lines(rec_output@), prefix@ + "/"@, y) && one_slash(y)
                        && !kept_top(strs_view(top@), lines(rec_output@), prefix@ + "/"@).contains(y))
                &&& strs_view(r@).to_multiset() == (kept_top(
                    strs_view(top@),
                    lines(rec_output@),
                    prefix@ + "/"@,
                ) + extra).to_multiset()
            },
{
    let sub_s = crate::text::concat(prefix, "/");
    let sub = chars_of(sub_s.as_str());
    let lsv = crate::text::lines_of(chars_of(rec_output).as_slice());
    let ghost ls = crate::text::views(lsv@);
    let mut idx: Vec<String> = Vec::new();
    assert(strs_view(idx@) =~= Seq::<Seq<char>>::empty());
    let mut k: usize = 0;
    while k < lsv.len()
        invariant
            k <= lsv@.len(),
            ls == crate::text::views(lsv@),
            crate::sorting::strictly_sorted(strs_view(idx@)),
            forall|y: Seq<char>| #[trigger]
                strs_view(idx@).contains(y) <==> exists|i: int| 0 <= i < k && indexed_dir(#[trigger] ls[i], sub@) == Some(y),
        decreases lsv@.len() - k,
    {
        match indexed_dir_exec(&lsv[k], &sub) {
            Some(d) => {
                let ghost dv = d@;
                crate::sorting::insert_unique(&mut idx, d);
                proof {
                    assert forall|y: Seq<char>| #[trigger]
                        strs_view(idx@).contains(y) <==> exists|i: int| 0 <= i < k + 1 && indexed_dir(#[trigger] ls[i], sub@) == Some(y) by {
                        if y == dv {
                            assert(indexed_dir(ls[k as int], sub@) == Some(y));
                        }
                        if exists|i: int| 0 <= i < k + 1 && indexed_dir(#[trigger] ls[i], sub@) == Some(y) {
                            let i = choose|i: int| 0 <= i < k + 1 && indexed_dir(#[trigger] ls[i], sub@) == Some(y);
                            if i < k {
                                assert(exists|i: int| 0 <= i < k && indexed_dir(#[trigger] ls[i], sub@) == Some(y));
                            }
                        }
                    }
                }
            },
            None => {
                proof {
                    assert forall|y: Seq<char>| #[trigger]
                        strs_view(idx@).contains(y) <==> exists|i: int| 0 <= i < k + 1 && indexed_dir(#[trigger] ls[i], sub@) == Some(y) by {
                        if exists|i: int| 0 <= i < k + 1 && indexed_dir(#[trigger] ls[i], sub@) == Some(y) {
                            let i = choose|i: int| 0 <= i < k + 1 && indexed_dir(#[trigger] ls[i], sub@) == Some(y);
                            assert(i != k);
                            assert(exists|i: int| 0 <= i < k && indexed_dir(#[trigger] ls[i], sub@) == Some(y));
                        }
                    }
                }
            },
        }
        k = k + 1;
    }
    assert forall|y: Seq<char>| #[trigger] strs_view(idx@).contains(y) <==> is_indexed(ls, sub@, y) by {}
    let ghost tv = strs_view(top@);
    let mut kept: Vec<String> = Vec::new();
    assert(strs_view(kept@) =~= Seq::<Seq<char>>::empty());
    let mut t: usize = 0;
    while t < top.len()
        invariant
            t <= top@.len(),
            tv == strs_view(top@),
            forall|y: Seq<char>| #[trigger] strs_view(idx@).contains(y) <==> is_indexed(ls, sub@, y),
            strs_view(kept@) == kept_top(tv.take(t as int), ls, sub@),
        decreases top@.len() - t,
    {
        proof {
            assert(tv.take(t as int + 1).drop_last() =~= tv.take(t as int));
            assert(tv.take(t as int + 1).last() == top@[t as int]@);
        }
        let e = &top[t];
        if crate::text::has_char_exec(chars_of(e.as_str()).as_slice(), '/') || contains_str(&idx, e) {
            let ghost before = strs_view(kept@);
            kept.push(e.clone());
            assert(strs_view(kept@) =~= before.push(e@));
        }
        t = t + 1;
    }
    assert(tv.take(tv.len() as int) =~= tv);
    let ghost kv = strs_view(kept@);
    let ghost iv = strs_view(idx@);
    let mut extra: Vec<String> = Vec::new();
    assert(strs_view(extra@) =~= Seq::<Seq<char>>::empty());
    let mut j: usize = 0;
    while j < idx.len()
        invariant
            j <= idx@.len(),
            iv == strs_view(idx@),
            kv == strs_view(kept@),
            crate::sorting::strictly_sorted(iv),
            crate::sorting::strictly_sorted(strs_view(extra@)),
            forall|m: int| #![trigger extra@[m]] 0 <= m < extra@.len() ==> exists|q: int| 0 <= q < j && #[trigger] iv[q] == extra@[m]@,
            forall|y: Seq<char>| #[trigger]
                strs_view(extra@).contains(y) <==> (iv.take(j as int).contains(y) && one_slash(y) && !kv.contains(y)),
        decreases idx@.len() - j,
    {
        let d = &idx[j];
        let dc = chars_of(d.as_str());
        let add = count_slashes_is_one(&dc) && !contains_str(&kept, d);
        let ghost before = strs_view(extra@);
        proof {
            assert(iv.take(j as int + 1) =~= iv.take(j as int).push(iv[j as int]));
        }
        if add {
            extra.push(d.clone());
            proof {
                assert(strs_view(extra@) =~= before.push(d@));
                assert forall|a: int, b: int| 0 <= a < b < strs_view(extra@).len() implies text_order(
                    strs_view(extra@)[a],
                    strs_view(extra@)[b],
                ) < 0 by {
                    if b == before.len() {
                        let q = choose|q: int| 0 <= q < j && #[trigger] iv[q] == extra@[a]@;
                        assert(text_order(iv[q], iv[j as int]) < 0);
                    }
                }
                assert forall|m: int| #![trigger extra@[m]] 0 <= m < extra@.len() implies exists|q: int| 0 <= q < j + 1 && #[trigger] iv[q]
                    == extra@[m]@ by {
                    if m == before.len() {
                        assert(iv[j as int] == extra@[m]@);
                    } else {
                        let q = choose|q: int| 0 <= q < j && #[trigger] iv[q] == extra@[m]@;
                        assert(iv[q] == extra@[m]@);
                    }
                }
                assert forall|y: Seq<char>| #[trigger]
                    strs_view(extra@).contains(y) <==> (iv.take(j as int + 1).contains(y) && one_slash(y)
                        && !kv.contains(y)) by {
                    crate::sorting::lemma_push_contains(before, d@, y);
                    crate::sorting::lemma_push_contains(iv.take(j as int), iv[j as int], y);
                }
            }
        } else {
            proof {
                assert forall|y: Seq<char>| #[trigger]
                    strs_view(extra@).contains(y) <==> (iv.take(j as int + 1).contains(y) && one_slash(y)
                        && !kv.contains(y)) by {
                    crate::sorting::lemma_push_contains(iv.take(j as int), iv[j as int], y);
                }
                assert forall|m: int| #![trigger extra@[m]] 0 <= m < extra@.len() implies exists|q: int| 0 <= q < j + 1 && #[trigger] iv[q]
                    == extra@[m]@ by {
                    let q = choose|q: int| 0 <= q < j && #[trigger] iv[q] == extra@[m]@;
                    assert(iv[q] == extra@[m]@);
                }
            }
        }
        j = j + 1;
    }
    assert(iv.take(iv.len() as int) =~= iv);
    let ghost ev = strs_view(extra@);
    let mut all = kept;
    let mut ex = extra;
    all.append(&mut ex);
    assert(strs_view(all@) =~= kv + ev);
    let r = sort_strings(&all);
    assert(forall|y: Seq<char>| #[trigger] ev.contains(y) <==> (is_indexed(ls, sub@, y) && one_slash(y) && !kv.contains(y)));
    r
}

} // verus!
