//! VUR repositories: URL safety and the static reading of xbps-src
//! templates into package metadata.
use vstd::prelude::*;
use crate::keys::is_control;
use crate::metadata::{strs_view, Subpackage, SubpackageView, VurInfo, VurInfoView};
use crate::text::{
    chars_of, contains, find, has_char, has_prefix, has_suffix, is_ascii_alnum, is_ws, join, lines,
    lines_of, push_str, split_ws, split_ws_of, str_starts, string_from, trim, trim_end,
    trim_start, trim_vec, views,
};

verus! {

/// A URL git may be handed: no control characters, not blank, not an
/// option (`-`), and one of the `https`, `http`, `git`, `ssh`, `file`
/// transports or the scp-like `git@host:path` form.
pub open spec fn safe_git_url(url: Seq<char>) -> bool {
    let u = trim(url);
    &&& forall|i: int| 0 <= i < url.len() ==> !is_control(url[i])
    &&& u.len() > 0
    &&& u[0] != '-'
    &&& (has_prefix(u, "https://"@) || has_prefix(u, "http://"@) || has_prefix(u, "git://"@)
        || has_prefix(u, "ssh://"@) || has_prefix(u, "file://"@) || (has_prefix(u, "git@"@)
        && has_char(u, ':')))
}

pub fn is_safe_git_url(url: &str) -> (r: bool)
    ensures
        r == safe_git_url(url@),
{
    let cs = chars_of(url);
    let mut i: usize = 0;
    while i < cs.len()
        invariant
            i <= cs@.len(),
            cs@ == url@,
            forall|j: int| 0 <= j < i ==> !is_control(cs@[j]),
        decreases cs@.len() - i,
    {
        let c = cs[i];
        if c <= '\u{1f}' || ('\u{7f}' <= c && c <= '\u{9f}') {
            return false;
        }
        i = i + 1;
    }
    let u = trim_vec(&cs);
    if u.len() == 0 || u[0] == '-' {
        return false;
    }
    str_starts(&u, "https://") || str_starts(&u, "http://") || str_starts(&u, "git://")
        || str_starts(&u, "ssh://") || str_starts(&u, "file://") || (str_starts(&u, "git@")
        && crate::text::has_char_exec(&u, ':'))
}

/// The warning printed when an index entry is skipped.
pub fn skipped_index_warning(kind: &str, location: &str, err: &str) -> (r: String)
    ensures
        r@ == "advertencia: se ignoró "@ + kind@ + " en "@ + location@ + ": "@ + err@,
{
    let mut s = "advertencia: se ignoró ".to_owned();
    push_str(&mut s, kind);
    push_str(&mut s, " en ");
    push_str(&mut s, location);
    push_str(&mut s, ": ");
    push_str(&mut s, err);
    s
}

// ------------------------------------------------------------------
// Quotes
// ------------------------------------------------------------------

/// Quote state after reading `s[k..]` from state (`dq`, `sq`, `esc`,
/// `prev_ws`): a backslash outside single quotes escapes the next
/// character, quotes toggle unless inside the other kind, and an
/// unquoted `#` after whitespace starts a comment that ends the scan.
pub open spec fn quote_scan(s: Seq<char>, k: int, dq: bool, sq: bool, esc: bool, prev_ws: bool) -> (
    bool,
    bool,
)
    decreases s.len() - k,
{
    if k < 0 || k >= s.len() {
        (dq, sq)
    } else {
        let c = s[k];
        if esc {
            quote_scan(s, k + 1, dq, sq, false, is_ws(c))
        } else if !dq && !sq && c == '#' && prev_ws {
            (dq, sq)
        } else if c == '\\' && !sq {
            quote_scan(s, k + 1, dq, sq, true, is_ws(c))
        } else if c == '"' && !sq {
            quote_scan(s, k + 1, !dq, sq, false, is_ws(c))
        } else if c == '\'' && !dq {
            quote_scan(s, k + 1, dq, !sq, false, is_ws(c))
        } else {
            quote_scan(s, k + 1, dq, sq, false, is_ws(c))
        }
    }
}

/// An assignment whose quoted value is not closed yet: the text after the
/// first `=` starts (past whitespace) with a quote that the scan leaves
/// open.
pub open spec fn unclosed_quote(buf: Seq<char>) -> bool {
    match find(buf, "="@) {
        None => false,
        Some(eq) => {
            let v = trim_start(buf.skip(eq + 1));
            if v.len() == 0 || (v[0] != '"' && v[0] != '\'') {
                false
            } else {
                let st = quote_scan(v, 0, false, false, false, false);
                st.0 || st.1
            }
        },
    }
}

fn has_unclosed_quote(buf: &[char]) -> (r: bool)
    ensures
        r == unclosed_quote(buf@),
{
    let eqp = chars_of("=");
    let eq = match crate::text::find_exec(buf, &eqp) {
        Some(e) => e,
        None => {
            return false;
        },
    };
    proof {
        reveal_strlit("=");
        assert(eqp@.len() == 1);
    }
    assert(eq < buf.len());
    let start: usize = eq + 1;
    let rest = crate::text::slice_vec(buf, start, buf.len());
    assert(rest@ =~= buf@.skip(eq as int + 1));
    let v = crate::text::trim_start_vec(&rest);
    if v.len() == 0 || (v[0] != '"' && v[0] != '\'') {
        return false;
    }
    let mut dq = false;
    let mut sq = false;
    let mut esc = false;
    let mut prev_ws = false;
    let mut k: usize = 0;
    while k < v.len()
        invariant
            k <= v@.len(),
            quote_scan(v@, 0, false, false, false, false) == quote_scan(v@, k as int, dq, sq, esc, prev_ws),
        ensures
            quote_scan(v@, 0, false, false, false, false) == (dq, sq),
        decreases v@.len() - k,
    {
        let c = v[k];
        if esc {
            esc = false;
        } else if !dq && !sq && c == '#' && prev_ws {
            break;
        } else if c == '\\' && !sq {
            esc = true;
        } else if c == '"' && !sq {
            dq = !dq;
        } else if c == '\'' && !dq {
            sq = !sq;
        }
        prev_ws = crate::text::is_whitespace(c);
        k = k + 1;
    }
    dq || sq
}

// ------------------------------------------------------------------
// Template scanning
// ------------------------------------------------------------------

/// How many times `c` occurs in `s`.
pub open spec fn count_char(s: Seq<char>, c: char) -> nat
    decreases s.len(),
{
    if s.len() == 0 {
        0
    } else {
        count_char(s.drop_last(), c) + if s.last() == c {
            1nat
        } else {
            0nat
        }
    }
}

fn count_char_exec(s: &[char], c: char) -> (r: u64)
    ensures
        r == count_char(s@, c),
{
    let mut n: u64 = 0;
    let mut i: usize = 0;
    while i < s.len()
        invariant
            i <= s@.len(),
            n == count_char(s@.take(i as int), c),
            n <= i,
        decreases s@.len() - i,
    {
        proof {
            assert(s@.take(i as int + 1).drop_last() =~= s@.take(i as int));
        }
        if s[i] == c {
            n = n + 1;
        }
        i = i + 1;
    }
    assert(s@.take(s@.len() as int) =~= s@);
    n
}

/// `a + b`, saturating at `u64::MAX`.
pub open spec fn sat_add(a: int, b: int) -> int {
    if a + b > u64::MAX {
        u64::MAX as int
    } else {
        a + b
    }
}

/// `a - b`, saturating at 0.
pub open spec fn sat_sub(a: int, b: int) -> int {
    if a >= b {
        a - b
    } else {
        0
    }
}

/// Whitespace collapsed to single spaces (`split_whitespace` + `join(" ")`).
pub open spec fn normalize(v: Seq<char>) -> Seq<char> {
    join(split_ws(v), " "@)
}

fn normalize_exec(v: &[char]) -> (r: Vec<char>)
    ensures
        r@ == normalize(v@),
{
    let words = split_ws_of(v);
    let mut strs: Vec<String> = Vec::new();
    let mut i: usize = 0;
    while i < words.len()
        invariant
            i <= words@.len(),
            strs_view(strs@) == views(words@).take(i as int),
        decreases words@.len() - i,
    {
        let ghost before = strs_view(strs@);
        strs.push(string_from(&words[i]));
        proof {
            assert(strs_view(strs@) =~= before.push(words@[i as int]@));
            assert(views(words@).take(i as int + 1) =~= views(words@).take(i as int).push(
                words@[i as int]@,
            ));
        }
        i = i + 1;
    }
    assert(views(words@).take(words@.len() as int) =~= views(words@));
    let j = crate::text::join_strings(&strs, " ");
    chars_of(j.as_str())
}

/// A value quoted at both ends (`"..."` or `'...'`, two characters at
/// least) loses the quotes.
pub open spec fn unquote_both(v: Seq<char>) -> Seq<char> {
    if v.len() >= 2 && ((v[0] == '"' && v.last() == '"') || (v[0] == '\'' && v.last() == '\'')) {
        v.subrange(1, v.len() - 1)
    } else {
        v
    }
}

fn unquote_both_exec(v: &[char]) -> (r: Vec<char>)
    ensures
        r@ == unquote_both(v@),
{
    let n = v.len();
    if n >= 2 && ((v[0] == '"' && v[n - 1] == '"') || (v[0] == '\'' && v[n - 1] == '\'')) {
        crate::text::slice_vec(v, 1, n - 1)
    } else {
        crate::text::slice_vec(v, 0, n)
    }
}

/// `s` without trailing `+` characters.
pub open spec fn trim_end_plus(s: Seq<char>) -> Seq<char>
    decreases s.len(),
{
    if s.len() > 0 && s.last() == '+' {
        trim_end_plus(s.drop_last())
    } else {
        s
    }
}

/// A `depends=`/`short_desc=` set inside a subpackage function.
pub open spec fn sub_assignment(l: Seq<char>) -> Option<(Seq<char>, Seq<char>)> {
    let lt = trim(l);
    if lt.len() == 0 || lt[0] == '#' {
        None
    } else {
        match find(lt, "="@) {
            None => None,
            Some(eq) => {
                let k = trim_end_plus(trim(lt.take(eq)));
                if k == "depends"@ || k == "short_desc"@ {
                    Some((k, normalize(unquote_both(trim(lt.skip(eq + 1))))))
                } else {
                    None
                }
            },
        }
    }
}

fn find_char_seq(s: &[char], p: &str) -> (r: Option<usize>)
    ensures
        r matches Some(k) ==> find(s@, p@) == Some(k as int) && crate::text::occurs_at(s@, p@, k as int),
        r is None ==> find(s@, p@) is None,
{
    let pv = chars_of(p);
    crate::text::find_exec(s, &pv)
}

fn sub_assignment_exec(l: &[char]) -> (r: Option<(Vec<char>, Vec<char>)>)
    ensures
        match r {
            Some((k, v)) => sub_assignment(l@) == Some((k@, v@)),
            None => sub_assignment(l@) is None,
        },
{
    let lt = trim_vec(l);
    if lt.len() == 0 || lt[0] == '#' {
        return None;
    }
    match find_char_seq(&lt, "=") {
        None => None,
        Some(eq) => {
            proof {
                reveal_strlit("=");
            }
            assert(eq < lt.len());
            let head = crate::text::slice_vec(&lt, 0, eq);
            assert(head@ =~= lt@.take(eq as int));
            let kt = trim_vec(&head);
            let mut hi = kt.len();
            assert(kt@.take(kt@.len() as int) =~= kt@);
            while hi > 0 && kt[hi - 1] == '+'
                invariant
                    hi <= kt@.len(),
                    trim_end_plus(kt@) == trim_end_plus(kt@.take(hi as int)),
                decreases hi,
            {
                proof {
                    assert(kt@.take(hi as int).drop_last() =~= kt@.take(hi as int - 1));
                }
                hi = hi - 1;
            }
            proof {
                assert(kt@.take(kt@.len() as int) =~= kt@);
            }
            let k = crate::text::slice_vec(&kt, 0, hi);
            assert(k@ =~= kt@.take(hi as int));
            if crate::text::str_is(&k, "depends") || crate::text::str_is(&k, "short_desc") {
                let start: usize = eq + 1;
                let rest = crate::text::slice_vec(&lt, start, lt.len());
                assert(rest@ =~= lt@.skip(eq as int + 1));
                let t = trim_vec(&rest);
                let u = unquote_both_exec(&t);
                let v = normalize_exec(&u);
                Some((k, v))
            } else {
                None
            }
        },
    }
}

/// Reads a function body from line `j` on, tracking brace depth, until
/// the braces it opened are closed: the index after its last line and
/// the subpackage variables set at depth 1.
pub open spec fn fn_body(
    ls: Seq<Seq<char>>,
    j: int,
    depth: int,
    found: bool,
    vars: Seq<(Seq<char>, Seq<char>)>,
) -> (int, Seq<(Seq<char>, Seq<char>)>)
    decreases ls.len() - j,
{
    if j < 0 || j >= ls.len() {
        (j, vars)
    } else {
        let l = ls[j];
        let o = count_char(l, '{') as int;
        let found2 = found || o > 0;
        let d2 = sat_sub(sat_add(depth, o), count_char(l, '}') as int);
        let vars2 = if d2 == 1 {
            match sub_assignment(l) {
                Some(kv) => vars.push(kv),
                None => vars,
            }
        } else {
            vars
        };
        if found2 && d2 == 0 {
            (j + 1, vars2)
        } else {
            fn_body(ls, j + 1, d2, found2, vars2)
        }
    }
}

pub proof fn lemma_fn_body_bounds(
    ls: Seq<Seq<char>>,
    j: int,
    depth: int,
    found: bool,
    vars: Seq<(Seq<char>, Seq<char>)>,
)
    requires
        0 <= j <= ls.len(),
    ensures
        j <= fn_body(ls, j, depth, found, vars).0 <= ls.len(),
    decreases ls.len() - j,
{
    if j < ls.len() {
        let l = ls[j];
        let o = count_char(l, '{') as int;
        let found2 = found || o > 0;
        let d2 = sat_sub(sat_add(depth, o), count_char(l, '}') as int);
        let vars2 = if d2 == 1 {
            match sub_assignment(l) {
                Some(kv) => vars.push(kv),
                None => vars,
            }
        } else {
            vars
        };
        if !(found2 && d2 == 0) {
            lemma_fn_body_bounds(ls, j + 1, d2, found2, vars2);
        }
    }
}

/// A backslash at the end (past trailing whitespace) continues the line
/// with the next one, joined by a space.
pub open spec fn join_continued(ls: Seq<Seq<char>>, buf: Seq<char>, j: int) -> (Seq<char>, int)
    decreases ls.len() - j,
{
    if has_suffix(trim_end(buf), "\\"@) {
        let b = trim_end(buf).drop_last();
        if 0 <= j < ls.len() {
            join_continued(ls, b + " "@ + ls[j], j + 1)
        } else {
            (b, j)
        }
    } else {
        (buf, j)
    }
}

/// A quoted value left open continues with the next line, joined by a
/// newline.
pub open spec fn join_quoted(ls: Seq<Seq<char>>, buf: Seq<char>, j: int) -> (Seq<char>, int)
    decreases ls.len() - j,
{
    if unclosed_quote(buf) && 0 <= j < ls.len() {
        join_quoted(ls, buf + "\n"@ + ls[j], j + 1)
    } else {
        (buf, j)
    }
}

pub proof fn lemma_join_bounds(ls: Seq<Seq<char>>, buf: Seq<char>, j: int)
    requires
        0 <= j <= ls.len(),
    ensures
        j <= join_continued(ls, buf, j).1 <= ls.len(),
        j <= join_quoted(ls, buf, j).1 <= ls.len(),
    decreases ls.len() - j,
{
    if has_suffix(trim_end(buf), "\\"@) && j < ls.len() {
        let b = trim_end(buf).drop_last();
        lemma_join_bounds(ls, b + " "@ + ls[j], j + 1);
    }
    if unclosed_quote(buf) && j < ls.len() {
        lemma_join_bounds(ls, buf + "\n"@ + ls[j], j + 1);
    }
}

/// Variables a template may set that the metadata reads.
pub open spec fn relevant_key(k: Seq<char>) -> bool {
    ||| k == "pkgname"@
    ||| k == "version"@
    ||| k == "revision"@
    ||| k == "archs"@
    ||| k == "only_for_archs"@
    ||| k == "depends"@
    ||| k == "hostmakedepends"@
    ||| k == "makedepends"@
    ||| k == "checkdepends"@
    ||| k == "build_style"@
    ||| k == "distfiles"@
    ||| k == "checksum"@
    ||| k == "provides"@
    ||| k == "replaces"@
    ||| k == "restricted"@
    ||| k == "maintainer"@
    ||| k == "short_desc"@
    ||| k == "license"@
    ||| k == "homepage"@
}

/// A shell variable name: ASCII alphanumerics and `_`.
pub open spec fn ident(k: Seq<char>) -> bool {
    forall|i: int| 0 <= i < k.len() ==> is_ascii_alnum(k[i]) || k[i] == '_'
}

/// A trailing comment (` #...`) is dropped when the quotes before it are
/// balanced.
pub open spec fn strip_comment(v: Seq<char>) -> Seq<char> {
    match find(v, " #"@) {
        Some(h) => {
            let before = v.take(h);
            if count_char(before, '"') % 2 == 0 && count_char(before, '\'') % 2 == 0 {
                trim(v.take(h))
            } else {
                v
            }
        },
        None => v,
    }
}

/// Last index of `c` in `s`.
pub open spec fn rfind_char(s: Seq<char>, c: char) -> Option<int>
    decreases s.len(),
{
    if s.len() == 0 {
        None
    } else if s.last() == c {
        Some(s.len() - 1)
    } else {
        rfind_char(s.drop_last(), c)
    }
}

/// Quotes removed from a value: both ends, or an opening quote of a
/// multi-line value up to its last occurrence.
pub open spec fn unquote_value(v: Seq<char>) -> Seq<char> {
    if v.len() >= 2 && ((v[0] == '"' && v.last() == '"') || (v[0] == '\'' && v.last() == '\'')) {
        v.subrange(1, v.len() - 1)
    } else if v.len() > 0 && (v[0] == '"' || v[0] == '\'') {
        let rest = v.drop_first();
        match rfind_char(rest, v[0]) {
            Some(e) => rest.take(e),
            None => rest,
        }
    } else {
        v
    }
}

/// The `key=value` a joined line sets, when the key is relevant.
pub open spec fn assignment(buf: Seq<char>) -> Option<(Seq<char>, Seq<char>)> {
    match find(buf, "="@) {
        None => None,
        Some(eq) => {
            let key = trim(buf.take(eq));
            if !ident(key) || !relevant_key(key) {
                None
            } else {
                Some((key, normalize(unquote_value(strip_comment(trim(buf.skip(eq + 1)))))))
            }
        },
    }
}

/// The subpackage a function line defines: `<name>_package()` with a
/// valid package name.
pub open spec fn sub_def(t: Seq<char>) -> Option<Seq<char>> {
    match find(t, "()"@) {
        None => None,
        Some(p) => {
            let f = trim(t.take(p));
            if has_suffix(f, "_package"@) {
                let n = trim(f.take(f.len() - 8));
                if n.len() > 0 && crate::metadata::valid_pkgname(n) {
                    Some(n)
                } else {
                    None
                }
            } else {
                None
            }
        },
    }
}

/// What scanning a template from line `i` collects: assignments (later
/// ones win) and subpackage functions with their variables.
pub open spec fn scan(
    ls: Seq<Seq<char>>,
    i: int,
    vars: Seq<(Seq<char>, Seq<char>)>,
    subs: Seq<(Seq<char>, Seq<(Seq<char>, Seq<char>)>)>,
) -> (Seq<(Seq<char>, Seq<char>)>, Seq<(Seq<char>, Seq<(Seq<char>, Seq<char>)>)>)
    decreases ls.len() - i,
{
    if i < 0 || i >= ls.len() {
        (vars, subs)
    } else {
        let line = ls[i];
        let t = trim(line);
        if t.len() == 0 || t[0] == '#' {
            scan(ls, i + 1, vars, subs)
        } else if contains(t, "()"@) {
            let o = count_char(t, '{') as int;
            let body = fn_body(ls, i + 1, o, o > 0, Seq::empty());
            proof {
                lemma_fn_body_bounds(ls, i + 1, o, o > 0, Seq::empty());
            }
            match sub_def(t) {
                Some(n) => scan(ls, body.0, vars, subs.push((n, body.1))),
                None => scan(ls, body.0, vars, subs),
            }
        } else if t[0] == '}' || t[0] == '{' {
            scan(ls, i + 1, vars, subs)
        } else {
            let c = join_continued(ls, line, i + 1);
            proof {
                lemma_join_bounds(ls, line, i + 1);
                lemma_join_bounds(ls, c.0, c.1);
            }
            let q = join_quoted(ls, c.0, c.1);
            match assignment(q.0) {
                Some(kv) => scan(ls, q.1, vars.push(kv), subs),
                None => scan(ls, q.1, vars, subs),
            }
        }
    }
}

pub open spec fn kv_view(v: Seq<(Vec<char>, Vec<char>)>) -> Seq<(Seq<char>, Seq<char>)> {
    v.map_values(|e: (Vec<char>, Vec<char>)| (e.0@, e.1@))
}

/// Reads a function body (see [`fn_body`]).
fn fn_body_exec(ls: &Vec<Vec<char>>, j0: usize, depth0: u64, found0: bool) -> (r: (usize, Vec<
    (Vec<char>, Vec<char>),
>))
    requires
        j0 <= ls@.len(),
    ensures
        (r.0 as int, kv_view(r.1@)) == fn_body(views(ls@), j0 as int, depth0 as int, found0, Seq::empty()),
{
    let mut vars: Vec<(Vec<char>, Vec<char>)> = Vec::new();
    let mut j = j0;
    let mut depth = depth0;
    let mut found = found0;
    assert(kv_view(vars@) =~= Seq::<(Seq<char>, Seq<char>)>::empty());
    while j < ls.len()
        invariant
            j0 <= j <= ls@.len(),
            fn_body(views(ls@), j0 as int, depth0 as int, found0, Seq::empty()) == fn_body(
                views(ls@),
                j as int,
                depth as int,
                found,
                kv_view(vars@),
            ),
        decreases ls@.len() - j,
    {
        let l = &ls[j];
        proof {
            assert(views(ls@)[j as int] == l@);
        }
        let o = count_char_exec(l, '{');
        let c = count_char_exec(l, '}');
        found = found || o > 0;
        let sum = depth.saturating_add(o);
        depth = sum.saturating_sub(c);
        if depth == 1 {
            match sub_assignment_exec(l) {
                Some(kv) => {
                    let ghost before = kv_view(vars@);
                    vars.push(kv);
                    assert(kv_view(vars@) =~= before.push((kv.0@, kv.1@)));
                },
                None => {},
            }
        }
        j = j + 1;
        if found && depth == 0 {
            return (j, vars);
        }
    }
    (j, vars)
}

fn join_continued_exec(ls: &Vec<Vec<char>>, buf0: Vec<char>, j0: usize) -> (r: (Vec<char>, usize))
    requires
        j0 <= ls@.len(),
    ensures
        (r.0@, r.1 as int) == join_continued(views(ls@), buf0@, j0 as int),
{
    let mut buf = buf0;
    let mut j = j0;
    loop
        invariant
            j0 <= j <= ls@.len(),
            join_continued(views(ls@), buf0@, j0 as int) == join_continued(views(ls@), buf@, j as int),
        decreases ls@.len() - j,
    {
        let te = crate::text::trim_end_vec(&buf);
        if !crate::text::str_ends(&te, "\\") {
            return (buf, j);
        }
        proof {
            reveal_strlit("\\");
        }
        let b = crate::text::slice_vec(&te, 0, te.len() - 1);
        assert(b@ =~= te@.drop_last());
        if j < ls.len() {
            let mut nb = b;
            nb.push(' ');
            let mut k: usize = 0;
            let ghost base = nb@;
            while k < ls[j].len()
                invariant
                    j < ls@.len(),
                    k <= ls@[j as int]@.len(),
                    nb@ == base + ls@[j as int]@.take(k as int),
                decreases ls@[j as int]@.len() - k,
            {
                nb.push(ls[j][k]);
                proof {
                    assert(ls@[j as int]@.take(k as int + 1) =~= ls@[j as int]@.take(k as int).push(
                        ls@[j as int]@[k as int],
                    ));
                }
                k = k + 1;
            }
            proof {
                assert(ls@[j as int]@.take(ls@[j as int]@.len() as int) =~= ls@[j as int]@);
                assert(views(ls@)[j as int] == ls@[j as int]@);
                reveal_strlit(" ");
                assert(nb@ =~= b@ + " "@ + views(ls@)[j as int]);
            }
            buf = nb;
            j = j + 1;
        } else {
            return (b, j);
        }
    }
}

fn join_quoted_exec(ls: &Vec<Vec<char>>, buf0: Vec<char>, j0: usize) -> (r: (Vec<char>, usize))
    requires
        j0 <= ls@.len(),
    ensures
        (r.0@, r.1 as int) == join_quoted(views(ls@), buf0@, j0 as int),
{
    let mut buf = buf0;
    let mut j = j0;
    while j < ls.len() && has_unclosed_quote(&buf)
        invariant
            j0 <= j <= ls@.len(),
            join_quoted(views(ls@), buf0@, j0 as int) == join_quoted(views(ls@), buf@, j as int),
        decreases ls@.len() - j,
    {
        let mut nb = buf;
        nb.push('\n');
        let ghost base = nb@;
        let mut k: usize = 0;
        while k < ls[j].len()
            invariant
                j < ls@.len(),
                k <= ls@[j as int]@.len(),
                nb@ == base + ls@[j as int]@.take(k as int),
            decreases ls@[j as int]@.len() - k,
        {
            nb.push(ls[j][k]);
            proof {
                assert(ls@[j as int]@.take(k as int + 1) =~= ls@[j as int]@.take(k as int).push(
                    ls@[j as int]@[k as int],
                ));
            }
            k = k + 1;
        }
        proof {
            assert(ls@[j as int]@.take(ls@[j as int]@.len() as int) =~= ls@[j as int]@);
            assert(views(ls@)[j as int] == ls@[j as int]@);
            reveal_strlit("\n");
            assert(nb@ =~= buf@ + "\n"@ + views(ls@)[j as int]);
        }
        buf = nb;
        j = j + 1;
    }
    (buf, j)
}

fn strip_comment_exec(v: &[char]) -> (r: Vec<char>)
    ensures
        r@ == strip_comment(v@),
{
    match find_char_seq(v, " #") {
        Some(h) => {
            proof {
                reveal_strlit(" #");
            }
            let before = crate::text::slice_vec(v, 0, h);
            assert(before@ =~= v@.take(h as int));
            if count_char_exec(&before, '"') % 2 == 0 && count_char_exec(&before, '\'') % 2 == 0 {
                trim_vec(&before)
            } else {
                crate::text::slice_vec(v, 0, v.len())
            }
        },
        None => crate::text::slice_vec(v, 0, v.len()),
    }
}

pub fn rfind_char_exec(s: &[char], c: char) -> (r: Option<usize>)
    ensures
        match r {
            Some(k) => rfind_char(s@, c) == Some(k as int) && k < s@.len(),
            None => rfind_char(s@, c) is None,
        },
{
    let mut k: usize = s.len();
    assert(s@.take(s@.len() as int) =~= s@);
    while k > 0
        invariant
            k <= s@.len(),
            rfind_char(s@, c) == rfind_char(s@.take(k as int), c),
        decreases k,
    {
        proof {
            assert(s@.take(k as int).drop_last() =~= s@.take(k as int - 1));
        }
        if s[k - 1] == c {
            return Some(k - 1);
        }
        k = k - 1;
    }
    None
}

fn unquote_value_exec(v: &[char]) -> (r: Vec<char>)
    ensures
        r@ == unquote_value(v@),
{
    let n = v.len();
    if n >= 2 && ((v[0] == '"' && v[n - 1] == '"') || (v[0] == '\'' && v[n - 1] == '\'')) {
        return crate::text::slice_vec(v, 1, n - 1);
    }
    if n > 0 && (v[0] == '"' || v[0] == '\'') {
        let rest = crate::text::slice_vec(v, 1, n);
        assert(rest@ =~= v@.drop_first());
        match rfind_char_exec(&rest, v[0]) {
            Some(e) => {
                let r = crate::text::slice_vec(&rest, 0, e);
                assert(r@ =~= rest@.take(e as int));
                r
            },
            None => rest,
        }
    } else {
        crate::text::slice_vec(v, 0, n)
    }
}

fn ident_exec(k: &[char]) -> (r: bool)
    ensures
        r == ident(k@),
{
    let mut i: usize = 0;
    while i < k.len()
        invariant
            i <= k@.len(),
            forall|j: int| 0 <= j < i ==> is_ascii_alnum(k@[j]) || k@[j] == '_',
        decreases k@.len() - i,
    {
        if !(crate::text::ascii_alnum(k[i]) || k[i] == '_') {
            return false;
        }
        i = i + 1;
    }
    true
}

fn relevant_key_exec(k: &[char]) -> (r: bool)
    ensures
        r == relevant_key(k@),
{
    crate::text::str_is(k, "pkgname") || crate::text::str_is(k, "version") || crate::text::str_is(
        k,
        "revision",
    ) || crate::text::str_is(k, "archs") || crate::text::str_is(k, "only_for_archs")
        || crate::text::str_is(k, "depends") || crate::text::str_is(k, "hostmakedepends")
        || crate::text::str_is(k, "makedepends") || crate::text::str_is(k, "checkdepends")
        || crate::text::str_is(k, "build_style") || crate::text::str_is(k, "distfiles")
        || crate::text::str_is(k, "checksum") || crate::text::str_is(k, "provides")
        || crate::text::str_is(k, "replaces") || crate::text::str_is(k, "restricted")
        || crate::text::str_is(k, "maintainer") || crate::text::str_is(k, "short_desc")
        || crate::text::str_is(k, "license") || crate::text::str_is(k, "homepage")
}

fn assignment_exec(buf: &[char]) -> (r: Option<(Vec<char>, Vec<char>)>)
    ensures
        match r {
            Some((k, v)) => assignment(buf@) == Some((k@, v@)),
            None => assignment(buf@) is None,
        },
{
    match find_char_seq(buf, "=") {
        None => None,
        Some(eq) => {
            proof {
                reveal_strlit("=");
            }
            assert(eq < buf.len());
            let head = crate::text::slice_vec(buf, 0, eq);
            assert(head@ =~= buf@.take(eq as int));
            let key = trim_vec(&head);
            if !ident_exec(&key) || !relevant_key_exec(&key) {
                return None;
            }
            let start: usize = eq + 1;
            let rest = crate::text::slice_vec(buf, start, buf.len());
            assert(rest@ =~= buf@.skip(eq as int + 1));
            let t = trim_vec(&rest);
            let c = strip_comment_exec(&t);
            let u = unquote_value_exec(&c);
            let v = normalize_exec(&u);
            Some((key, v))
        },
    }
}

fn sub_def_exec(t: &[char]) -> (r: Option<Vec<char>>)
    ensures
        match r {
            Some(n) => sub_def(t@) == Some(n@),
            None => sub_def(t@) is None,
        },
{
    match find_char_seq(t, "()") {
        None => None,
        Some(p) => {
            let head = crate::text::slice_vec(t, 0, p);
            assert(head@ =~= t@.take(p as int));
            let f = trim_vec(&head);
            if !crate::text::str_ends(&f, "_package") {
                return None;
            }
            proof {
                reveal_strlit("_package");
            }
            let g = crate::text::slice_vec(&f, 0, f.len() - 8);
            assert(g@ =~= f@.take(f@.len() - 8));
            let n = trim_vec(&g);
            let ns = string_from(&n);
            if n.len() > 0 && crate::metadata::is_valid_pkgname(ns.as_str()) {
                Some(n)
            } else {
                None
            }
        },
    }
}

/// Scans the lines of a template (see [`scan`]).
fn scan_template(ls: &Vec<Vec<char>>) -> (r: (Vec<(Vec<char>, Vec<char>)>, Vec<(Vec<char>, Vec<(Vec<char>, Vec<char>)>)>))
    ensures
        (kv_view(r.0@), subs_view(r.1@)) == scan(views(ls@), 0, Seq::empty(), Seq::empty()),
{
    let mut vars: Vec<(Vec<char>, Vec<char>)> = Vec::new();
    let mut subs: Vec<(Vec<char>, Vec<(Vec<char>, Vec<char>)>)> = Vec::new();
    let mut i: usize = 0;
    assert(kv_view(vars@) =~= Seq::<(Seq<char>, Seq<char>)>::empty());
    assert(subs_view(subs@) =~= Seq::<(Seq<char>, Seq<(Seq<char>, Seq<char>)>)>::empty());
    while i < ls.len()
        invariant
            i <= ls@.len(),
            scan(views(ls@), 0, Seq::empty(), Seq::empty()) == scan(
                views(ls@),
                i as int,
                kv_view(vars@),
                subs_view(subs@),
            ),
        decreases ls@.len() - i,
    {
        let line = &ls[i];
        proof {
            assert(views(ls@)[i as int] == line@);
        }
        let t = trim_vec(line);
        if t.len() == 0 || t[0] == '#' {
            i = i + 1;
        } else if crate::text::str_contains(&t, "()") {
            let o = count_char_exec(&t, '{');
            let (j, body) = fn_body_exec(ls, i + 1, o, o > 0);
            proof {
                lemma_fn_body_bounds(views(ls@), i + 1, o as int, o > 0, Seq::empty());
            }
            match sub_def_exec(&t) {
                Some(n) => {
                    let ghost before = subs_view(subs@);
                    subs.push((n, body));
                    assert(subs_view(subs@) =~= before.push((n@, kv_view(body@))));
                },
                None => {},
            }
            i = j;
        } else if t[0] == '}' || t[0] == '{' {
            i = i + 1;
        } else {
            let copy = crate::text::slice_vec(line, 0, line.len());
            assert(copy@ =~= line@);
            let (b1, j1) = join_continued_exec(ls, copy, i + 1);
            proof {
                lemma_join_bounds(views(ls@), line@, i + 1);
            }
            let (b2, j2) = join_quoted_exec(ls, b1, j1);
            proof {
                lemma_join_bounds(views(ls@), b1@, j1 as int);
            }
            match assignment_exec(&b2) {
                Some(kv) => {
                    let ghost before = kv_view(vars@);
                    vars.push(kv);
                    assert(kv_view(vars@) =~= before.push((kv.0@, kv.1@)));
                },
                None => {},
            }
            i = j2;
        }
    }
    (vars, subs)
}

pub open spec fn subs_view(v: Seq<(Vec<char>, Vec<(Vec<char>, Vec<char>)>)>) -> Seq<
    (Seq<char>, Seq<(Seq<char>, Seq<char>)>),
> {
    v.map_values(|e: (Vec<char>, Vec<(Vec<char>, Vec<char>)>)| (e.0@, kv_view(e.1@)))
}


// ------------------------------------------------------------------
// From scanned variables to package metadata
// ------------------------------------------------------------------

/// The value a key was last given (later assignments win).
pub open spec fn lookup(vars: Seq<(Seq<char>, Seq<char>)>, k: Seq<char>) -> Option<Seq<char>>
    decreases vars.len(),
{
    if vars.len() == 0 {
        None
    } else if vars.last().0 == k {
        Some(vars.last().1)
    } else {
        lookup(vars.drop_last(), k)
    }
}

/// The whitespace-separated words of a key's value; none when unset.
pub open spec fn list_of(vars: Seq<(Seq<char>, Seq<char>)>, k: Seq<char>) -> Seq<Seq<char>> {
    match lookup(vars, k) {
        Some(v) => split_ws(v),
        None => Seq::empty(),
    }
}

/// A key's value when it is set and not empty.
pub open spec fn nonempty_of(vars: Seq<(Seq<char>, Seq<char>)>, k: Seq<char>) -> Option<Seq<char>> {
    match lookup(vars, k) {
        Some(v) => if v.len() > 0 {
            Some(v)
        } else {
            None
        },
        None => None,
    }
}

/// `str::replace`: every non-overlapping occurrence of `p`, from the left,
/// replaced by `r` (for a non-empty `p`).
pub open spec fn replace_all(s: Seq<char>, p: Seq<char>, r: Seq<char>) -> Seq<char>
    decreases s.len(),
{
    if p.len() == 0 || s.len() < p.len() {
        s
    } else if s.take(p.len() as int) == p {
        r + replace_all(s.skip(p.len() as int), p, r)
    } else {
        seq![s[0]] + replace_all(s.skip(1), p, r)
    }
}

/// `s` without its trailing `*` characters.
pub open spec fn strip_stars(s: Seq<char>) -> Seq<char>
    decreases s.len(),
{
    if s.len() > 0 && s.last() == '*' {
        strip_stars(s.drop_last())
    } else {
        s
    }
}

/// Architecture words with their wildcards dropped, empty ones left out.
pub open spec fn arch_list(ws: Seq<Seq<char>>) -> Seq<Seq<char>>
    decreases ws.len(),
{
    if ws.len() == 0 {
        Seq::empty()
    } else {
        let rest = arch_list(ws.drop_last());
        let a = strip_stars(ws.last());
        if a.len() > 0 {
            rest.push(a)
        } else {
            rest
        }
    }
}

/// The architectures: `only_for_archs`, else `archs`; `all` when that
/// value is missing or empty.
pub open spec fn template_archs(vars: Seq<(Seq<char>, Seq<char>)>) -> Seq<Seq<char>> {
    let raw = match lookup(vars, "only_for_archs"@) {
        Some(v) => v,
        None => match lookup(vars, "archs"@) {
            Some(v) => v,
            None => Seq::empty(),
        },
    };
    if raw.len() == 0 {
        seq!["all"@]
    } else {
        arch_list(split_ws(raw))
    }
}

/// A checksum entry with the `sha256:` prefix added unless it is `SKIP`
/// or already has it.
pub open spec fn checksum_entry(c: Seq<char>) -> Seq<char> {
    if c == "SKIP"@ || has_prefix(c, "sha256:"@) {
        c
    } else {
        "sha256:"@ + c
    }
}

/// The revision: the value when it parses as a `u32`, else 1.
pub open spec fn template_revision(vars: Seq<(Seq<char>, Seq<char>)>) -> u32 {
    match lookup(vars, "revision"@) {
        Some(v) => if crate::vup_index::parses_u32(v) {
            crate::vup_index::u32_value(v) as u32
        } else {
            1
        },
        None => 1,
    }
}

/// The version: the value, or `1.0` when unset.
pub open spec fn template_version(vars: Seq<(Seq<char>, Seq<char>)>) -> Seq<char> {
    match lookup(vars, "version"@) {
        Some(v) => v,
        None => "1.0"@,
    }
}

/// A subpackage's dependency text with the parent's `sourcepkg`,
/// `pkgname`, `version` and `revision` references substituted, braced
/// form first.
pub open spec fn expand_refs(d: Seq<char>, name: Seq<char>, version: Seq<char>, revision: Seq<char>) -> Seq<char> {
    let a = replace_all(d, "${sourcepkg}"@, name);
    let b = replace_all(a, "$sourcepkg"@, name);
    let c = replace_all(b, "${pkgname}"@, name);
    let e = replace_all(c, "$pkgname"@, name);
    let f = replace_all(e, "${version}"@, version);
    let g = replace_all(f, "$version"@, version);
    let h = replace_all(g, "${revision}"@, revision);
    replace_all(h, "$revision"@, revision)
}

/// One subpackage of a template, from its function's variables.
pub open spec fn sub_view(
    n: Seq<char>,
    kv: Seq<(Seq<char>, Seq<char>)>,
    name: Seq<char>,
    version: Seq<char>,
    revision: u32,
) -> SubpackageView {
    SubpackageView {
        pkgname: n,
        depends: match lookup(kv, "depends"@) {
            Some(d) => split_ws(expand_refs(d, name, version, crate::text::decimal(revision as nat))),
            None => Seq::empty(),
        },
        short_desc: nonempty_of(kv, "short_desc"@),
    }
}

/// The subpackages in order of definition, without one named like the
/// parent or like an earlier one.
pub open spec fn template_subs(
    subs: Seq<(Seq<char>, Seq<(Seq<char>, Seq<char>)>)>,
    name: Seq<char>,
    version: Seq<char>,
    revision: u32,
) -> Seq<SubpackageView>
    decreases subs.len(),
{
    if subs.len() == 0 {
        Seq::empty()
    } else {
        let rest = template_subs(subs.drop_last(), name, version, revision);
        let (n, kv) = subs.last();
        if n == name || rest.map_values(|s: SubpackageView| s.pkgname).contains(n) {
            rest
        } else {
            rest.push(sub_view(n, kv, name, version, revision))
        }
    }
}

/// The metadata the scanned variables describe; `None` when `pkgname` is
/// missing or empty.
pub open spec fn template_info(
    vars: Seq<(Seq<char>, Seq<char>)>,
    subs: Seq<(Seq<char>, Seq<(Seq<char>, Seq<char>)>)>,
) -> Option<VurInfoView> {
    match nonempty_of(vars, "pkgname"@) {
        None => None,
        Some(name) => {
            let version = template_version(vars);
            let revision = template_revision(vars);
            Some(
                VurInfoView {
                    format_version: 1,
                    pkgname: name,
                    version,
                    revision,
                    archs: template_archs(vars),
                    subpackages: template_subs(subs, name, version, revision),
                    depends: list_of(vars, "depends"@),
                    hostmakedepends: list_of(vars, "hostmakedepends"@),
                    makedepends: list_of(vars, "makedepends"@),
                    checkdepends: list_of(vars, "checkdepends"@),
                    build_style: nonempty_of(vars, "build_style"@),
                    distfiles: list_of(vars, "distfiles"@),
                    checksum: list_of(vars, "checksum"@).map_values(|c: Seq<char>| checksum_entry(c)),
                    provides: list_of(vars, "provides"@),
                    replaces: list_of(vars, "replaces"@),
                    restricted: match lookup(vars, "restricted"@) {
                        Some(v) => v == "yes"@ || v == "true"@ || v == "1"@,
                        None => false,
                    },
                    maintainer: lookup(vars, "maintainer"@),
                },
            )
        },
    }
}

/// Why a template cannot be read as package metadata.
#[derive(Debug)]
pub enum TemplateError {
    /// No non-empty `pkgname`; the message names the template.
    MissingPkgname(String),
    /// The metadata read breaks a rule of the format; the message says
    /// which.
    Invalid(String),
}

/// What reading the template `content` gives.
pub open spec fn template_result(content: Seq<char>) -> Option<VurInfoView> {
    let sc = scan(lines(content), 0, Seq::empty(), Seq::empty());
    template_info(sc.0, sc.1)
}

fn lookup_exec(vars: &Vec<(Vec<char>, Vec<char>)>, k: &str) -> (r: Option<Vec<char>>)
    ensures
        r matches Some(v) ==> lookup(kv_view(vars@), k@) == Some(v@),
        r is None ==> lookup(kv_view(vars@), k@) is None,
{
    let mut i: usize = vars.len();
    assert(kv_view(vars@).take(vars@.len() as int) =~= kv_view(vars@));
    while i > 0
        invariant
            i <= vars@.len(),
            lookup(kv_view(vars@), k@) == lookup(kv_view(vars@).take(i as int), k@),
        decreases i,
    {
        let ghost pre = kv_view(vars@).take(i as int);
        assert(pre.drop_last() =~= kv_view(vars@).take(i - 1));
        assert(pre.last() == (vars@[i - 1].0@, vars@[i - 1].1@));
        if crate::text::str_is(&vars[i - 1].0, k) {
            let v = crate::text::slice_vec(&vars[i - 1].1, 0, vars[i - 1].1.len());
            assert(v@ =~= vars@[i - 1].1@);
            return Some(v);
        }
        i = i - 1;
    }
    None
}

/// `str::replace` of a non-empty pattern.
fn replace_all_exec(s: &[char], p: &str, r: &[char]) -> (out: Vec<char>)
    requires
        p@.len() > 0,
    ensures
        out@ == replace_all(s@, p@, r@),
{
    let pv = chars_of(p);
    let mut out: Vec<char> = Vec::new();
    let mut i: usize = 0;
    assert(s@.skip(0) =~= s@);
    while i < s.len()
        invariant
            i <= s@.len(),
            pv@ == p@,
            pv@.len() > 0,
            out@ + replace_all(s@.skip(i as int), p@, r@) == replace_all(s@, p@, r@),
        decreases s@.len() - i,
    {
        let ghost t = s@.skip(i as int);
        if pv.len() > s.len() - i {
            assert(replace_all(t, p@, r@) == t);
            let rest = crate::text::slice_vec(s, i, s.len());
            assert(rest@ =~= t);
            let ghost o = out@;
            out.append(&mut rest.clone());
            assert(out@ =~= o + t);
            assert(s@.skip(s@.len() as int) =~= Seq::<char>::empty());
            i = s.len();
        } else if crate::text::occurs_at_exec(s, &pv, i) {
            assert(t.take(p@.len() as int) =~= s@.subrange(i as int, i + p@.len()));
            assert(t.skip(p@.len() as int) =~= s@.skip(i + p@.len()));
            let ghost o = out@;
            let mut rc = crate::text::slice_vec(r, 0, r.len());
            assert(rc@ =~= r@);
            out.append(&mut rc);
            assert(out@ + replace_all(s@.skip(i + p@.len()), p@, r@) =~= o + replace_all(t, p@, r@));
            i = i + pv.len();
        } else {
            assert(t.take(p@.len() as int) =~= s@.subrange(i as int, i + p@.len()));
            assert(t.skip(1) =~= s@.skip(i + 1));
            let ghost o = out@;
            out.push(s[i]);
            assert(out@ + replace_all(s@.skip(i + 1), p@, r@) =~= o + replace_all(t, p@, r@));
            i = i + 1;
        }
    }
    assert(s@.skip(i as int) =~= Seq::<char>::empty());
    assert(out@ + Seq::<char>::empty() =~= out@);
    out
}

/// The words as owned strings.
fn strings_of(ws: &Vec<Vec<char>>) -> (r: Vec<String>)
    ensures
        strs_view(r@) == views(ws@),
{
    let mut r: Vec<String> = Vec::new();
    let mut i: usize = 0;
    while i < ws.len()
        invariant
            i <= ws@.len(),
            strs_view(r@) == views(ws@).take(i as int),
        decreases ws@.len() - i,
    {
        let ghost o = r@;
        r.push(string_from(&ws[i]));
        proof {
            assert(strs_view(r@) =~= strs_view(o).push(ws@[i as int]@));
            assert(views(ws@).take(i + 1) =~= views(ws@).take(i as int).push(ws@[i as int]@));
        }
        i = i + 1;
    }
    assert(views(ws@).take(ws@.len() as int) =~= views(ws@));
    r
}


fn list_exec(vars: &Vec<(Vec<char>, Vec<char>)>, k: &str) -> (r: Vec<String>)
    ensures
        strs_view(r@) == list_of(kv_view(vars@), k@),
{
    match lookup_exec(vars, k) {
        Some(v) => strings_of(&split_ws_of(&v)),
        None => {
            let r: Vec<String> = Vec::new();
            assert(strs_view(r@) =~= Seq::<Seq<char>>::empty());
            r
        },
    }
}

fn nonempty_exec(vars: &Vec<(Vec<char>, Vec<char>)>, k: &str) -> (r: Option<String>)
    ensures
        crate::metadata::opt_view(r) == nonempty_of(kv_view(vars@), k@),
{
    match lookup_exec(vars, k) {
        Some(v) => if v.len() > 0 {
            Some(string_from(&v))
        } else {
            None
        },
        None => None,
    }
}

fn strip_stars_exec(s: &[char]) -> (r: Vec<char>)
    ensures
        r@ == strip_stars(s@),
{
    let mut n: usize = s.len();
    assert(s@.take(n as int) =~= s@);
    while n > 0 && s[n - 1] == '*'
        invariant
            n <= s@.len(),
            strip_stars(s@) == strip_stars(s@.take(n as int)),
        decreases n,
    {
        assert(s@.take(n as int).drop_last() =~= s@.take(n - 1));
        n = n - 1;
    }
    let r = crate::text::slice_vec(s, 0, n);
    assert(r@ =~= s@.take(n as int));
    r
}

fn arch_list_exec(ws: &Vec<Vec<char>>) -> (r: Vec<String>)
    ensures
        strs_view(r@) == arch_list(views(ws@)),
{
    let mut r: Vec<String> = Vec::new();
    let mut i: usize = 0;
    assert(strs_view(r@) =~= Seq::<Seq<char>>::empty());
    assert(views(ws@).take(0) =~= Seq::<Seq<char>>::empty());
    while i < ws.len()
        invariant
            i <= ws@.len(),
            strs_view(r@) == arch_list(views(ws@).take(i as int)),
        decreases ws@.len() - i,
    {
        let ghost o = r@;
        assert(views(ws@).take(i + 1).drop_last() =~= views(ws@).take(i as int));
        assert(views(ws@).take(i + 1).last() == ws@[i as int]@);
        let a = strip_stars_exec(&ws[i]);
        if a.len() > 0 {
            r.push(string_from(&a));
            assert(strs_view(r@) =~= strs_view(o).push(a@));
        }
        i = i + 1;
    }
    assert(views(ws@).take(ws@.len() as int) =~= views(ws@));
    r
}

fn archs_exec(vars: &Vec<(Vec<char>, Vec<char>)>) -> (r: Vec<String>)
    ensures
        strs_view(r@) == template_archs(kv_view(vars@)),
{
    let raw = match lookup_exec(vars, "only_for_archs") {
        Some(v) => v,
        None => match lookup_exec(vars, "archs") {
            Some(v) => v,
            None => Vec::new(),
        },
    };
    if raw.len() == 0 {
        let r = vec!["all".to_string()];
        proof {
            reveal_strlit("all");
        }
        assert(strs_view(r@) =~= seq!["all"@]);
        r
    } else {
        arch_list_exec(&split_ws_of(&raw))
    }
}

fn checksum_exec(vars: &Vec<(Vec<char>, Vec<char>)>) -> (r: Vec<String>)
    ensures
        strs_view(r@) == list_of(kv_view(vars@), "checksum"@).map_values(|c: Seq<char>| checksum_entry(c)),
{
    let raw = list_exec(vars, "checksum");
    let mut r: Vec<String> = Vec::new();
    let mut i: usize = 0;
    while i < raw.len()
        invariant
            i <= raw@.len(),
            strs_view(r@) == strs_view(raw@).take(i as int).map_values(|c: Seq<char>| checksum_entry(c)),
        decreases raw@.len() - i,
    {
        let ghost o = r@;
        let c = &raw[i];
        let cv = chars_of(c.as_str());
        let e = if crate::text::str_is(&cv, "SKIP") || crate::text::str_starts(&cv, "sha256:") {
            c.clone()
        } else {
            crate::text::concat("sha256:", c.as_str())
        };
        proof {
            assert(e@ == checksum_entry(c@));
        }
        r.push(e);
        proof {
            assert(strs_view(r@) =~= strs_view(o).push(e@));
            assert(strs_view(raw@).take(i + 1) =~= strs_view(raw@).take(i as int).push(c@));
            assert(strs_view(raw@).take(i + 1).map_values(|c: Seq<char>| checksum_entry(c)) =~= strs_view(raw@).take(i as int).map_values(|c: Seq<char>| checksum_entry(c)).push(checksum_entry(c@)));
        }
        i = i + 1;
    }
    assert(strs_view(raw@).take(raw@.len() as int) =~= strs_view(raw@));
    r
}

fn revision_exec(vars: &Vec<(Vec<char>, Vec<char>)>) -> (r: u32)
    ensures
        r == template_revision(kv_view(vars@)),
{
    match lookup_exec(vars, "revision") {
        Some(v) => {
            let t = string_from(&v);
            match crate::vup_index::parse_u32(t.as_str()) {
                Some(n) => n,
                None => 1,
            }
        },
        None => 1,
    }
}

fn expand_refs_exec(d: &[char], name: &[char], version: &[char], revision: &[char]) -> (r: Vec<char>)
    ensures
        r@ == expand_refs(d@, name@, version@, revision@),
{
    proof {
        reveal_strlit("${sourcepkg}");
        reveal_strlit("$sourcepkg");
        reveal_strlit("${pkgname}");
        reveal_strlit("$pkgname");
        reveal_strlit("${version}");
        reveal_strlit("$version");
        reveal_strlit("${revision}");
        reveal_strlit("$revision");
    }
    let a = replace_all_exec(d, "${sourcepkg}", name);
    let b = replace_all_exec(&a, "$sourcepkg", name);
    let c = replace_all_exec(&b, "${pkgname}", name);
    let e = replace_all_exec(&c, "$pkgname", name);
    let f = replace_all_exec(&e, "${version}", version);
    let g = replace_all_exec(&f, "$version", version);
    let h = replace_all_exec(&g, "${revision}", revision);
    replace_all_exec(&h, "$revision", revision)
}


fn sub_exec(
    n: &Vec<char>,
    kv: &Vec<(Vec<char>, Vec<char>)>,
    name: &[char],
    version: &[char],
    revision: u32,
) -> (r: Subpackage)
    ensures
        r@ == sub_view(n@, kv_view(kv@), name@, version@, revision),
{
    let depends = match lookup_exec(kv, "depends") {
        Some(d) => {
            let rev = crate::text::decimal_string(revision as u64);
            let rv = chars_of(rev.as_str());
            let e = expand_refs_exec(&d, name, version, &rv);
            strings_of(&split_ws_of(&e))
        },
        None => {
            let r: Vec<String> = Vec::new();
            assert(strs_view(r@) =~= Seq::<Seq<char>>::empty());
            r
        },
    };
    Subpackage { pkgname: string_from(n), depends, short_desc: nonempty_exec(kv, "short_desc") }
}

pub open spec fn sub_views(v: Seq<Subpackage>) -> Seq<SubpackageView> {
    v.map_values(|s: Subpackage| s@)
}

fn subs_exec(
    subs: &Vec<(Vec<char>, Vec<(Vec<char>, Vec<char>)>)>,
    name: &[char],
    version: &[char],
    revision: u32,
) -> (r: Vec<Subpackage>)
    ensures
        sub_views(r@) == template_subs(subs_view(subs@), name@, version@, revision),
{
    let mut out: Vec<Subpackage> = Vec::new();
    let mut i: usize = 0;
    assert(subs_view(subs@).take(0) =~= Seq::<(Seq<char>, Seq<(Seq<char>, Seq<char>)>)>::empty());
    assert(sub_views(out@) =~= Seq::<SubpackageView>::empty());
    while i < subs.len()
        invariant
            i <= subs@.len(),
            sub_views(out@) == template_subs(subs_view(subs@).take(i as int), name@, version@, revision),
        decreases subs@.len() - i,
    {
        let ghost pre = subs_view(subs@).take(i + 1);
        assert(pre.drop_last() =~= subs_view(subs@).take(i as int));
        assert(pre.last() == (subs@[i as int].0@, kv_view(subs@[i as int].1@)));
        let n = &subs[i].0;
        let mut dup = crate::text::chars_eq(n, name);
        let mut j: usize = 0;
        while j < out.len()
            invariant
                j <= out@.len(),
                dup == (n@ == name@ || sub_views(out@).take(j as int).map_values(
                    |s: SubpackageView| s.pkgname,
                ).contains(n@)),
            decreases out@.len() - j,
        {
            proof {
                let a = sub_views(out@).take(j as int).map_values(|s: SubpackageView| s.pkgname);
                let b = sub_views(out@).take(j + 1).map_values(|s: SubpackageView| s.pkgname);
                assert(b =~= a.push(out@[j as int].pkgname@));
                crate::sorting::lemma_push_contains(a, out@[j as int].pkgname@, n@);
            }
            let same = crate::text::chars_eq(&chars_of(out[j].pkgname.as_str()), n);
            if same {
                dup = true;
            }
            j = j + 1;
        }
        assert(sub_views(out@).take(out@.len() as int) =~= sub_views(out@));
        if !dup {
            let sp = sub_exec(n, &subs[i].1, name, version, revision);
            let ghost o = out@;
            out.push(sp);
            assert(sub_views(out@) =~= sub_views(o).push(sp@));
        }
        i = i + 1;
    }
    assert(subs_view(subs@).take(subs@.len() as int) =~= subs_view(subs@));
    out
}

/// Reads a template statically: its top-level assignments of the
/// variables the metadata needs (later ones win, `\` continuations and
/// quoted values spanning lines joined, quotes and trailing comments
/// dropped, whitespace collapsed) and its `<name>_package()` functions.
/// Fails when there is no non-empty `pkgname` (the message names
/// `debug_path`) or when the metadata read breaks a rule of the format.
pub fn parse_template_text(content: &str, debug_path: &str) -> (r: Result<VurInfo, TemplateError>)
    ensures
        match template_result(content@) {
            None => r matches Err(TemplateError::MissingPkgname(m)) && m@ == "template sin pkgname: "@
                + debug_path@,
            Some(v) => match crate::metadata::validation_error(v) {
                Some(e) => r matches Err(TemplateError::Invalid(m)) && m@
                    == crate::metadata::validation_message(v, e),
                None => r matches Ok(info) && info@ == v,
            },
        },
{
    let cs = chars_of(content);
    let ls = lines_of(&cs);
    let (vars, subs) = scan_template(&ls);
    let name = match nonempty_exec(&vars, "pkgname") {
        Some(n) => n,
        None => {
            return Err(TemplateError::MissingPkgname(crate::text::concat("template sin pkgname: ", debug_path)));
        },
    };
    let version = match lookup_exec(&vars, "version") {
        Some(v) => string_from(&v),
        None => "1.0".to_string(),
    };
    let revision = revision_exec(&vars);
    let nv = chars_of(name.as_str());
    let vv = chars_of(version.as_str());
    let subpackages = subs_exec(&subs, &nv, &vv, revision);
    let restricted = match lookup_exec(&vars, "restricted") {
        Some(v) => crate::text::str_is(&v, "yes") || crate::text::str_is(&v, "true") || crate::text::str_is(&v, "1"),
        None => false,
    };
    let maintainer = match lookup_exec(&vars, "maintainer") {
        Some(v) => Some(string_from(&v)),
        None => None,
    };
    let info = VurInfo {
        format_version: 1,
        pkgname: name,
        version,
        revision,
        archs: archs_exec(&vars),
        subpackages,
        depends: list_exec(&vars, "depends"),
        hostmakedepends: list_exec(&vars, "hostmakedepends"),
        makedepends: list_exec(&vars, "makedepends"),
        checkdepends: list_exec(&vars, "checkdepends"),
        build_style: nonempty_exec(&vars, "build_style"),
        distfiles: list_exec(&vars, "distfiles"),
        checksum: checksum_exec(&vars),
        provides: list_exec(&vars, "provides"),
        replaces: list_exec(&vars, "replaces"),
        restricted,
        maintainer,
    };
    proof {
        let sc = scan(lines(content@), 0, Seq::empty(), Seq::empty());
        assert(views(ls@) == lines(content@));
        assert(kv_view(vars@) == sc.0);
        assert(subs_view(subs@) == sc.1);
        assert(info@ == template_info(sc.0, sc.1)->0);
    }
    match info.validation_report() {
        None => Ok(info),
        Some(m) => Err(TemplateError::Invalid(m)),
    }
}

// ------------------------------------------------------------------
// PEM bodies
// ------------------------------------------------------------------

/// The base64 text of a PEM block from line `i`: the trimmed, non-empty
/// lines after a `-----BEGIN` line, up to the first `-----END` line.
pub open spec fn pem_body_from(ls: Seq<Seq<char>>, i: int, inside: bool) -> Seq<char>
    decreases ls.len() - i,
{
    if i < 0 || i >= ls.len() {
        Seq::empty()
    } else {
        let t = trim(ls[i]);
        if has_prefix(t, "-----BEGIN"@) {
            pem_body_from(ls, i + 1, true)
        } else if has_prefix(t, "-----END"@) {
            Seq::empty()
        } else if inside && t.len() > 0 {
            t + pem_body_from(ls, i + 1, inside)
        } else {
            pem_body_from(ls, i + 1, inside)
        }
    }
}

pub open spec fn pem_body(pem: Seq<char>) -> Seq<char> {
    pem_body_from(lines(pem), 0, false)
}

/// What the standard, padded base64 alphabet decodes `text` to; `None`
/// when `text` is not valid base64.
pub uninterp spec fn base64_standard_decoded(text: Seq<char>) -> Option<Seq<u8>>;

/// Decodes with `base64::engine::general_purpose::STANDARD`: the bytes
/// are the decoding of `text`, `None` when the engine rejects it.
#[verifier::external_body]
pub(crate) fn base64_decode(text: &str) -> (r: Option<Vec<u8>>)
    ensures
        match r {
            Some(b) => base64_standard_decoded(text@) == Some(b@),
            None => base64_standard_decoded(text@) is None,
        },
{
    base64::Engine::decode(&base64::engine::general_purpose::STANDARD, text.as_bytes()).ok()
}

/// Why a PEM text gives no DER bytes.
#[derive(Debug)]
pub enum PemError {
    /// No base64 body between the markers.
    NoBody,
    /// The body is not valid base64.
    InvalidBase64,
}

impl PemError {
    pub fn message(&self) -> (r: String)
        ensures
            r@ == (match self {
                PemError::NoBody => "el PEM no contiene cuerpo base64"@,
                PemError::InvalidBase64 => "base64 inválido en el cuerpo del PEM"@,
            }),
    {
        match self {
            PemError::NoBody => "el PEM no contiene cuerpo base64".to_string(),
            PemError::InvalidBase64 => "base64 inválido en el cuerpo del PEM".to_string(),
        }
    }
}

/// The bytes a PEM text holds: its base64 body, decoded.
pub open spec fn pem_der(pem: Seq<char>) -> Result<Seq<u8>, PemError> {
    if pem_body(pem).len() == 0 {
        Err(PemError::NoBody)
    } else {
        match base64_standard_decoded(pem_body(pem)) {
            Some(d) => Ok(d),
            None => Err(PemError::InvalidBase64),
        }
    }
}

/// The DER bytes of a PEM block: its base64 body (see [`pem_body`]),
/// decoded.
pub fn decode_pem_body(pem: &str) -> (r: Result<Vec<u8>, PemError>)
    ensures
        match pem_der(pem@) {
            Ok(d) => r matches Ok(b) && b@ == d,
            Err(e) => r == Err::<Vec<u8>, PemError>(e),
        },
{
    let cs = chars_of(pem);
    let ls = lines_of(&cs);
    let mut body: Vec<char> = Vec::new();
    let mut inside = false;
    let mut ended = false;
    let mut i: usize = 0;
    assert(body@ + pem_body_from(views(ls@), 0, false) =~= pem_body(pem@));
    while i < ls.len()
        invariant
            i <= ls@.len(),
            views(ls@) == lines(pem@),
            !ended ==> body@ + pem_body_from(views(ls@), i as int, inside) == pem_body(pem@),
            ended ==> body@ == pem_body(pem@),
        decreases ls@.len() - i,
    {
        if !ended {
            assert(views(ls@)[i as int] == ls@[i as int]@);
            let t = trim_vec(&ls[i]);
            if str_starts(&t, "-----BEGIN") {
                inside = true;
            } else if str_starts(&t, "-----END") {
                assert(body@ + Seq::<char>::empty() =~= body@);
                ended = true;
            } else if inside && t.len() > 0 {
                let ghost o = body@;
                let mut tc = crate::text::slice_vec(&t, 0, t.len());
                body.append(&mut tc);
                assert(body@ + pem_body_from(views(ls@), i + 1, inside) =~= o + (t@ + pem_body_from(
                    views(ls@),
                    i + 1,
                    inside,
                )));
            }
        }
        i = i + 1;
    }
    proof {
        if !ended {
            assert(body@ + Seq::<char>::empty() =~= body@);
        }
    }
    if body.len() == 0 {
        return Err(PemError::NoBody);
    }
    let text = string_from(&body);
    match base64_decode(text.as_str()) {
        Some(b) => Ok(b),
        None => Err(PemError::InvalidBase64),
    }
}
/// What stands at the place a package's template directory is projected to.
#[derive(Debug, Clone, Copy, PartialEq, Eq, Structural)]
pub enum DestKind {
    /// Nothing.
    Missing,
    /// A real directory; `marked` when it holds the marker of an earlier
    /// projection.
    Dir { marked: bool },
    /// A symbolic link.
    Symlink,
    /// Any other file.
    Other,
}

/// How a package's template directory is projected into the master tree.
#[derive(Debug, Clone, Copy, PartialEq, Eq, Structural)]
pub enum Projection {
    /// Copy it in; nothing is there.
    Copy,
    /// Remove an earlier projection, then copy.
    ReplaceProjection,
    /// Remove the official directory, then copy (an explicit target wins).
    ReplaceOfficial,
    /// Leave the official directory; project nothing.
    Skip,
    /// Remove the link, then copy.
    ReplaceLink,
    /// Remove the file, then copy.
    ReplaceFile,
}

/// Decides a projection. `source` is `None` when the VUR clone has no
/// directory for the package, else whether that directory holds a
/// `template`. An official directory is replaced only for an explicit
/// target (`force`); for a dependency the official tree wins.
pub fn projection_plan(repo: &str, pkgname: &str, source: Option<bool>, dest: DestKind, force: bool) -> (r: Result<
    Projection,
    String,
>)
    ensures
        source is None ==> (r matches Err(m) && m@ == "template no encontrado para "@ + pkgname@),
        source == Some(false) ==> (r matches Err(m) && m@ == "el paquete '"@ + pkgname@ + "' existe en el VUR '"@
            + repo@ + "' como índice .VURINFO pero no incluye una plantilla 'template'; no se puede compilar con xbps-src"@),
        source == Some(true) ==> r == Ok::<Projection, String>(
            match dest {
                DestKind::Missing => Projection::Copy,
                DestKind::Dir { marked } => if marked {
                    Projection::ReplaceProjection
                } else if force {
                    Projection::ReplaceOfficial
                } else {
                    Projection::Skip
                },
                DestKind::Symlink => Projection::ReplaceLink,
                DestKind::Other => Projection::ReplaceFile,
            },
        ),
{
    match source {
        None => Err(crate::text::concat("template no encontrado para ", pkgname)),
        Some(false) => {
            let mut m = crate::text::concat3("el paquete '", pkgname, "' existe en el VUR '");
            crate::text::push_str(&mut m, repo);
            crate::text::push_str(
                &mut m,
                "' como índice .VURINFO pero no incluye una plantilla 'template'; no se puede compilar con xbps-src",
            );
            Err(m)
        },
        Some(true) => Ok(
            match dest {
                DestKind::Missing => Projection::Copy,
                DestKind::Dir { marked } => if marked {
                    Projection::ReplaceProjection
                } else if force {
                    Projection::ReplaceOfficial
                } else {
                    Projection::Skip
                },
                DestKind::Symlink => Projection::ReplaceLink,
                DestKind::Other => Projection::ReplaceFile,
            },
        ),
    }
}

impl TemplateError {
    /// The message.
    pub fn message(&self) -> (r: String)
        ensures
            match self {
                TemplateError::MissingPkgname(m) => r@ == m@,
                TemplateError::Invalid(m) => r@ == m@,
            },
    {
        match self {
            TemplateError::MissingPkgname(m) => m.clone(),
            TemplateError::Invalid(m) => m.clone(),
        }
    }
}

/// Where a package's file lies in a clone: under the layout prefix when
/// there is one.
pub open spec fn pkg_file_path(prefix: Seq<char>, pkg: Seq<char>, file: Seq<char>) -> Seq<char> {
    if prefix.len() == 0 {
        pkg + "/"@ + file
    } else {
        prefix + "/"@ + pkg + "/"@ + file
    }
}

/// The path of a package's file in a clone (see [`pkg_file_path`]).
pub fn pkg_file(prefix: &str, pkg: &str, file: &str) -> (r: String)
    ensures
        r@ == pkg_file_path(prefix@, pkg@, file@),
{
    let mut r = if prefix.is_empty() {
        String::new()
    } else {
        crate::text::concat(prefix, "/")
    };
    push_str(&mut r, pkg);
    push_str(&mut r, "/");
    push_str(&mut r, file);
    r
}

/// What a template read at `loc` gives: its metadata, or why it is skipped.
pub open spec fn template_outcome(loc: Seq<char>, text: Seq<char>) -> Result<VurInfoView, Seq<char>> {
    match template_result(text) {
        None => Err("template sin pkgname: "@ + loc),
        Some(v) => match crate::metadata::validation_error(v) {
            Some(e) => Err(crate::metadata::validation_message(v, e)),
            None => Ok(v),
        },
    }
}

/// The texts read, by their views (`None`: not read).
pub open spec fn opt_texts(v: Seq<Option<String>>) -> Seq<Option<Seq<char>>> {
    v.map_values(|o: Option<String>| crate::metadata::opt_view(o))
}

/// The index a clone's templates give, `texts[i]` being the template of
/// `pkgs[i]` when it could be read: the packages whose template reads and
/// validates, how many templates were read, and a warning for each one
/// skipped.
pub open spec fn templates_index(
    repo: Seq<char>,
    prefix: Seq<char>,
    pkgs: Seq<Seq<char>>,
    texts: Seq<Option<Seq<char>>>,
) -> (Seq<VurInfoView>, nat, Seq<Seq<char>>)
    decreases pkgs.len(),
{
    if pkgs.len() == 0 {
        (Seq::empty(), 0, Seq::empty())
    } else {
        let prev = templates_index(repo, prefix, pkgs.drop_last(), texts.drop_last());
        let loc = repo + ":"@ + pkg_file_path(prefix, pkgs.last(), "template"@);
        match texts.last() {
            None => prev,
            Some(t) => match template_outcome(loc, t) {
                Ok(v) => (prev.0.push(v), prev.1 + 1, prev.2),
                Err(m) => (prev.0, prev.1 + 1, prev.2.push(
                    "advertencia: se ignoró "@ + "template"@ + " en "@ + loc + ": "@ + m,
                )),
            },
        }
    }
}

proof fn lemma_templates_index_count(
    repo: Seq<char>,
    prefix: Seq<char>,
    pkgs: Seq<Seq<char>>,
    texts: Seq<Option<Seq<char>>>,
)
    ensures
        templates_index(repo, prefix, pkgs, texts).1 <= pkgs.len(),
    decreases pkgs.len(),
{
    if pkgs.len() > 0 {
        lemma_templates_index_count(repo, prefix, pkgs.drop_last(), texts.drop_last());
    }
}

/// Reads the index of a clone that has no `.VURINFO` from its templates
/// (see [`templates_index`]).
pub fn index_from_templates(repo: &str, prefix: &str, pkgs: &Vec<String>, texts: &Vec<Option<String>>) -> (r: (
    Vec<VurInfo>,
    usize,
    Vec<String>,
))
    requires
        pkgs@.len() == texts@.len(),
    ensures
        ({
            let t = templates_index(repo@, prefix@, strs_view(pkgs@), opt_texts(texts@));
            &&& crate::cache::infos_view(r.0@) == t.0
            &&& r.1 == t.1
            &&& strs_view(r.2@) == t.2
        }),
{
    let mut ps: Vec<VurInfo> = Vec::new();
    let mut n: usize = 0;
    let mut ws: Vec<String> = Vec::new();
    let mut i: usize = 0;
    while i < pkgs.len()
        invariant
            i <= pkgs@.len(),
            pkgs@.len() == texts@.len(),
            ({
                let t = templates_index(repo@, prefix@, strs_view(pkgs@).take(i as int), opt_texts(texts@).take(i as int));
                &&& crate::cache::infos_view(ps@) == t.0
                &&& n == t.1
                &&& strs_view(ws@) == t.2
            }),
        decreases pkgs@.len() - i,
    {
        let ghost pv = strs_view(pkgs@).take(i as int + 1);
        let ghost tv = opt_texts(texts@).take(i as int + 1);
        proof {
            assert(pv.drop_last() =~= strs_view(pkgs@).take(i as int));
            assert(tv.drop_last() =~= opt_texts(texts@).take(i as int));
            assert(pv.last() == pkgs@[i as int]@);
            assert(tv.last() == crate::metadata::opt_view(texts@[i as int]));
            lemma_templates_index_count(repo@, prefix@, strs_view(pkgs@).take(i as int), opt_texts(texts@).take(i as int));
        }
        match &texts[i] {
            None => {},
            Some(t) => {
                let path = pkg_file(prefix, pkgs[i].as_str(), "template");
                let loc = crate::text::concat3(repo, ":", path.as_str());
                let ghost ps0 = ps@;
                let ghost ws0 = ws@;
                match parse_template_text(t.as_str(), loc.as_str()) {
                    Ok(info) => {
                        ps.push(info);
                        assert(crate::cache::infos_view(ps@) =~= crate::cache::infos_view(ps0).push(
                            ps@[ps@.len() - 1]@,
                        ));
                    },
                    Err(e) => {
                        let m = e.message();
                        let w = skipped_index_warning("template", loc.as_str(), m.as_str());
                        ws.push(w);
                        proof {
                            reveal_strlit("template");
                        }
                        assert(strs_view(ws@) =~= strs_view(ws0).push(ws@[ws@.len() - 1]@));
                    },
                }
                n = n + 1;
            },
        }
        i = i + 1;
    }
    assert(strs_view(pkgs@).take(pkgs@.len() as int) =~= strs_view(pkgs@));
    assert(opt_texts(texts@).take(texts@.len() as int) =~= opt_texts(texts@));
    (ps, n, ws)
}

/// The end of reading a clone's index: it fails when nothing at all was
/// read (no `.VURINFO`, no template); then the templates are tried, and
/// after them it is the error.
pub fn finish_index(repo: &str, packages: Vec<VurInfo>, files_seen: usize) -> (r: Result<Vec<VurInfo>, String>)
    ensures
        packages@.len() == 0 && files_seen == 0 ==> (r matches Err(m) && m@
            == "no se encontró ningún .VURINFO ni template en "@ + repo@),
        !(packages@.len() == 0 && files_seen == 0) ==> (r matches Ok(p) && p@ == packages@),
{
    if packages.len() == 0 && files_seen == 0 {
        Err(crate::text::concat("no se encontró ningún .VURINFO ni template en ", repo))
    } else {
        Ok(packages)
    }
}

} // verus!
