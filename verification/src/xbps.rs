//! Reading what the XBPS query tools print, and the argument lists of the
//! XBPS commands vary runs.
use vstd::prelude::*;
use crate::text::{
    chars_of, first_match_from, is_whitespace, lines, lines_of, split_ws, split_ws_of,
    string_from, trim, trim_start, trim_vec, views, ws_pred,
};
use crate::vur_client::{rfind_char, rfind_char_exec};

verus! {

/// A package a query or search reports.
#[derive(Debug)]
pub struct PkgInfo {
    pub name: String,
    /// `name-version_revision`, as xbps reports it.
    pub pkgver: String,
    pub short_desc: Option<String>,
    pub repository: Option<String>,
    pub installed: bool,
}

/// One line of `xbps-query -Rs`, parsed (see [`parse_search_line`]).
#[derive(Debug)]
pub struct SearchHit {
    pub name: String,
    pub pkgver: String,
    pub short_desc: Option<String>,
    pub repository: Option<String>,
    pub installed: bool,
}

/// What a search hit or a package holds, as mathematical values.
pub ghost struct HitView {
    pub name: Seq<char>,
    pub pkgver: Seq<char>,
    pub short_desc: Option<Seq<char>>,
    pub repository: Option<Seq<char>>,
    pub installed: bool,
}

impl View for SearchHit {
    type V = HitView;

    open spec fn view(&self) -> HitView {
        HitView {
            name: self.name@,
            pkgver: self.pkgver@,
            short_desc: crate::metadata::opt_view(self.short_desc),
            repository: crate::metadata::opt_view(self.repository),
            installed: self.installed,
        }
    }
}

impl View for PkgInfo {
    type V = HitView;

    open spec fn view(&self) -> HitView {
        HitView {
            name: self.name@,
            pkgver: self.pkgver@,
            short_desc: crate::metadata::opt_view(self.short_desc),
            repository: crate::metadata::opt_view(self.repository),
            installed: self.installed,
        }
    }
}

impl PkgInfo {
    /// The package a search hit reports.
    pub fn from_hit(h: SearchHit) -> (r: PkgInfo)
        ensures
            r@ == h@,
    {
        PkgInfo {
            name: h.name,
            pkgver: h.pkgver,
            short_desc: h.short_desc,
            repository: h.repository,
            installed: h.installed,
        }
    }
}

pub open spec fn char_pred(c: char) -> spec_fn(char) -> bool {
    |x: char| x == c
}

/// Position of `c` in `s`, the first one.
pub open spec fn find_char(s: Seq<char>, c: char) -> Option<int> {
    let i = first_match_from(s, char_pred(c), 0);
    if i < s.len() {
        Some(i)
    } else {
        None
    }
}

/// The contents of a leading `[...]` token.
pub open spec fn bracketed(s: Seq<char>) -> Option<Seq<char>> {
    if s.len() > 0 && s[0] == '[' {
        match find_char(s.drop_first(), ']') {
            Some(c) => Some(s.drop_first().take(c)),
            None => None,
        }
    } else {
        None
    }
}

/// What follows a leading `[...]` token, without leading whitespace.
pub open spec fn after_bracketed(s: Seq<char>) -> Option<Seq<char>> {
    if s.len() > 0 && s[0] == '[' {
        match find_char(s.drop_first(), ']') {
            Some(c) => Some(trim_start(s.skip(c + 2))),
            None => None,
        }
    } else {
        None
    }
}

/// One line of `xbps-query -Rs`: `[<mark>] [[<repo>]] <pkgver>[ <desc>]`.
/// The mark is optional (`[*]` and `[x]` mean installed), the repository
/// token too; the name is the pkgver up to its last `-`; a line without
/// pkgver gives nothing.
pub open spec fn search_line(line: Seq<char>) -> Option<HitView> {
    let t = trim(line);
    if t.len() == 0 {
        None
    } else {
        let installed = match bracketed(t) {
            Some(m) => m == "*"@ || m == "x"@,
            None => false,
        };
        let r1 = match bracketed(t) {
            Some(_) => after_bracketed(t)->0,
            None => t,
        };
        let repository = bracketed(r1);
        let r2 = match bracketed(r1) {
            Some(_) => after_bracketed(r1)->0,
            None => r1,
        };
        let e = first_match_from(r2, ws_pred(), 0);
        let pkgver = r2.take(e);
        let desc = trim(r2.skip(e));
        if pkgver.len() == 0 {
            None
        } else {
            Some(
                HitView {
                    name: match rfind_char(pkgver, '-') {
                        Some(k) => pkgver.take(k),
                        None => pkgver,
                    },
                    pkgver,
                    short_desc: if desc.len() > 0 {
                        Some(desc)
                    } else {
                        None
                    },
                    repository,
                    installed,
                },
            )
        }
    }
}

fn find_char_exec(s: &[char], c: char) -> (r: Option<usize>)
    ensures
        match r {
            Some(k) => find_char(s@, c) == Some(k as int),
            None => find_char(s@, c) is None,
        },
{
    let ghost f = char_pred(c);
    let mut i: usize = 0;
    while i < s.len() && s[i] != c
        invariant
            i <= s@.len(),
            f == char_pred(c),
            first_match_from(s@, f, 0) == first_match_from(s@, f, i as int),
        decreases s@.len() - i,
    {
        i = i + 1;
    }
    proof {
        crate::text::lemma_first_match_from(s@, f, 0);
    }
    if i < s.len() {
        Some(i)
    } else {
        None
    }
}

/// Splits off a leading `[...]` token: its contents and the rest.
fn split_bracketed(s: &[char]) -> (r: Option<(Vec<char>, Vec<char>)>)
    ensures
        match r {
            Some((b, a)) => bracketed(s@) == Some(b@) && after_bracketed(s@) == Some(a@),
            None => bracketed(s@) is None,
        },
{
    if s.len() == 0 || s[0] != '[' {
        return None;
    }
    let inner = crate::text::slice_vec(s, 1, s.len());
    assert(inner@ =~= s@.drop_first());
    match find_char_exec(&inner, ']') {
        Some(c) => {
            proof {
                crate::text::lemma_first_match_from(inner@, char_pred(']'), 0);
            }
            let b = crate::text::slice_vec(&inner, 0, c);
            let rest = crate::text::slice_vec(s, c + 2, s.len());
            assert(b@ =~= inner@.take(c as int));
            assert(rest@ =~= s@.skip(c + 2));
            Some((b, crate::text::trim_start_vec(&rest)))
        },
        None => None,
    }
}

/// Parses one line of `xbps-query -Rs` (see [`search_line`]).
pub fn parse_search_line(line: &str) -> (r: Option<SearchHit>)
    ensures
        match search_line(line@) {
            Some(h) => r matches Some(x) && x@ == h,
            None => r is None,
        },
{
    let t = trim_vec(&chars_of(line));
    if t.len() == 0 {
        return None;
    }
    let (installed, r1) = match split_bracketed(&t) {
        Some((m, a)) => (crate::text::str_is(&m, "*") || crate::text::str_is(&m, "x"), a),
        None => (false, t),
    };
    let (repository, r2) = match split_bracketed(&r1) {
        Some((b, a)) => (Some(string_from(&b)), a),
        None => (None, r1),
    };
    let ghost f = ws_pred();
    let mut e: usize = 0;
    while e < r2.len() && !is_whitespace(r2[e])
        invariant
            e <= r2@.len(),
            f == ws_pred(),
            first_match_from(r2@, f, 0) == first_match_from(r2@, f, e as int),
        decreases r2@.len() - e,
    {
        e = e + 1;
    }
    proof {
        crate::text::lemma_first_match_from(r2@, f, 0);
    }
    if e == 0 {
        return None;
    }
    let pkgver = crate::text::slice_vec(&r2, 0, e);
    let rest = crate::text::slice_vec(&r2, e, r2.len());
    assert(pkgver@ =~= r2@.take(e as int));
    assert(rest@ =~= r2@.skip(e as int));
    let desc = trim_vec(&rest);
    let name = match rfind_char_exec(&pkgver, '-') {
        Some(k) => crate::text::slice_vec(&pkgver, 0, k),
        None => crate::text::slice_vec(&pkgver, 0, pkgver.len()),
    };
    proof {
        match rfind_char(pkgver@, '-') {
            Some(k) => assert(name@ =~= pkgver@.take(k)),
            None => assert(name@ =~= pkgver@),
        }
    }
    let short_desc = if desc.len() > 0 {
        Some(string_from(&desc))
    } else {
        None
    };
    Some(
        SearchHit {
            name: string_from(&name),
            pkgver: string_from(&pkgver),
            short_desc,
            repository,
            installed,
        },
    )
}


/// The properties `xbps-query -p pkgver,short_desc,repository` prints, one
/// per line in that order; missing or empty ones are absent, and without a
/// pkgver there is no package.
pub open spec fn installed_props(name: Seq<char>, text: Seq<char>) -> Option<HitView> {
    let ls = lines(text);
    let pkgver = if ls.len() > 0 {
        trim(ls[0])
    } else {
        Seq::empty()
    };
    let desc = if ls.len() > 1 {
        trim(ls[1])
    } else {
        Seq::empty()
    };
    let repo = if ls.len() > 2 {
        trim(ls[2])
    } else {
        Seq::empty()
    };
    if pkgver.len() == 0 {
        None
    } else {
        Some(
            HitView {
                name,
                pkgver,
                short_desc: if desc.len() > 0 {
                    Some(desc)
                } else {
                    None
                },
                repository: if repo.len() > 0 {
                    Some(repo)
                } else {
                    None
                },
                installed: true,
            },
        )
    }
}

fn line_or_empty(ls: &Vec<Vec<char>>, i: usize) -> (r: Vec<char>)
    ensures
        r@ == (if i < ls@.len() {
            trim(ls@[i as int]@)
        } else {
            Seq::empty()
        }),
{
    if i < ls.len() {
        trim_vec(&ls[i])
    } else {
        Vec::new()
    }
}

fn opt_nonempty(v: &Vec<char>) -> (r: Option<String>)
    ensures
        crate::metadata::opt_view(r) == (if v@.len() > 0 {
            Some(v@)
        } else {
            None::<Seq<char>>
        }),
{
    if v.len() > 0 {
        Some(string_from(v))
    } else {
        None
    }
}

/// Reads the properties of an installed package (see [`installed_props`]).
pub fn parse_installed_props(name: &str, text: &str) -> (r: Option<PkgInfo>)
    ensures
        match installed_props(name@, text@) {
            Some(h) => r matches Some(x) && x@ == h,
            None => r is None,
        },
{
    let ls = lines_of(&chars_of(text));
    assert(views(ls@) == lines(text@));
    proof {
        if ls@.len() > 0 {
            assert(views(ls@)[0] == ls@[0]@);
        }
        if ls@.len() > 1 {
            assert(views(ls@)[1] == ls@[1]@);
        }
        if ls@.len() > 2 {
            assert(views(ls@)[2] == ls@[2]@);
        }
    }
    let pkgver = line_or_empty(&ls, 0);
    if pkgver.len() == 0 {
        return None;
    }
    let desc = line_or_empty(&ls, 1);
    let repo = line_or_empty(&ls, 2);
    Some(
        PkgInfo {
            name: name.to_string(),
            pkgver: string_from(&pkgver),
            short_desc: opt_nonempty(&desc),
            repository: opt_nonempty(&repo),
            installed: true,
        },
    )
}

/// The names of the search hits among `ls`, in order, repeated as often
/// as they occur.
pub open spec fn hit_names(ls: Seq<Seq<char>>) -> Seq<Seq<char>>
    decreases ls.len(),
{
    if ls.len() == 0 {
        Seq::empty()
    } else {
        let rest = hit_names(ls.drop_last());
        match search_line(ls.last()) {
            Some(h) => rest.push(h.name),
            None => rest,
        }
    }
}

/// The names in a `-Rs` listing (repository token and version stripped),
/// each once: the package set of a bulk query.
pub fn names_from_search_output(text: &str) -> (r: Vec<String>)
    ensures
        forall|n: Seq<char>|
            crate::metadata::strs_view(r@).contains(n) <==> hit_names(lines(text@)).contains(n),
        forall|i: int, j: int|
            0 <= i < j < r@.len() ==> #[trigger] r@[i]@ != #[trigger] r@[j]@,
{
    let ls = lines_of(&chars_of(text));
    let mut r: Vec<String> = Vec::new();
    let mut i: usize = 0;
    while i < ls.len()
        invariant
            i <= ls@.len(),
            views(ls@) == lines(text@),
            forall|n: Seq<char>|
                crate::metadata::strs_view(r@).contains(n) <==> hit_names(views(ls@).take(i as int)).contains(n),
            forall|a: int, b: int| 0 <= a < b < r@.len() ==> #[trigger] r@[a]@ != #[trigger] r@[b]@,
        decreases ls@.len() - i,
    {
        let ghost pre = views(ls@).take(i as int);
        let ghost cur = views(ls@).take(i + 1);
        assert(cur.drop_last() =~= pre);
        assert(cur.last() == ls@[i as int]@);
        let line = string_from(&ls[i]);
        match parse_search_line(line.as_str()) {
            Some(h) => {
                let mut seen = false;
                let mut k: usize = 0;
                while k < r.len()
                    invariant
                        k <= r@.len(),
                        seen <==> exists|m: int| 0 <= m < k && r@[m]@ == h@.name,
                    decreases r@.len() - k,
                {
                    if crate::text::chars_eq(&chars_of(r[k].as_str()), &chars_of(h.name.as_str())) {
                        seen = true;
                    }
                    k = k + 1;
                }
                proof {
                    assert(hit_names(cur) == hit_names(pre).push(h@.name));
                    assert forall|n: Seq<char>| crate::metadata::strs_view(r@).contains(n) <==> (exists|m: int| 0 <= m < r@.len() && r@[m]@ == n) by {
                        if crate::metadata::strs_view(r@).contains(n) {
                            let m = choose|m: int| 0 <= m < crate::metadata::strs_view(r@).len() && crate::metadata::strs_view(r@)[m] == n;
                            assert(r@[m]@ == n);
                        }
                        if exists|m: int| 0 <= m < r@.len() && r@[m]@ == n {
                            let m = choose|m: int| 0 <= m < r@.len() && r@[m]@ == n;
                            assert(crate::metadata::strs_view(r@)[m] == n);
                        }
                    }
                }
                if !seen {
                    let ghost o = r@;
                    r.push(h.name);
                    proof {
                        assert(crate::metadata::strs_view(r@) =~= crate::metadata::strs_view(o).push(h@.name));
                        assert forall|n: Seq<char>| crate::metadata::strs_view(r@).contains(n) <==> hit_names(cur).contains(n) by {
                            crate::sorting::lemma_push_contains(crate::metadata::strs_view(o), h@.name, n);
                            crate::sorting::lemma_push_contains(hit_names(pre), h@.name, n);
                        }
                    }
                } else {
                    proof {
                        assert forall|n: Seq<char>| crate::metadata::strs_view(r@).contains(n) <==> hit_names(cur).contains(n) by {
                            crate::sorting::lemma_push_contains(hit_names(pre), h@.name, n);
                            if n == h@.name {
                                let m = choose|m: int| 0 <= m < r@.len() && r@[m]@ == h@.name;
                                assert(crate::metadata::strs_view(r@)[m] == n);
                            }
                        }
                    }
                }
            },
            None => {
                assert(hit_names(cur) == hit_names(pre));
            },
        }
        i = i + 1;
    }
    assert(views(ls@).take(ls@.len() as int) =~= views(ls@));
    r
}

/// The package column of `xbps-query -m`: per non-blank line the second
/// whitespace-separated column, or the whole trimmed line when it has one.
pub open spec fn manual_list(ls: Seq<Seq<char>>) -> Seq<Seq<char>>
    decreases ls.len(),
{
    if ls.len() == 0 {
        Seq::empty()
    } else {
        let rest = manual_list(ls.drop_last());
        let t = trim(ls.last());
        let ws = split_ws(t);
        if t.len() == 0 {
            rest
        } else if ws.len() >= 2 {
            rest.push(ws[1])
        } else {
            rest.push(ws[0])
        }
    }
}

/// Reads `xbps-query -m` (see [`manual_list`]).
pub fn manual_names(text: &str) -> (r: Vec<String>)
    ensures
        crate::metadata::strs_view(r@) == manual_list(lines(text@)),
{
    let ls = lines_of(&chars_of(text));
    let mut r: Vec<String> = Vec::new();
    let mut i: usize = 0;
    while i < ls.len()
        invariant
            i <= ls@.len(),
            views(ls@) == lines(text@),
            crate::metadata::strs_view(r@) == manual_list(views(ls@).take(i as int)),
        decreases ls@.len() - i,
    {
        let ghost pre = views(ls@).take(i as int);
        let ghost cur = views(ls@).take(i + 1);
        assert(cur.drop_last() =~= pre);
        assert(cur.last() == ls@[i as int]@);
        let t = trim_vec(&ls[i]);
        if t.len() > 0 {
            let ws = split_ws_of(&t);
            proof {
                crate::text::lemma_split_ws_nonempty(ls@[i as int]@);
            }
            let pick = if ws.len() >= 2 {
                string_from(&ws[1])
            } else {
                string_from(&ws[0])
            };
            proof {
                assert(views(ws@)[0] == ws@[0]@);
                if ws@.len() >= 2 {
                    assert(views(ws@)[1] == ws@[1]@);
                }
            }
            let ghost o = r@;
            r.push(pick);
            assert(crate::metadata::strs_view(r@) =~= crate::metadata::strs_view(o).push(pick@));
        }
        i = i + 1;
    }
    assert(views(ls@).take(ls@.len() as int) =~= views(ls@));
    r
}

/// The repository a line of `xbps-query -L` names, when vary should query
/// it as official: the second column, an `http://`, `https://` or
/// `file://` URL that is not vary's own `hostdir/binpkgs`.
pub open spec fn official_url(line: Seq<char>) -> Option<Seq<char>> {
    let ws = split_ws(line);
    if ws.len() < 2 {
        None
    } else {
        let url = ws[1];
        if !(crate::text::has_prefix(url, "http://"@) || crate::text::has_prefix(url, "https://"@)
            || crate::text::has_prefix(url, "file://"@)) {
            None
        } else if crate::text::contains(url, "hostdir/binpkgs"@) {
            None
        } else {
            Some(url)
        }
    }
}

pub open spec fn official_urls(ls: Seq<Seq<char>>) -> Seq<Seq<char>>
    decreases ls.len(),
{
    if ls.len() == 0 {
        Seq::empty()
    } else {
        let rest = official_urls(ls.drop_last());
        match official_url(ls.last()) {
            Some(u) => rest.push(u),
            None => rest,
        }
    }
}

/// The official repositories in a `xbps-query -L` listing (see
/// [`official_url`]), in order.
pub fn official_repo_urls_from(text: &str) -> (r: Vec<String>)
    ensures
        crate::metadata::strs_view(r@) == official_urls(lines(text@)),
{
    let ls = lines_of(&chars_of(text));
    let mut r: Vec<String> = Vec::new();
    let mut i: usize = 0;
    while i < ls.len()
        invariant
            i <= ls@.len(),
            views(ls@) == lines(text@),
            crate::metadata::strs_view(r@) == official_urls(views(ls@).take(i as int)),
        decreases ls@.len() - i,
    {
        let ghost pre = views(ls@).take(i as int);
        let ghost cur = views(ls@).take(i + 1);
        assert(cur.drop_last() =~= pre);
        assert(cur.last() == ls@[i as int]@);
        let ws = split_ws_of(&ls[i]);
        if ws.len() >= 2 {
            assert(views(ws@)[1] == ws@[1]@);
            let url = &ws[1];
            if (crate::text::str_starts(url, "http://") || crate::text::str_starts(url, "https://")
                || crate::text::str_starts(url, "file://")) && !crate::text::str_contains(
                url,
                "hostdir/binpkgs",
            ) {
                let ghost o = r@;
                r.push(string_from(url));
                assert(crate::metadata::strs_view(r@) =~= crate::metadata::strs_view(o).push(url@));
            }
        }
        i = i + 1;
    }
    assert(views(ls@).take(ls@.len() as int) =~= views(ls@));
    r
}

/// The architecture `xbps-query -R -p architecture base-system` printed:
/// its first line, trimmed, when not empty.
pub fn architecture_from_output(text: &str) -> (r: Option<String>)
    ensures
        match r {
            Some(a) => lines(text@).len() > 0 && a@ == trim(lines(text@)[0]) && a@.len() > 0,
            None => lines(text@).len() == 0 || trim(lines(text@)[0]).len() == 0,
        },
{
    let ls = lines_of(&chars_of(text));
    assert(views(ls@) == lines(text@));
    if ls.len() == 0 {
        return None;
    }
    assert(views(ls@)[0] == ls@[0]@);
    let t = trim_vec(&ls[0]);
    if t.len() == 0 {
        None
    } else {
        Some(string_from(&t))
    }
}

/// Appends copies of `xs`.
fn extend_strings(out: &mut Vec<String>, xs: &Vec<String>)
    ensures
        final(out)@ == old(out)@ + xs@,
{
    let mut i: usize = 0;
    let ghost o = out@;
    while i < xs.len()
        invariant
            i <= xs@.len(),
            out@ == o + xs@.take(i as int),
        decreases xs@.len() - i,
    {
        out.push(xs[i].clone());
        i = i + 1;
        assert(out@ =~= o + xs@.take(i as int));
    }
    assert(xs@.take(xs@.len() as int) =~= xs@);
}

/// `first`, the flags, then `--` and the targets when there are any (the
/// separator keeps a target from reading as an option).
pub open spec fn command_args(first: Seq<char>, targets: Seq<Seq<char>>, flags: Seq<Seq<char>>) -> Seq<
    Seq<char>,
> {
    seq![first] + flags + if targets.len() > 0 {
        seq!["--"@] + targets
    } else {
        Seq::empty()
    }
}

fn command_args_exec(first: &str, targets: &Vec<String>, flags: &Vec<String>) -> (r: Vec<String>)
    ensures
        crate::metadata::strs_view(r@) == command_args(
            first@,
            crate::metadata::strs_view(targets@),
            crate::metadata::strs_view(flags@),
        ),
{
    let mut r: Vec<String> = vec![first.to_string()];
    extend_strings(&mut r, flags);
    if targets.len() > 0 {
        r.push("--".to_string());
        extend_strings(&mut r, targets);
    }
    proof {
        let tv = crate::metadata::strs_view(targets@);
        let fv = crate::metadata::strs_view(flags@);
        if targets@.len() > 0 {
            assert(crate::metadata::strs_view(r@) =~= seq![first@] + fv + (seq!["--"@] + tv));
        } else {
            assert(crate::metadata::strs_view(r@) =~= seq![first@] + fv + Seq::<Seq<char>>::empty());
        }
    }
    r
}

/// The arguments of `xbps-install`: `-S`, the flags, `--`, the targets.
pub fn install_command_args(targets: &Vec<String>, extra_flags: &Vec<String>) -> (r: Vec<String>)
    ensures
        crate::metadata::strs_view(r@) == command_args(
            "-S"@,
            crate::metadata::strs_view(targets@),
            crate::metadata::strs_view(extra_flags@),
        ),
{
    command_args_exec("-S", targets, extra_flags)
}

/// The arguments of `xbps-remove`: `-Ro`, the flags, `--`, the targets.
pub fn remove_command_args(targets: &Vec<String>, extra_flags: &Vec<String>) -> (r: Vec<String>)
    ensures
        crate::metadata::strs_view(r@) == command_args(
            "-Ro"@,
            crate::metadata::strs_view(targets@),
            crate::metadata::strs_view(extra_flags@),
        ),
{
    command_args_exec("-Ro", targets, extra_flags)
}
} // verus!
