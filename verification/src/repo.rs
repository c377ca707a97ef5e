//! The `--repo` subcommands' decisions: the name and branch of a new
//! repository and its configuration entry, the listing, and what a
//! re-trust of a binary repository checks and registers.
use vstd::prelude::*;
use crate::keys::valid_repo_name;
use crate::metadata::strs_view;
use crate::reposconf::{set_url, RepoEntry};
use crate::text::{chars_of, string_from, trim};
use crate::vur_client::safe_git_url;

verus! {

/// `s` without the run of `c` it ends with.
pub open spec fn strip_trailing(s: Seq<char>, c: char) -> Seq<char>
    decreases s.len(),
{
    if s.len() > 0 && s.last() == c {
        strip_trailing(s.drop_last(), c)
    } else {
        s
    }
}

/// What follows the last `c` in `s` (all of `s` without one).
pub open spec fn after_last(s: Seq<char>, c: char) -> Seq<char>
    decreases s.len(),
{
    if s.len() == 0 {
        s
    } else if s.last() == c {
        Seq::empty()
    } else {
        after_last(s.drop_last(), c).push(s.last())
    }
}

/// Whether `s` ends with `.git`.
pub open spec fn ends_git(s: Seq<char>) -> bool {
    s.len() >= 4 && s[s.len() - 4] == '.' && s[s.len() - 3] == 'g' && s[s.len() - 2] == 'i' && s[s.len() - 1]
        == 't'
}

/// `s` without the `.git` suffixes it ends with.
pub open spec fn strip_git(s: Seq<char>) -> Seq<char>
    decreases s.len(),
{
    if ends_git(s) {
        strip_git(s.take(s.len() - 4))
    } else {
        s
    }
}

/// A repository name from its URL: the last path segment, without
/// trailing slashes or `.git`.
pub open spec fn name_from_url(url: Seq<char>) -> Seq<char> {
    strip_git(after_last(strip_trailing(url, '/'), '/'))
}

/// The length of `s` without its trailing `c`s.
fn trailing_cut(s: &Vec<char>, c: char) -> (n: usize)
    ensures
        n <= s@.len(),
        s@.take(n as int) == strip_trailing(s@, c),
{
    let mut n = s.len();
    assert(s@.take(n as int) =~= s@);
    while n > 0 && s[n - 1] == c
        invariant
            n <= s@.len(),
            strip_trailing(s@.take(n as int), c) == strip_trailing(s@, c),
        decreases n,
    {
        assert(s@.take(n as int).drop_last() =~= s@.take(n as int - 1));
        n = n - 1;
    }
    n
}

pub fn derive_name_from_url(url: &str) -> (r: String)
    ensures
        r@ == name_from_url(url@),
{
    let cs = chars_of(url);
    let end = trailing_cut(&cs, '/');
    let ghost t = cs@.take(end as int);
    let mut start = end;
    while start > 0 && cs[start - 1] != '/'
        invariant
            start <= end <= cs@.len(),
            t == cs@.take(end as int),
            after_last(t, '/') == after_last(cs@.take(start as int), '/') + cs@.subrange(start as int, end as int),
        decreases start,
    {
        proof {
            let p = cs@.take(start as int);
            assert(p.drop_last() =~= cs@.take(start as int - 1));
            assert(cs@.subrange(start as int - 1, end as int) =~= seq![cs@[start as int - 1]] + cs@.subrange(
                start as int,
                end as int,
            ));
            assert(after_last(p, '/') =~= after_last(p.drop_last(), '/').push(p.last()));
            assert(after_last(p.drop_last(), '/').push(p.last()) + cs@.subrange(start as int, end as int)
                =~= after_last(p.drop_last(), '/') + cs@.subrange(start as int - 1, end as int));
        }
        start = start - 1;
    }
    proof {
        let p = cs@.take(start as int);
        if start > 0 {
            assert(after_last(p, '/') =~= Seq::<char>::empty());
        } else {
            assert(p =~= Seq::<char>::empty());
        }
        assert(Seq::<char>::empty() + cs@.subrange(start as int, end as int) =~= cs@.subrange(start as int, end as int));
    }
    let ghost seg = cs@.subrange(start as int, end as int);
    let mut stop = end;
    while stop - start >= 4 && cs[stop - 4] == '.' && cs[stop - 3] == 'g' && cs[stop - 2] == 'i' && cs[stop - 1] == 't'
        invariant
            start <= stop <= end <= cs@.len(),
            seg == cs@.subrange(start as int, end as int),
            strip_git(cs@.subrange(start as int, stop as int)) == strip_git(seg),
        decreases stop,
    {
        proof {
            let w = cs@.subrange(start as int, stop as int);
            assert(ends_git(w));
            assert(w.take(w.len() - 4) =~= cs@.subrange(start as int, stop as int - 4));
        }
        stop = stop - 4;
    }
    let v = crate::text::slice_vec(&cs, start, stop);
    string_from(v.as_slice())
}

// ------------------------------------------------------------------
// `--repo add`
// ------------------------------------------------------------------

/// The message for a URL that is not a safe git URL.
pub open spec fn unsafe_url_message(url: Seq<char>) -> Seq<char> {
    "URL de repositorio git insegura o inválida: '"@ + url + "'"@
}

/// The name a new repository is registered under: the one given, else the
/// one its URL suggests; the name must be valid and the URL a safe git URL.
pub fn repo_add_name(url: &str, name: Option<&str>) -> (r: Result<String, String>)
    ensures
        ({
            let n = match name {
                Some(x) => x@,
                None => name_from_url(url@),
            };
            &&& r is Ok <==> (valid_repo_name(n) && safe_git_url(url@))
            &&& r matches Ok(v) ==> v@ == n
            &&& (valid_repo_name(n) && !safe_git_url(url@)) ==> (r matches Err(m) && m@ == unsafe_url_message(
                url@,
            ))
        }),
{
    let n = match name {
        Some(x) => x.to_owned(),
        None => derive_name_from_url(url),
    };
    match crate::keys::validate_repo_name(n.as_str()) {
        Err(m) => {
            return Err(m);
        },
        Ok(()) => {},
    }
    if !crate::vur_client::is_safe_git_url(url) {
        let m = crate::text::concat3("URL de repositorio git insegura o inválida: '", url, "'");
        return Err(m);
    }
    Ok(n)
}

/// A setting given on the command line counts when it is not blank.
pub open spec fn given(o: Option<Seq<char>>) -> Option<Seq<char>> {
    match o {
        Some(x) => if trim(x).len() > 0 {
            Some(trim(x))
        } else {
            None
        },
        None => None,
    }
}

pub open spec fn opt_str(o: Option<&str>) -> Option<Seq<char>> {
    match o {
        Some(x) => Some(x@),
        None => None,
    }
}

/// A trimmed, non-blank setting.
pub fn given_setting(o: Option<&str>) -> (r: Option<String>)
    ensures
        crate::metadata::opt_view(r) == given(opt_str(o)),
{
    match o {
        Some(x) => {
            let t = crate::text::trim_string(x);
            if t.as_str().is_empty() {
                None
            } else {
                Some(t)
            }
        },
        None => None,
    }
}

/// The branch to clone: the one given with `--branch`, else the remote's
/// default branch when it could be detected, else `main`.
pub fn branch_for(explicit: Option<&str>, detected: Option<&str>) -> (r: String)
    ensures
        r@ == match given(opt_str(explicit)) {
            Some(b) => b,
            None => match detected {
                Some(d) => d@,
                None => "main"@,
            },
        },
{
    match given_setting(explicit) {
        Some(b) => b,
        None => match detected {
            Some(d) => d.to_owned(),
            None => "main".to_string(),
        },
    }
}

/// The configuration entry of a newly added repository: priority 100,
/// enabled, no key pinned and no binary repository yet.
pub fn new_repo_entry(url: &str, branch: String, index_url: Option<&str>) -> (r: RepoEntry)
    ensures
        r.url@ == url@,
        r.branch == Some(branch),
        r.priority == Some(100i64),
        r.key_fingerprint is None,
        r.binary_repo_url is None,
        crate::metadata::opt_view(r.index_url) == given(opt_str(index_url)),
        r.enabled == Some(true),
{
    RepoEntry {
        url: url.to_owned(),
        branch: Some(branch),
        priority: Some(100),
        key_fingerprint: None,
        binary_repo_url: None,
        index_url: given_setting(index_url),
        enabled: Some(true),
    }
}

// ------------------------------------------------------------------
// `--repo list`
// ------------------------------------------------------------------

pub open spec fn list_empty_message() -> Seq<char> {
    "No VURs configured. Add one with: vary --repo add <url>"@
}

pub open spec fn list_header() -> Seq<char> {
    crate::text::pad_right("NAME"@, 20) + " "@ + crate::text::pad_right("PRIO"@, 8) + " "@ + crate::text::pad_right(
        "URL"@,
        45,
    ) + " BINARY"@
}

/// One line of the listing: name, priority, URL, whether binaries are
/// published and, for a disabled repository, a mark.
pub open spec fn list_line(name: Seq<char>, e: RepoEntry) -> Seq<char> {
    let prio = match e.priority {
        Some(p) => p,
        None => 100,
    };
    crate::text::pad_right(name, 20) + " "@ + crate::text::pad_right(crate::text::signed_decimal(prio as int), 8) + " "@
        + crate::text::pad_right(e.url@, 45) + " "@ + (if set_url(e.binary_repo_url) {
        "yes"@
    } else {
        "no"@
    }) + (if crate::reposconf::is_enabled(e) {
        ""@
    } else {
        " (disabled)"@
    })
}

fn list_line_string(name: &str, e: &RepoEntry) -> (r: String)
    ensures
        r@ == list_line(name@, *e),
{
    let mut r = crate::text::pad_right_string(name, 20);
    crate::text::push_str(&mut r, " ");
    let prio = crate::text::decimal_string_i64(e.priority_or(100));
    let p = crate::text::pad_right_string(prio.as_str(), 8);
    crate::text::push_str(&mut r, p.as_str());
    crate::text::push_str(&mut r, " ");
    let u = crate::text::pad_right_string(e.url.as_str(), 45);
    crate::text::push_str(&mut r, u.as_str());
    crate::text::push_str(&mut r, " ");
    if e.has_binary() {
        crate::text::push_str(&mut r, "yes");
    } else {
        crate::text::push_str(&mut r, "no");
    }
    if !e.enabled_or(true) {
        crate::text::push_str(&mut r, " (disabled)");
    }
    proof {
        reveal_strlit("");
        if crate::reposconf::is_enabled(*e) {
            assert(r@ =~= list_line(name@, *e));
        } else {
            assert(r@ =~= list_line(name@, *e));
        }
    }
    r
}

/// The lines `--repo list` prints: a hint when no repository is
/// configured, else a header and the enabled repositories in priority
/// order.
pub fn repo_list_lines(conf: &crate::reposconf::ReposConf) -> (r: Vec<String>)
    requires
        conf.wf(),
    ensures
        conf.vur@.len() == 0 ==> strs_view(r@) == seq![list_empty_message()],
        conf.vur@.len() > 0 ==> exists|s: Seq<(String, RepoEntry)>|
            {
                &&& crate::reposconf::sorted_repos(s)
                &&& forall|x: (String, RepoEntry)| #[trigger] s.contains(x) <==> (conf.vur@.contains(x)
                    && crate::reposconf::is_enabled(x.1))
                &&& strs_view(r@) == seq![list_header()] + s.map_values(
                    |x: (String, RepoEntry)| list_line(x.0@, x.1),
                )
            },
{
    let mut r: Vec<String> = Vec::new();
    if conf.vur.len() == 0 {
        r.push("No VURs configured. Add one with: vary --repo add <url>".to_string());
        assert(strs_view(r@) =~= seq![list_empty_message()]);
        return r;
    }
    let mut h = crate::text::pad_right_string("NAME", 20);
    crate::text::push_str(&mut h, " ");
    let p = crate::text::pad_right_string("PRIO", 8);
    crate::text::push_str(&mut h, p.as_str());
    crate::text::push_str(&mut h, " ");
    let u = crate::text::pad_right_string("URL", 45);
    crate::text::push_str(&mut h, u.as_str());
    crate::text::push_str(&mut h, " BINARY");
    r.push(h);
    let sorted = conf.sorted_by_priority();
    let ghost f = |x: (String, RepoEntry)| list_line(x.0@, x.1);
    assert(strs_view(r@) =~= seq![list_header()] + sorted@.take(0).map_values(f));
    let mut i: usize = 0;
    while i < sorted.len()
        invariant
            i <= sorted@.len(),
            f == (|x: (String, RepoEntry)| list_line(x.0@, x.1)),
            strs_view(r@) == seq![list_header()] + sorted@.take(i as int).map_values(f),
        decreases sorted@.len() - i,
    {
        let line = list_line_string(sorted[i].0.as_str(), &sorted[i].1);
        let ghost before = strs_view(r@);
        r.push(line);
        proof {
            assert(sorted@.take(i as int + 1) =~= sorted@.take(i as int).push(sorted@[i as int]));
            assert(sorted@.take(i as int + 1).map_values(f) =~= sorted@.take(i as int).map_values(f).push(
                f(sorted@[i as int]),
            ));
            assert(strs_view(r@) =~= before.push(line@));
        }
        i = i + 1;
    }
    assert(sorted@.take(sorted@.len() as int) =~= sorted@);
    r
}

// ------------------------------------------------------------------
// `--repo re-trust`
// ------------------------------------------------------------------

/// Why a re-trust cannot go ahead.
pub open spec fn retrust_refusal(name: Seq<char>, entry: Option<RepoEntry>, no_confirm: bool) -> Option<Seq<char>> {
    match entry {
        None => Some("VUR '"@ + name + "' not found"@),
        Some(e) => if !set_url(e.binary_repo_url) && !set_url(e.index_url) {
            Some("'"@ + name
                + "' no es un repo binario (sin binary_repo_url ni index_url): nada que re-confiar"@)
        } else if no_confirm {
            Some(
                "re-trust exige confirmación interactiva de la llave (verifica el fingerprint fuera de banda); re-ejecuta sin --noconfirm/--yes"@,
            )
        } else {
            None
        },
    }
}

/// Checks that a re-trust may go ahead: the repository is configured, it
/// is a binary repository, and the key can be confirmed interactively.
pub fn retrust_check(name: &str, entry: Option<&RepoEntry>, no_confirm: bool) -> (r: Result<(), String>)
    ensures
        match retrust_refusal(
            name@,
            match entry {
                Some(e) => Some(*e),
                None => None,
            },
            no_confirm,
        ) {
            Some(m) => r matches Err(x) && x@ == m,
            None => r is Ok,
        },
{
    match entry {
        None => Err(crate::text::concat3("VUR '", name, "' not found")),
        Some(e) => {
            if !e.has_binary() && !e.has_vup_index() {
                Err(
                    crate::text::concat3(
                        "'",
                        name,
                        "' no es un repo binario (sin binary_repo_url ni index_url): nada que re-confiar",
                    ),
                )
            } else if no_confirm {
                Err(
                    "re-trust exige confirmación interactiva de la llave (verifica el fingerprint fuera de banda); re-ejecuta sin --noconfirm/--yes".to_string(),
                )
            } else {
                Ok(())
            }
        },
    }
}

/// Whether the key being re-trusted is the one already installed
/// (fingerprints compared without regard to case).
pub fn key_unchanged(installed: Option<&str>, current: &str) -> (r: bool)
    ensures
        r == match installed {
            Some(o) => crate::text::lowercase(o@) == crate::text::lowercase(current@),
            None => false,
        },
{
    match installed {
        Some(o) => {
            let a = crate::text::to_lower(o);
            let b = crate::text::to_lower(current);
            let x = chars_of(a.as_str());
            let y = chars_of(b.as_str());
            crate::text::chars_eq(x.as_slice(), y.as_slice())
        },
        None => false,
    }
}

/// The binary repository URLs an `/etc/xbps.d` file for the repository
/// already registers: the non-blank values of its `repository=` lines.
pub open spec fn conf_urls_of(lines: Seq<Seq<char>>) -> Seq<Seq<char>>
    decreases lines.len(),
{
    if lines.len() == 0 {
        Seq::empty()
    } else {
        let rest = conf_urls_of(lines.drop_last());
        let t = trim(lines.last());
        let key = "repository="@;
        if crate::text::has_prefix(t, key) && trim(t.subrange(key.len() as int, t.len() as int)).len() > 0 {
            rest.push(trim(t.subrange(key.len() as int, t.len() as int)))
        } else {
            rest
        }
    }
}

pub fn conf_repository_urls(text: &str) -> (r: Vec<String>)
    ensures
        strs_view(r@) == conf_urls_of(crate::text::lines(text@)),
{
    let cs = chars_of(text);
    let ls = crate::text::lines_of(cs.as_slice());
    let key = chars_of("repository=");
    proof {
        reveal_strlit("repository=");
    }
    let mut r: Vec<String> = Vec::new();
    let mut i: usize = 0;
    while i < ls.len()
        invariant
            i <= ls@.len(),
            key@ == "repository="@,
            crate::text::views(ls@) == crate::text::lines(text@),
            strs_view(r@) == conf_urls_of(crate::text::views(ls@).take(i as int)),
        decreases ls@.len() - i,
    {
        proof {
            let vs = crate::text::views(ls@);
            assert(vs.take(i as int + 1).drop_last() =~= vs.take(i as int));
            assert(vs.take(i as int + 1).last() == ls@[i as int]@);
        }
        let t = crate::text::trim_vec(ls[i].as_slice());
        if crate::text::has_prefix_exec(t.as_slice(), key.as_slice()) {
            let rest = crate::text::slice_vec(t.as_slice(), key.len(), t.len());
            let v = crate::text::trim_vec(rest.as_slice());
            if v.len() > 0 {
                let ghost before = strs_view(r@);
                r.push(string_from(v.as_slice()));
                assert(strs_view(r@) =~= before.push(v@));
            }
        }
        i = i + 1;
    }
    assert(crate::text::views(ls@).take(ls@.len() as int) =~= crate::text::views(ls@));
    r
}

/// The binary repository URLs a VUP index gives for `arch`: one per
/// package with a binary for it, without repeats, in index order.
pub open spec fn vup_urls_of(pkgs: Seq<(String, crate::vup_index::VupPackage)>, arch: Seq<char>) -> Seq<Seq<char>>
    decreases pkgs.len(),
{
    if pkgs.len() == 0 {
        Seq::empty()
    } else {
        let rest = vup_urls_of(pkgs.drop_last(), arch);
        match crate::vup_index::vup_entry(pkgs.last().0@, pkgs.last().1, arch) {
            Some((_, url)) => if trim(url).len() > 0 && !rest.contains(url) {
                rest.push(url)
            } else {
                rest
            },
            None => rest,
        }
    }
}

pub fn vup_repo_urls(idx: &crate::vup_index::VupIndex, arch: &str) -> (r: Vec<String>)
    ensures
        strs_view(r@) == vup_urls_of(idx.packages@, arch@),
{
    let mut r: Vec<String> = Vec::new();
    let mut i: usize = 0;
    while i < idx.packages.len()
        invariant
            i <= idx.packages@.len(),
            strs_view(r@) == vup_urls_of(idx.packages@.take(i as int), arch@),
        decreases idx.packages@.len() - i,
    {
        proof {
            let t1 = idx.packages@.take(i as int + 1);
            assert(t1.drop_last() =~= idx.packages@.take(i as int));
            assert(t1.last() == idx.packages@[i as int]);
        }
        match crate::vup_index::to_vur_info(idx.packages[i].0.as_str(), &idx.packages[i].1, arch) {
            Some((_, url)) => {
                let t = crate::text::trim_string(url.as_str());
                if !t.as_str().is_empty() {
                    let mut seen = false;
                    let mut j: usize = 0;
                    while j < r.len()
                        invariant
                            j <= r@.len(),
                            seen == strs_view(r@).take(j as int).contains(url@),
                        decreases r@.len() - j,
                    {
                        proof {
                            assert(strs_view(r@).take(j as int + 1) =~= strs_view(r@).take(j as int).push(r@[j as int]@));
                            crate::sorting::lemma_push_contains(strs_view(r@).take(j as int), r@[j as int]@, url@);
                        }
                        if r[j] == url {
                            seen = true;
                        }
                        j = j + 1;
                    }
                    assert(strs_view(r@).take(r@.len() as int) =~= strs_view(r@));
                    if !seen {
                        let ghost before = strs_view(r@);
                        r.push(url);
                        assert(strs_view(r@) =~= before.push(r@.last()@));
                    }
                }
            },
            None => {},
        }
        i = i + 1;
    }
    assert(idx.packages@.take(idx.packages@.len() as int) =~= idx.packages@);
    r
}

} // verus!
