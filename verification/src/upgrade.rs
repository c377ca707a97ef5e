//! Upgrading VUR packages: which installed packages have a newer `pkgver`
//! in the merged indexes, the template that each one is built from, the
//! diff of a changed template and the review that gates the upgrade.
use vstd::prelude::*;
use crate::config::Config;
use crate::metadata::VurInfo;
use crate::source::{first_key, keys_of};
use crate::text::{chars_eq, chars_of, has_prefix};

verus! {

/// The text of the unified diff that `diffy` writes from `old` to `new`.
pub uninterp spec fn unified_patch(old: Seq<char>, new: Seq<char>) -> Seq<char>;

/// `diffy::create_patch(old, new)` written out through its `Display`: the
/// patch text, which always starts with the `--- original` and
/// `+++ modified` header lines. What the hunks hold is left to
/// `unified_patch`.
#[verifier::external_body]
fn create_patch_text(old: &str, new: &str) -> (r: String)
    ensures
        r@ == unified_patch(old@, new@),
        has_prefix(r@, "--- original\n+++ modified\n"@),
{
    diffy::create_patch(old, new).to_string()
}

/// The patch from the installed template to the new one; `None` when
/// they are identical.
pub fn template_diff_text(old: &str, new: &str) -> (r: Option<String>)
    ensures
        (r is None) == (old@ == new@),
        r matches Some(p) ==> p@ == unified_patch(old@, new@) && has_prefix(p@, "--- original\n+++ modified\n"@),
{
    let a = chars_of(old);
    let b = chars_of(new);
    if chars_eq(a.as_slice(), b.as_slice()) {
        proof {
            assert(old@ =~= new@);
        }
        None
    } else {
        Some(create_patch_text(old, new))
    }
}

/// A changed template waiting for review before its package is upgraded.
pub struct TemplateDiff {
    pub pkg: String,
    pub repo: String,
    pub patch: String,
}

/// The message of a review that cannot be answered: changed templates, no
/// terminal and no `--yes`.
pub open spec fn review_abort_message() -> Seq<char> {
    "hay cambios de template sin revisar en entorno no interactivo; re-ejecuta con --yes para aceptarlos o revísalos en TTY"@
}

/// Whether the diff at `k` is approved: on a terminal, by the user's
/// answer to it (a missing answer refuses); elsewhere (with `--yes`) always.
pub open spec fn approves(tty: bool, answers: Seq<bool>, k: int) -> bool {
    !tty || (k < answers.len() && answers[k])
}

/// The packages whose diffs are approved, in order.
pub open spec fn approved_pkgs(diffs: Seq<TemplateDiff>, tty: bool, answers: Seq<bool>) -> Seq<Seq<char>>
    decreases diffs.len(),
{
    if diffs.len() == 0 {
        Seq::empty()
    } else {
        let rest = approved_pkgs(diffs.drop_last(), tty, answers);
        if approves(tty, answers, diffs.len() - 1) {
            rest.push(diffs.last().pkg@)
        } else {
            rest
        }
    }
}

/// The review gate for changed templates. On a terminal each diff is
/// approved by the user's answer to it (`answers[k]` for the diff at `k`);
/// elsewhere `--yes` approves them all, and without it the review fails
/// closed.
pub fn review_template_diffs(config: &Config, diffs: &Vec<TemplateDiff>, tty: bool, answers: &Vec<bool>) -> (r: Result<
    Vec<String>,
    String,
>)
    ensures
        r is Err <==> (!tty && !config.no_confirm && diffs@.len() > 0),
        r matches Err(m) ==> m@ == review_abort_message(),
        r matches Ok(v) ==> crate::metadata::strs_view(v@) == approved_pkgs(diffs@, tty, answers@),
{
    if !tty && !config.no_confirm && diffs.len() > 0 {
        return Err(
            "hay cambios de template sin revisar en entorno no interactivo; re-ejecuta con --yes para aceptarlos o revísalos en TTY".to_string(),
        );
    }
    let mut approved: Vec<String> = Vec::new();
    let mut k: usize = 0;
    while k < diffs.len()
        invariant
            k <= diffs@.len(),
            crate::metadata::strs_view(approved@) == approved_pkgs(diffs@.take(k as int), tty, answers@),
        decreases diffs@.len() - k,
    {
        proof {
            assert(diffs@.take(k as int + 1).drop_last() =~= diffs@.take(k as int));
        }
        let yes = if tty {
            k < answers.len() && answers[k]
        } else {
            true
        };
        if yes {
            let ghost before = approved@;
            approved.push(diffs[k].pkg.clone());
            assert(crate::metadata::strs_view(approved@) =~= crate::metadata::strs_view(before).push(diffs@[k as int].pkg@));
        }
        k = k + 1;
    }
    assert(diffs@.take(diffs@.len() as int) =~= diffs@);
    Ok(approved)
}

// ------------------------------------------------------------------
// Which packages are outdated
// ------------------------------------------------------------------

/// The `pkgver` of a package: `<pkgname>-<version>_<revision>`.
pub open spec fn pkgver_of(info: crate::metadata::VurInfoView) -> Seq<char> {
    info.pkgname + "-"@ + info.version + "_"@ + crate::text::decimal(info.revision as nat)
}

/// The names a package installs: its own, then its subpackages'.
pub open spec fn info_names(info: crate::metadata::VurInfoView) -> Seq<Seq<char>> {
    seq![info.pkgname] + info.subpackages.map_values(|s: crate::metadata::SubpackageView| s.pkgname)
}

/// Every name of the indexes with the `pkgver` that its package carries,
/// in merge order (the first entry for a name is the current one).
pub open spec fn version_events(infos: Seq<VurInfo>) -> Seq<(Seq<char>, Seq<char>)>
    decreases infos.len(),
{
    if infos.len() == 0 {
        Seq::empty()
    } else {
        version_events(infos.drop_last()) + info_names(infos.last()@).map_values(
            |n: Seq<char>| (n, pkgver_of(infos.last()@)),
        )
    }
}

/// The `pkgver` the indexes give each name, from the packages of the
/// repositories in priority order; the first entry for a name wins.
pub fn current_pkgvers(infos: &Vec<VurInfo>) -> (r: Vec<(String, String)>)
    ensures
        crate::source_maps::texts_view(r@) == version_events(infos@),
{
    let mut r: Vec<(String, String)> = Vec::new();
    let mut k: usize = 0;
    while k < infos.len()
        invariant
            k <= infos@.len(),
            crate::source_maps::texts_view(r@) == version_events(infos@.take(k as int)),
        decreases infos@.len() - k,
    {
        let info = &infos[k];
        let pv = info.pkgver();
        let ghost r0 = crate::source_maps::texts_view(r@);
        let ghost names = info_names(info@);
        let ghost f = |n: Seq<char>| (n, pkgver_of(info@));
        r.push((info.pkgname.clone(), pv.clone()));
        proof {
            assert(crate::source_maps::texts_view(r@) =~= r0 + names.take(1).map_values(f));
        }
        let mut j: usize = 0;
        while j < info.subpackages.len()
            invariant
                j <= info.subpackages@.len(),
                k < infos@.len(),
                info == &infos@[k as int],
                pv@ == pkgver_of(info@),
                names == info_names(info@),
                f == (|n: Seq<char>| (n, pkgver_of(info@))),
                crate::source_maps::texts_view(r@) == r0 + names.take(j as int + 1).map_values(f),
            decreases info.subpackages@.len() - j,
        {
            let ghost before = crate::source_maps::texts_view(r@);
            r.push((info.subpackages[j].pkgname.clone(), pv.clone()));
            proof {
                let x = names[j as int + 1];
                assert(x == info.subpackages@[j as int].pkgname@);
                assert(names.take(j as int + 2) =~= names.take(j as int + 1).push(x));
                assert(names.take(j as int + 2).map_values(f) =~= names.take(j as int + 1).map_values(f).push(f(x)));
                assert(crate::source_maps::texts_view(r@) =~= before.push((x, pv@)));
                assert(crate::source_maps::texts_view(r@) =~= r0 + names.take(j as int + 2).map_values(f));
            }
            j = j + 1;
        }
        proof {
            assert(names.take(names.len() as int) =~= names);
            assert(infos@.take(k as int + 1).drop_last() =~= infos@.take(k as int));
            assert(infos@.take(k as int + 1).last() == infos@[k as int]);
        }
        k = k + 1;
    }
    assert(infos@.take(infos@.len() as int) =~= infos@);
    r
}

/// The value of the first entry keyed `name`.
pub open spec fn first_value(v: Seq<(String, String)>, name: Seq<char>) -> Option<Seq<char>> {
    let i = first_key(keys_of(v), name);
    if 0 <= i < v.len() {
        Some(v[i].1@)
    } else {
        None
    }
}

/// The installed packages (name, installed version) whose current
/// `pkgver` differs, with that `pkgver`, in the order they were installed.
pub open spec fn outdated_of(installed: Seq<(String, String)>, current: Seq<(String, String)>) -> Seq<
    (Seq<char>, Seq<char>, Seq<char>),
>
    decreases installed.len(),
{
    if installed.len() == 0 {
        Seq::empty()
    } else {
        let rest = outdated_of(installed.drop_last(), current);
        let (n, v) = installed.last();
        match first_value(current, n@) {
            Some(c) => if c != v@ {
                rest.push((n@, v@, c))
            } else {
                rest
            },
            None => rest,
        }
    }
}

/// The installed packages with a newer (different) `pkgver` in the
/// indexes: (name, installed version, current `pkgver`).
pub fn outdated_packages(installed: &Vec<(String, String)>, current: &Vec<(String, String)>) -> (r: Vec<
    (String, String, String),
>)
    ensures
        r@.map_values(|e: (String, String, String)| (e.0@, e.1@, e.2@)) == outdated_of(installed@, current@),
        forall|i: int, j: int|
            0 <= i < installed@.len() && #[trigger] first_entry_at(current@, (#[trigger] installed@[i]).0@, j)
                && current@[j].1@ != installed@[i].1@ ==> triples_view(r@).contains(
                (installed@[i].0@, installed@[i].1@, current@[j].1@),
            ),
        forall|x: (Seq<char>, Seq<char>, Seq<char>)| #[trigger] triples_view(r@).contains(x) ==> exists|
            i: int,
            j: int,
        |
            0 <= i < installed@.len() && #[trigger] first_entry_at(current@, (#[trigger] installed@[i]).0@, j)
                && current@[j].1@ != installed@[i].1@ && x == (installed@[i].0@, installed@[i].1@, current@[j].1@),
{
    let ghost g = |e: (String, String, String)| (e.0@, e.1@, e.2@);
    let mut r: Vec<(String, String, String)> = Vec::new();
    let mut k: usize = 0;
    while k < installed.len()
        invariant
            k <= installed@.len(),
            g == (|e: (String, String, String)| (e.0@, e.1@, e.2@)),
            r@.map_values(g) == outdated_of(installed@.take(k as int), current@),
        decreases installed@.len() - k,
    {
        proof {
            assert(installed@.take(k as int + 1).drop_last() =~= installed@.take(k as int));
            assert(installed@.take(k as int + 1).last() == installed@[k as int]);
        }
        let name = &installed[k].0;
        let version = &installed[k].1;
        match crate::source::find_first_pub(current, name.as_str()) {
            Some(i) => {
                let cur = &current[i].1;
                let a = chars_of(cur.as_str());
                let b = chars_of(version.as_str());
                if !chars_eq(a.as_slice(), b.as_slice()) {
                    let ghost before = r@;
                    r.push((name.clone(), version.clone(), cur.clone()));
                    assert(r@.map_values(g) =~= before.map_values(g).push(g(r@.last())));
                }
            },
            None => {},
        }
        k = k + 1;
    }
    assert(installed@.take(installed@.len() as int) =~= installed@);
    proof {
        assert(triples_view(r@) =~= r@.map_values(g));
        lemma_outdated_complete(installed@, current@);
    }
    r
}

/// Triples by their views.
pub open spec fn triples_view(v: Seq<(String, String, String)>) -> Seq<(Seq<char>, Seq<char>, Seq<char>)> {
    v.map_values(|e: (String, String, String)| (e.0@, e.1@, e.2@))
}

/// The package whose template builds `name`: the last package of the
/// indexes that installs it, if any.
pub open spec fn parent_in(infos: Seq<VurInfo>, name: Seq<char>) -> Option<Seq<char>>
    decreases infos.len(),
{
    if infos.len() == 0 {
        None
    } else if info_names(infos.last()@).contains(name) {
        Some(infos.last()@.pkgname)
    } else {
        parent_in(infos.drop_last(), name)
    }
}

/// The package whose template builds `name` (itself when no package of
/// the indexes installs it).
pub fn template_parent(infos: &Vec<VurInfo>, name: &str) -> (r: String)
    ensures
        r@ == (match parent_in(infos@, name@) {
            Some(p) => p,
            None => name@,
        }),
{
    let target = name.to_owned();
    let mut found: Option<String> = None;
    let mut k: usize = 0;
    while k < infos.len()
        invariant
            k <= infos@.len(),
            target@ == name@,
            crate::metadata::opt_view(found) == parent_in(infos@.take(k as int), name@),
        decreases infos@.len() - k,
    {
        let info = &infos[k];
        let mut hit = info.pkgname == target;
        proof {
            let ns = info_names(info@);
            assert(ns.take(1) =~= seq![info.pkgname@]);
            if hit {
                assert(ns.take(1)[0] == name@);
            }
        }
        let mut j: usize = 0;
        while j < info.subpackages.len()
            invariant
                j <= info.subpackages@.len(),
                k < infos@.len(),
                info == &infos@[k as int],
                target@ == name@,
                hit == info_names(info@).take(j as int + 1).contains(name@),
            decreases info.subpackages@.len() - j,
        {
            proof {
                let ns = info_names(info@);
                assert(ns.take(j as int + 2) =~= ns.take(j as int + 1).push(ns[j as int + 1]));
                assert(ns[j as int + 1] == info.subpackages@[j as int].pkgname@);
                crate::sorting::lemma_push_contains(ns.take(j as int + 1), ns[j as int + 1], name@);
            }
            if info.subpackages[j].pkgname == target {
                hit = true;
            }
            j = j + 1;
        }
        proof {
            let ns = info_names(info@);
            assert(ns.take(ns.len() as int) =~= ns);
            if info.pkgname@ == name@ {
                assert(ns.take(1)[0] == name@);
            }
            assert(infos@.take(k as int + 1).drop_last() =~= infos@.take(k as int));
            assert(infos@.take(k as int + 1).last() == infos@[k as int]);
        }
        if hit {
            found = Some(info.pkgname.clone());
        }
        k = k + 1;
    }
    assert(infos@.take(infos@.len() as int) =~= infos@);
    match found {
        Some(p) => p,
        None => target,
    }
}

/// The installed template of `parent` among those saved before the
/// repositories were refreshed: `(repo, pkgname, text)` entries, the first
/// match wins.
pub fn saved_template(saved: &Vec<(String, String, String)>, parent: &str) -> (r: Option<(String, String)>)
    ensures
        match r {
            Some((repo, text)) => exists|i: int|
                0 <= i < saved@.len() && saved@[i].1@ == parent@ && saved@[i].0@ == repo@ && saved@[i].2@ == text@
                    && forall|j: int| 0 <= j < i ==> saved@[j].1@ != parent@,
            None => forall|i: int| 0 <= i < saved@.len() ==> saved@[i].1@ != parent@,
        },
{
    let p = parent.to_owned();
    let mut i: usize = 0;
    while i < saved.len()
        invariant
            i <= saved@.len(),
            p@ == parent@,
            forall|j: int| 0 <= j < i ==> saved@[j].1@ != parent@,
        decreases saved@.len() - i,
    {
        if saved[i].1 == p {
            return Some((saved[i].0.clone(), saved[i].2.clone()));
        }
        i = i + 1;
    }
    None
}

/// Whether a recorded package is still installed: xbps lists it as
/// installed by hand, or asking xbps for it did not say it is gone (an
/// unanswered query keeps the record).
pub open spec fn still_installed(manual: Seq<Seq<char>>, name: Seq<char>, queried: Option<bool>) -> bool {
    manual.contains(name) || queried != Some(false)
}

/// Whether `x` is one of `names` that is still installed.
pub open spec fn kept_name(names: Seq<String>, manual: Seq<String>, queried: Seq<Option<bool>>, x: Seq<char>) -> bool {
    exists|i: int|
        0 <= i < names.len() && names[i]@ == x && still_installed(
            crate::metadata::strs_view(manual),
            names[i]@,
            queried[i],
        )
}

/// The recorded packages to keep when the database is pruned, in order:
/// `queried[i]` is what asking xbps for `names[i]` said (`None`: no answer).
pub fn prune_keep(names: &Vec<String>, manual: &Vec<String>, queried: &Vec<Option<bool>>) -> (r: Vec<String>)
    requires
        names@.len() == queried@.len(),
    ensures
        forall|i: int|
            0 <= i < names@.len() ==> (#[trigger] still_installed(crate::metadata::strs_view(manual@), names@[i]@, queried@[i])
                ==> crate::metadata::strs_view(r@).contains(names@[i]@)),
        forall|k: int|
            0 <= k < r@.len() ==> #[trigger] kept_name(names@, manual@, queried@, r@[k]@),
{
    let mut r: Vec<String> = Vec::new();
    let ghost mut src: Seq<int> = Seq::empty();
    let mut i: usize = 0;
    while i < names.len()
        invariant
            i <= names@.len(),
            names@.len() == queried@.len(),
            src.len() == r@.len(),
            forall|j: int|
                0 <= j < i ==> (#[trigger] still_installed(crate::metadata::strs_view(manual@), names@[j]@, queried@[j])
                    ==> crate::metadata::strs_view(r@).contains(names@[j]@)),
            forall|k: int|
                0 <= k < r@.len() ==> 0 <= #[trigger] src[k] < i && names@[src[k]]@ == r@[k]@ && still_installed(
                    crate::metadata::strs_view(manual@),
                    names@[src[k]]@,
                    queried@[src[k]],
                ),
        decreases names@.len() - i,
    {
        let keep = crate::db::names_contain(manual, names[i].as_str()) || match queried[i] {
            Some(false) => false,
            _ => true,
        };
        let ghost r0 = r@;
        let ghost s0 = src;
        if keep {
            r.push(names[i].clone());
            proof {
                src = src.push(i as int);
                assert(crate::metadata::strs_view(r@) =~= crate::metadata::strs_view(r0).push(names@[i as int]@));
                assert forall|j: int|
                    0 <= j < i + 1 implies (#[trigger] still_installed(crate::metadata::strs_view(manual@), names@[j]@, queried@[j])
                    ==> crate::metadata::strs_view(r@).contains(names@[j]@)) by {
                    crate::sorting::lemma_push_contains(crate::metadata::strs_view(r0), names@[i as int]@, names@[j]@);
                }
                assert forall|k: int| 0 <= k < r@.len() implies 0 <= #[trigger] src[k] < i + 1 && names@[src[k]]@ == r@[k]@
                    && still_installed(crate::metadata::strs_view(manual@), names@[src[k]]@, queried@[src[k]]) by {
                    if k < r0.len() {
                        assert(r@[k] == r0[k]);
                        assert(src[k] == s0[k]);
                    }
                }
            }
        }
        i = i + 1;
    }
    proof {
        assert forall|k: int| 0 <= k < r@.len() implies #[trigger] kept_name(names@, manual@, queried@, r@[k]@) by {
            let j = src[k];
            assert(0 <= j < names@.len() && names@[j]@ == r@[k]@);
        }
    }
    r
}

/// `current[j]` is the first entry of `current` for `name`.
pub open spec fn first_entry_at(current: Seq<(String, String)>, name: Seq<char>, j: int) -> bool {
    &&& 0 <= j < current.len()
    &&& current[j].0@ == name
    &&& forall|k: int| 0 <= k < j ==> (#[trigger] current[k]).0@ != name
}

proof fn lemma_first_value_at(current: Seq<(String, String)>, name: Seq<char>)
    ensures
        forall|j: int| #[trigger] first_entry_at(current, name, j) ==> first_value(current, name) == Some(current[j].1@),
        first_value(current, name) matches Some(c) ==> exists|j: int|
            #[trigger] first_entry_at(current, name, j) && current[j].1@ == c,
{
    let ks = keys_of(current);
    crate::source::lemma_first_key_bounds(ks, name);
    let f = first_key(ks, name);
    assert forall|j: int| #[trigger] first_entry_at(current, name, j) implies first_value(current, name) == Some(
        current[j].1@,
    ) by {
        assert(ks[j] == name);
        if f < j {
            assert(ks[f] == current[f].0@);
        }
        if j < f {
            assert(ks[j] == current[j].0@);
        }
    }
    if 0 <= f < current.len() {
        assert forall|k: int| 0 <= k < f implies (#[trigger] current[k]).0@ != name by {
            assert(ks[k] == current[k].0@);
        }
        assert(ks[f] == current[f].0@);
        assert(first_entry_at(current, name, f));
    }
}

/// The upgrade finds every outdated package: each installed package whose
/// first entry in the indexes has another `pkgver` is reported with both,
/// and nothing else is reported.
pub proof fn lemma_outdated_complete(installed: Seq<(String, String)>, current: Seq<(String, String)>)
    ensures
        forall|i: int, j: int|
            0 <= i < installed.len() && #[trigger] first_entry_at(current, (#[trigger] installed[i]).0@, j)
                && current[j].1@ != installed[i].1@ ==> outdated_of(installed, current).contains(
                (installed[i].0@, installed[i].1@, current[j].1@),
            ),
        forall|x: (Seq<char>, Seq<char>, Seq<char>)| #[trigger] outdated_of(installed, current).contains(x) ==> exists|
            i: int,
            j: int,
        |
            0 <= i < installed.len() && #[trigger] first_entry_at(current, (#[trigger] installed[i]).0@, j)
                && current[j].1@ != installed[i].1@ && x == (installed[i].0@, installed[i].1@, current[j].1@),
    decreases installed.len(),
{
    if installed.len() > 0 {
        let w = installed.drop_last();
        lemma_outdated_complete(w, current);
        let (n, v) = installed.last();
        let rest = outdated_of(w, current);
        lemma_first_value_at(current, n@);
        let last = installed.len() - 1;
        assert(installed[last] == (n, v));
        assert forall|i: int, j: int|
            0 <= i < installed.len() && #[trigger] first_entry_at(current, (#[trigger] installed[i]).0@, j)
                && current[j].1@ != installed[i].1@ implies outdated_of(installed, current).contains(
            (installed[i].0@, installed[i].1@, current[j].1@),
        ) by {
            if i < last {
                assert(installed[i] == w[i]);
                assert(rest.contains((w[i].0@, w[i].1@, current[j].1@)));
                match first_value(current, n@) {
                    Some(c) => {
                        if c != v@ {
                            crate::sorting::lemma_push_contains(rest, (n@, v@, c), (w[i].0@, w[i].1@, current[j].1@));
                        }
                    },
                    None => {},
                }
            } else {
                assert(first_value(current, n@) == Some(current[j].1@));
                crate::sorting::lemma_push_contains(rest, (n@, v@, current[j].1@), (n@, v@, current[j].1@));
            }
        }
        assert forall|x: (Seq<char>, Seq<char>, Seq<char>)| #[trigger] outdated_of(installed, current).contains(
            x,
        ) implies exists|i: int, j: int|
            0 <= i < installed.len() && #[trigger] first_entry_at(current, (#[trigger] installed[i]).0@, j)
                && current[j].1@ != installed[i].1@ && x == (installed[i].0@, installed[i].1@, current[j].1@) by {
            let o = outdated_of(installed, current);
            match first_value(current, n@) {
                Some(c) => {
                    if c != v@ {
                        crate::sorting::lemma_push_contains(rest, (n@, v@, c), x);
                    }
                    if c != v@ && x == (n@, v@, c) {
                        let j = choose|j: int| #[trigger] first_entry_at(current, n@, j) && current[j].1@ == c;
                        assert(first_entry_at(current, installed[last].0@, j));
                    } else {
                        assert(rest.contains(x));
                        let (i, j) = choose|i: int, j: int|
                            0 <= i < w.len() && #[trigger] first_entry_at(current, (#[trigger] w[i]).0@, j)
                                && current[j].1@ != w[i].1@ && x == (w[i].0@, w[i].1@, current[j].1@);
                        assert(installed[i] == w[i]);
                    }
                },
                None => {
                    assert(rest.contains(x));
                    let (i, j) = choose|i: int, j: int|
                        0 <= i < w.len() && #[trigger] first_entry_at(current, (#[trigger] w[i]).0@, j)
                            && current[j].1@ != w[i].1@ && x == (w[i].0@, w[i].1@, current[j].1@);
                    assert(installed[i] == w[i]);
                },
            }
        }
    }
}

} // verus!
