//! `vary -R`: which requests are refused before anything runs, and what the
//! installed database forgets once XBPS has removed the packages.
use vstd::prelude::*;
use crate::config::{Args, Config};
use crate::db::InstalledDb;
use crate::metadata::{strs_view, valid_pkgname};
use crate::resolver::dep_base;

verus! {

/// The message for a target that is not a package name.
pub open spec fn invalid_target_message(t: Seq<char>) -> Seq<char> {
    "nombre de paquete inválido: '"@ + t + "' (debe coincidir con ^[a-zA-Z0-9][a-zA-Z0-9._+-]*$)"@
}

/// The first target that is not a valid package name.
pub open spec fn first_invalid(ts: Seq<Seq<char>>) -> Option<Seq<char>>
    decreases ts.len(),
{
    if ts.len() == 0 {
        None
    } else if !valid_pkgname(ts[0]) {
        Some(ts[0])
    } else {
        first_invalid(ts.drop_first())
    }
}

proof fn lemma_first_invalid_at(ts: Seq<Seq<char>>, i: int)
    requires
        0 <= i <= ts.len(),
        forall|j: int| 0 <= j < i ==> valid_pkgname(ts[j]),
    ensures
        first_invalid(ts) == first_invalid(ts.subrange(i, ts.len() as int)),
    decreases i,
{
    if i > 0 {
        assert(ts.drop_first().subrange(i - 1, ts.drop_first().len() as int) =~= ts.subrange(i, ts.len() as int));
        assert forall|j: int| 0 <= j < i - 1 implies valid_pkgname(ts.drop_first()[j]) by {
            assert(ts.drop_first()[j] == ts[j + 1]);
        }
        lemma_first_invalid_at(ts.drop_first(), i - 1);
    } else {
        assert(ts.subrange(0, ts.len() as int) =~= ts);
    }
}

/// Checks that every target is a package name; the first one that is not
/// is named in the error.
pub fn check_targets(targets: &Vec<String>) -> (r: Result<(), String>)
    ensures
        match first_invalid(strs_view(targets@)) {
            Some(t) => r matches Err(m) && m@ == invalid_target_message(t),
            None => r is Ok,
        },
{
    let ghost ts = strs_view(targets@);
    let mut i: usize = 0;
    while i < targets.len()
        invariant
            i <= targets@.len(),
            ts == strs_view(targets@),
            forall|j: int| 0 <= j < i ==> valid_pkgname(ts[j]),
        decreases targets@.len() - i,
    {
        if !crate::metadata::is_valid_pkgname(targets[i].as_str()) {
            proof {
                lemma_first_invalid_at(ts, i as int);
                assert(ts.subrange(i as int, ts.len() as int)[0] == ts[i as int]);
            }
            let m = crate::text::concat3(
                "nombre de paquete inválido: '",
                targets[i].as_str(),
                "' (debe coincidir con ^[a-zA-Z0-9][a-zA-Z0-9._+-]*$)",
            );
            return Err(m);
        }
        i = i + 1;
    }
    proof {
        lemma_first_invalid_at(ts, ts.len() as int);
        assert(ts.subrange(ts.len() as int, ts.len() as int) =~= Seq::<Seq<char>>::empty());
    }
    Ok(())
}

/// Whether an option with either key was given.
pub open spec fn given_opt(args: Args, s1: Seq<char>, s2: Seq<char>) -> bool {
    exists|i: int| 0 <= i < args.args@.len() && (#[trigger] args.args@[i].key@ == s1 || args.args@[i].key@ == s2)
}

/// Why `-R` refuses the request, if it does: options with their own
/// command, no targets, or a target that is not a package name.
pub open spec fn remove_refusal(args: Args, targets: Seq<Seq<char>>) -> Option<Seq<char>> {
    if given_opt(args, "lock"@, "lock"@) {
        Some("--lock no se combina con -R (usa `vary --lock` tras los cambios)"@)
    } else if given_opt(args, "challenge"@, "challenge"@) {
        Some("--challenge no se combina con -R: usa `vary --challenge <pkg> --experimental`"@)
    } else if given_opt(args, "why"@, "why"@) {
        Some("--why no se combina con -R: usa `vary --why <pkg>`"@)
    } else if given_opt(args, "log"@, "log"@) {
        Some("--log no se combina con -R: usa `vary --log [pkg]`"@)
    } else if targets.len() == 0 {
        Some("no targets specified (use -h for help)"@)
    } else {
        match first_invalid(targets) {
            Some(t) => Some(invalid_target_message(t)),
            None => None,
        }
    }
}

/// The checks `-R` makes before removing anything.
pub fn remove_precheck(config: &Config) -> (r: Result<(), String>)
    ensures
        match remove_refusal(config.args, strs_view(config.targets@)) {
            Some(m) => r matches Err(x) && x@ == m,
            None => r is Ok,
        },
{
    if config.args.has_arg("lock", "lock") {
        return Err("--lock no se combina con -R (usa `vary --lock` tras los cambios)".to_string());
    }
    if config.args.has_arg("challenge", "challenge") {
        return Err("--challenge no se combina con -R: usa `vary --challenge <pkg> --experimental`".to_string());
    }
    if config.args.has_arg("why", "why") {
        return Err("--why no se combina con -R: usa `vary --why <pkg>`".to_string());
    }
    if config.args.has_arg("log", "log") {
        return Err("--log no se combina con -R: usa `vary --log [pkg]`".to_string());
    }
    if config.targets.len() == 0 {
        return Err("no targets specified (use -h for help)".to_string());
    }
    check_targets(&config.targets)
}

/// The options handed to `xbps-remove` besides `-R`: `-y` under
/// `--noconfirm`.
pub fn remove_extra_args(no_confirm: bool) -> (r: Vec<String>)
    ensures
        no_confirm ==> strs_view(r@) == seq!["-y"@],
        !no_confirm ==> r@.len() == 0,
{
    let mut r: Vec<String> = Vec::new();
    if no_confirm {
        r.push("-y".to_string());
        assert(strs_view(r@) =~= seq!["-y"@]);
    }
    r
}

/// The database keys of the removed targets: each without its version
/// constraint.
pub open spec fn removed_names(targets: Seq<Seq<char>>) -> Seq<Seq<char>> {
    targets.map_values(|t: Seq<char>| dep_base(t))
}

/// `m` without the keys in `names`.
pub open spec fn without(m: Map<Seq<char>, crate::db::Entry>, names: Seq<Seq<char>>) -> Map<
    Seq<char>,
    crate::db::Entry,
>
    decreases names.len(),
{
    if names.len() == 0 {
        m
    } else {
        without(m, names.drop_last()).remove(names.last())
    }
}

/// After XBPS removed `targets`: drops them from the installed database.
/// Returns the names to record in the journal and whether the database
/// changed.
pub fn forget_removed(db: &mut InstalledDb, targets: &Vec<String>) -> (r: (Vec<String>, bool))
    requires
        old(db).wf(),
    ensures
        final(db).wf(),
        strs_view(r.0@) == removed_names(strs_view(targets@)),
        final(db).view_map() == without(old(db).view_map(), removed_names(strs_view(targets@))),
        r.1 == exists|i: int|
            0 <= i < targets@.len() && old(db).view_map().dom().contains(#[trigger] dep_base(targets@[i]@)),
{
    let ghost m0 = db.view_map();
    let ghost ns = removed_names(strs_view(targets@));
    let mut names: Vec<String> = Vec::new();
    let mut changed = false;
    let mut i: usize = 0;
    while i < targets.len()
        invariant
            i <= targets@.len(),
            db.wf(),
            ns == removed_names(strs_view(targets@)),
            strs_view(names@) == ns.take(i as int),
            db.view_map() == without(m0, ns.take(i as int)),
            changed == exists|j: int| 0 <= j < i && m0.dom().contains(#[trigger] dep_base(targets@[j]@)),
        decreases targets@.len() - i,
    {
        let name = crate::resolver::dep_name(targets[i].as_str());
        let ghost before = db.view_map();
        let was = db.remove(name.as_str());
        proof {
            assert(ns[i as int] == name@);
            assert(ns.take(i as int + 1).drop_last() =~= ns.take(i as int));
            assert(ns.take(i as int + 1).last() == name@);
            // A name already removed earlier is absent now; otherwise presence is as at the start.
            if was && !m0.dom().contains(name@) {
                lemma_without_sub(m0, ns.take(i as int), name@);
            }
            if !was && m0.dom().contains(name@) {
                lemma_without_keeps(m0, ns.take(i as int), name@);
                assert(exists|j: int| 0 <= j < i && ns[j] == name@);
            }
        }
        if was {
            changed = true;
        }
        let ghost nb = names@;
        names.push(name);
        proof {
            assert(strs_view(names@) =~= strs_view(nb).push(ns[i as int]));
            assert(ns.take(i as int + 1) =~= ns.take(i as int).push(ns[i as int]));
            assert(changed == exists|j: int| 0 <= j < i + 1 && m0.dom().contains(#[trigger] dep_base(targets@[j]@)))
                by {
                if changed {
                    if !(exists|j: int| 0 <= j < i && m0.dom().contains(#[trigger] dep_base(targets@[j]@))) {
                        assert(m0.dom().contains(dep_base(targets@[i as int]@)));
                    }
                } else {
                    assert forall|j: int| 0 <= j < i + 1 implies !m0.dom().contains(#[trigger] dep_base(targets@[j]@)) by {
                        if j == i {
                            assert(dep_base(targets@[j]@) == name@);
                        }
                    }
                }
            }
        }
        i = i + 1;
    }
    assert(ns.take(ns.len() as int) =~= ns);
    (names, changed)
}

proof fn lemma_without_sub(m: Map<Seq<char>, crate::db::Entry>, names: Seq<Seq<char>>, k: Seq<char>)
    requires
        !m.dom().contains(k),
    ensures
        !without(m, names).dom().contains(k),
    decreases names.len(),
{
    if names.len() > 0 {
        lemma_without_sub(m, names.drop_last(), k);
    }
}

proof fn lemma_without_keeps(m: Map<Seq<char>, crate::db::Entry>, names: Seq<Seq<char>>, k: Seq<char>)
    requires
        m.dom().contains(k),
        !without(m, names).dom().contains(k),
    ensures
        names.contains(k),
    decreases names.len(),
{
    if names.len() > 0 {
        if names.last() == k {
            assert(names[names.len() - 1] == k);
        } else {
            lemma_without_keeps(m, names.drop_last(), k);
            let j = choose|j: int| 0 <= j < names.drop_last().len() && names.drop_last()[j] == k;
            assert(names[j] == k);
        }
    }
}

} // verus!
