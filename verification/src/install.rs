//! Decisions the install flow takes around the resolved plan: what is
//! recorded in the database, how many elevations the plan costs, where a
//! worker logs, and which repositories count as official.
use vstd::prelude::*;
use crate::config::Config;
use crate::db::InstallType;
use crate::metadata::strs_view;
use crate::resolver::{Action, ActionView, BinarySource, Plan};
use crate::text::{chars_of, contains, lines, lines_of, trim, views};
use crate::source::{first_key, keys_of};

verus! {

/// Which plan actions leave a record in the database: builds (as source)
/// and VUR binaries (as binary); xbps answers for the rest.
pub open spec fn tracked_type(a: ActionView) -> Option<InstallType> {
    match a {
        ActionView::VulBinary(_) => Some(InstallType::Binary),
        ActionView::Build => Some(InstallType::Source),
        ActionView::Official => None,
    }
}

pub fn track_action(action: &Action) -> (r: Option<InstallType>)
    ensures
        r == tracked_type(action@),
{
    match action {
        Action::Install(BinarySource::VulBinary { .. }) => Some(InstallType::Binary),
        Action::Build => Some(InstallType::Source),
        _ => None,
    }
}

/// The VUR binary repositories the installs of a plan use.
pub open spec fn binary_repos(plan: &Plan) -> Set<Seq<char>> {
    Set::new(
        |r: Seq<char>|
            exists|i: int| 0 <= i < plan.installs@.len() && #[trigger] plan.installs@[i].action@ == ActionView::VulBinary(r),
    )
}

/// Elevations the plan would cost: one repository setup per binary
/// repository not yet registered, and one install transaction when there
/// is any work.
pub fn elevation_estimate(plan: &Plan, registered: &Vec<String>) -> (r: (usize, usize))
    ensures
        r.0 == binary_repos(plan).difference(strs_view(registered@).to_set()).len(),
        r.1 == (if plan.installs@.len() > 0 || plan.builds@.len() > 0 {
            1usize
        } else {
            0usize
        }),
{
    let mut pending: Vec<String> = Vec::new();
    let mut i: usize = 0;
    while i < plan.installs.len()
        invariant
            i <= plan.installs@.len(),
            strs_view(pending@).no_duplicates(),
            forall|r: Seq<char>| #[trigger] strs_view(pending@).contains(r) <==> ((exists|j: int|
                0 <= j < i && #[trigger] plan.installs@[j].action@ == ActionView::VulBinary(r))
                && !strs_view(registered@).contains(r)),
        decreases plan.installs@.len() - i,
    {
        match &plan.installs[i].action {
            Action::Install(BinarySource::VulBinary { repo }) => {
                let rc = chars_of(repo.as_str());
                let mut known = false;
                let mut k: usize = 0;
                while k < registered.len()
                    invariant
                        k <= registered@.len(),
                        rc@ == repo@,
                        known <==> exists|m: int| 0 <= m < k && registered@[m]@ == repo@,
                    decreases registered@.len() - k,
                {
                    if crate::text::chars_eq(&chars_of(registered[k].as_str()), &rc) {
                        known = true;
                    }
                    k = k + 1;
                }
                let mut seen = false;
                let mut k: usize = 0;
                while k < pending.len()
                    invariant
                        k <= pending@.len(),
                        rc@ == repo@,
                        seen <==> exists|m: int| 0 <= m < k && pending@[m]@ == repo@,
                    decreases pending@.len() - k,
                {
                    if crate::text::chars_eq(&chars_of(pending[k].as_str()), &rc) {
                        seen = true;
                    }
                    k = k + 1;
                }
                proof {
                    assert(known <==> strs_view(registered@).contains(repo@)) by {
                        if known {
                            let m = choose|m: int| 0 <= m < registered@.len() && registered@[m]@ == repo@;
                            assert(strs_view(registered@)[m] == repo@);
                        }
                        if strs_view(registered@).contains(repo@) {
                            let m = choose|m: int| 0 <= m < strs_view(registered@).len() && strs_view(registered@)[m] == repo@;
                            assert(registered@[m]@ == repo@);
                        }
                    }
                    assert(seen <==> strs_view(pending@).contains(repo@)) by {
                        if seen {
                            let m = choose|m: int| 0 <= m < pending@.len() && pending@[m]@ == repo@;
                            assert(strs_view(pending@)[m] == repo@);
                        }
                        if strs_view(pending@).contains(repo@) {
                            let m = choose|m: int| 0 <= m < strs_view(pending@).len() && strs_view(pending@)[m] == repo@;
                            assert(pending@[m]@ == repo@);
                        }
                    }
                    assert(plan.installs@[i as int].action@ == ActionView::VulBinary(repo@));
                }
                if !known && !seen {
                    let ghost o = strs_view(pending@);
                    pending.push(repo.clone());
                    proof {
                        assert(strs_view(pending@) =~= o.push(repo@));
                        assert forall|r: Seq<char>| #[trigger] strs_view(pending@).contains(r) <==> ((exists|j: int|
                            0 <= j < i + 1 && #[trigger] plan.installs@[j].action@ == ActionView::VulBinary(r))
                            && !strs_view(registered@).contains(r)) by {
                            crate::sorting::lemma_push_contains(o, repo@, r);
                            if r == repo@ {
                                assert(plan.installs@[i as int].action@ == ActionView::VulBinary(r));
                            }
                        }
                        assert forall|a: int, b: int| 0 <= a < b < strs_view(pending@).len() implies strs_view(pending@)[a] != strs_view(pending@)[b] by {
                            if b == o.len() {
                                assert(o[a] == strs_view(pending@)[a]);
                                assert(o.contains(o[a]));
                            }
                        }
                    }
                } else {
                    proof {
                        assert forall|r: Seq<char>| #[trigger] strs_view(pending@).contains(r) <==> ((exists|j: int|
                            0 <= j < i + 1 && #[trigger] plan.installs@[j].action@ == ActionView::VulBinary(r))
                            && !strs_view(registered@).contains(r)) by {
                            if r == repo@ {
                                assert(plan.installs@[i as int].action@ == ActionView::VulBinary(r));
                            }
                        }
                    }
                }
            },
            _ => {
                proof {
                    assert forall|r: Seq<char>| #[trigger] strs_view(pending@).contains(r) <==> ((exists|j: int|
                        0 <= j < i + 1 && #[trigger] plan.installs@[j].action@ == ActionView::VulBinary(r))
                        && !strs_view(registered@).contains(r)) by {
                        assert(plan.installs@[i as int].action@ != ActionView::VulBinary(r));
                    }
                }
            },
        }
        i = i + 1;
    }
    proof {
        let s = binary_repos(plan).difference(strs_view(registered@).to_set());
        assert(strs_view(pending@).to_set() =~= s) by {
            assert forall|r: Seq<char>| strs_view(pending@).to_set().contains(r) <==> s.contains(r) by {
                assert(strs_view(registered@).to_set().contains(r) <==> strs_view(registered@).contains(r));
            }
        }
        strs_view(pending@).unique_seq_to_set();
    }
    let t: usize = if plan.installs.len() > 0 || plan.builds.len() > 0 {
        1
    } else {
        0
    };
    (pending.len(), t)
}

/// Where a build worker logs: under the logs directory with its slot in
/// the name; else beside the default log with `.w<slot>` appended; else
/// nowhere (the terminal).
pub fn worker_log_file(logs_dir: Option<&str>, log_default: Option<&str>, sb: &crate::masterdir::WorkerSandbox) -> (r: Option<String>)
    ensures
        match logs_dir {
            Some(d) => r matches Some(p) && p@ == crate::paths::join_path(
                d@,
                "xbps-src-w"@ + crate::text::decimal(sb.slot_of()) + ".log"@,
            ),
            None => match log_default {
                Some(p) => r matches Some(q) && q@ == p@ + ".w"@ + crate::text::decimal(sb.slot_of()),
                None => r is None,
            },
        },
{
    match logs_dir {
        Some(d) => Some(sb.log_file(d)),
        None => match log_default {
            Some(p) => {
                let mut s = p.to_string();
                crate::text::push_str(&mut s, ".w");
                crate::text::push_str(&mut s, crate::text::decimal_string(sb.slot() as u64).as_str());
                Some(s)
            },
            None => None,
        },
    }
}

/// Whether `xbps-query -R --property=repository` names a repository other
/// than vary's own: a non-blank line that is neither under
/// `hostdir/binpkgs` nor the excluded path.
pub open spec fn names_official_repo(ls: Seq<Seq<char>>, exclude: Seq<char>) -> bool {
    exists|i: int|
        0 <= i < ls.len() && trim(#[trigger] ls[i]).len() > 0 && !contains(trim(ls[i]), "hostdir/binpkgs"@) && !(
        exclude.len() > 0 && trim(ls[i]) == exclude)
}

/// Reads the repository property output (see [`names_official_repo`]).
pub fn official_repository_listed(text: &str, exclude: &str) -> (r: bool)
    ensures
        r == names_official_repo(lines(text@), exclude@),
{
    let ls = lines_of(&chars_of(text));
    let ex = chars_of(exclude);
    let mut i: usize = 0;
    while i < ls.len()
        invariant
            i <= ls@.len(),
            views(ls@) == lines(text@),
            ex@ == exclude@,
            forall|j: int| 0 <= j < i ==> !(trim(#[trigger] views(ls@)[j]).len() > 0 && !contains(
                trim(views(ls@)[j]),
                "hostdir/binpkgs"@,
            ) && !(exclude@.len() > 0 && trim(views(ls@)[j]) == exclude@)),
        decreases ls@.len() - i,
    {
        assert(views(ls@)[i as int] == ls@[i as int]@);
        let l = crate::text::trim_vec(&ls[i]);
        if l.len() > 0 && !crate::text::str_contains(&l, "hostdir/binpkgs") && !(ex.len() > 0
            && crate::text::chars_eq(&l, &ex)) {
            return true;
        }
        i = i + 1;
    }
    false
}

/// The file name of a built package: `<pkgver>.<arch>.xbps`.
pub fn artifact_file_name(pkgver: &str, arch: &str) -> (r: String)
    ensures
        r@ == pkgver@ + "."@ + arch@ + ".xbps"@,
{
    let mut s = pkgver.to_string();
    crate::text::push_str(&mut s, ".");
    crate::text::push_str(&mut s, arch);
    crate::text::push_str(&mut s, ".xbps");
    s
}

/// Why `-S` (and `-Sw`) refuses its targets, if it does.
pub open spec fn install_refusal(targets: Seq<Seq<char>>) -> Option<Seq<char>> {
    if targets.len() == 0 {
        Some("no targets specified"@)
    } else {
        match crate::remove::first_invalid(targets) {
            Some(t) => Some(crate::remove::invalid_target_message(t)),
            None => None,
        }
    }
}

/// The checks `-S` and `-Sw` make on their targets before anything runs.
pub fn install_precheck(targets: &Vec<String>) -> (r: Result<(), String>)
    ensures
        match install_refusal(crate::metadata::strs_view(targets@)) {
            Some(m) => r matches Err(x) && x@ == m,
            None => r is Ok,
        },
        r is Ok <==> (targets@.len() > 0 && forall|i: int|
            0 <= i < targets@.len() ==> crate::metadata::pkgname_pattern(#[trigger] targets@[i]@)),
{
    proof {
        lemma_install_accepts_package_names(crate::metadata::strs_view(targets@));
        assert forall|i: int| 0 <= i < targets@.len() implies crate::metadata::strs_view(targets@)[i]
            == #[trigger] targets@[i]@ by {}
    }
    if targets.len() == 0 {
        return Err("no targets specified".to_string());
    }
    crate::remove::check_targets(targets)
}

/// The options that change what `-S` means, which `--print` refuses.
pub open spec fn print_conflict(args: crate::config::Args) -> Option<Seq<char>> {
    if crate::remove::given_opt(args, "u"@, "sysupgrade"@) {
        Some("u"@)
    } else if crate::remove::given_opt(args, "s"@, "search"@) {
        Some("s"@)
    } else if crate::remove::given_opt(args, "i"@, "info"@) {
        Some("i"@)
    } else if crate::remove::given_opt(args, "w"@, "downloadonly"@) {
        Some("w"@)
    } else {
        None
    }
}

/// Why `-Sp` refuses the request, if it does.
pub open spec fn print_refusal(args: crate::config::Args, targets: Seq<Seq<char>>) -> Option<Seq<char>> {
    match print_conflict(args) {
        Some(short) => Some("--print no se combina con -"@ + short + " (solo `-Sp <pkg>`)"@),
        None => if targets.len() == 0 {
            Some(
                "--print solo soporta `-Sp <pkg>` con targets (para upgrades no hay plan imprimible aún)"@,
            )
        } else {
            match crate::remove::first_invalid(targets) {
                Some(t) => Some(crate::remove::invalid_target_message(t)),
                None => None,
            }
        },
    }
}

/// The checks `-Sp` makes before resolving.
pub fn print_precheck(config: &Config) -> (r: Result<(), String>)
    ensures
        match print_refusal(config.args, crate::metadata::strs_view(config.targets@)) {
            Some(m) => r matches Err(x) && x@ == m,
            None => r is Ok,
        },
{
    if config.args.has_arg("u", "sysupgrade") {
        return Err(crate::text::concat3("--print no se combina con -", "u", " (solo `-Sp <pkg>`)"));
    }
    if config.args.has_arg("s", "search") {
        return Err(crate::text::concat3("--print no se combina con -", "s", " (solo `-Sp <pkg>`)"));
    }
    if config.args.has_arg("i", "info") {
        return Err(crate::text::concat3("--print no se combina con -", "i", " (solo `-Sp <pkg>`)"));
    }
    if config.args.has_arg("w", "downloadonly") {
        return Err(crate::text::concat3("--print no se combina con -", "w", " (solo `-Sp <pkg>`)"));
    }
    if config.targets.len() == 0 {
        return Err(
            "--print solo soporta `-Sp <pkg>` con targets (para upgrades no hay plan imprimible aún)".to_string(),
        );
    }
    crate::remove::check_targets(&config.targets)
}

/// A build's `pkgver` as a text: `<pkgname>-<version>_<revision>`.
pub open spec fn item_pkgver(item: crate::resolver::PlanItem) -> Seq<char> {
    item.info.pkgname@ + "-"@ + item.info.version@ + "_"@ + crate::text::decimal(item.info.revision as nat)
}

/// Whether a build is still to run: unless forced, not when exactly its
/// `pkgver` is installed.
pub open spec fn build_wanted(item: crate::resolver::PlanItem, installed: Option<String>, force: bool) -> bool {
    force || crate::metadata::opt_view(installed) != Some(item_pkgver(item))
}

/// The builds of a plan still to run, by position, in plan order.
/// `installed[i]` is the `pkgver` installed of `builds[i]`'s package;
/// `force` is `--force-build` or `force_rebuild`.
pub fn builds_to_run(builds: &Vec<crate::resolver::PlanItem>, installed: &Vec<Option<String>>, force: bool) -> (r: Vec<usize>)
    requires
        builds@.len() == installed@.len(),
    ensures
        forall|a: int, b: int| 0 <= a < b < r@.len() ==> r@[a] < r@[b],
        forall|k: int| 0 <= k < r@.len() ==> r@[k] < builds@.len(),
        forall|i: int|
            0 <= i < builds@.len() ==> (r@.contains(i as usize) <==> build_wanted(
                #[trigger] builds@[i],
                installed@[i],
                force,
            )),
{
    let mut r: Vec<usize> = Vec::new();
    let mut i: usize = 0;
    while i < builds.len()
        invariant
            i <= builds@.len(),
            builds@.len() == installed@.len(),
            forall|a: int, b: int| 0 <= a < b < r@.len() ==> r@[a] < r@[b],
            forall|k: int| 0 <= k < r@.len() ==> r@[k] < i,
            forall|j: int|
                0 <= j < i ==> (r@.contains(j as usize) <==> build_wanted(
                    #[trigger] builds@[j],
                    installed@[j],
                    force,
                )),
        decreases builds@.len() - i,
    {
        let wanted = if force {
            true
        } else {
            match &installed[i] {
                None => true,
                Some(cur) => {
                    let pv = builds[i].info.pkgver();
                    !crate::text::chars_eq(chars_of(cur.as_str()).as_slice(), chars_of(pv.as_str()).as_slice())
                },
            }
        };
        let ghost r0 = r@;
        if wanted {
            r.push(i);
        }
        proof {
            assert forall|j: int|
                0 <= j < i + 1 implies (r@.contains(j as usize) <==> build_wanted(
                #[trigger] builds@[j],
                installed@[j],
                force,
            )) by {
                if wanted {
                    crate::sorting::lemma_push_contains(r0, i, j as usize);
                }
                if j < i {
                    if r@.contains(j as usize) {
                        let m = choose|m: int| 0 <= m < r@.len() && r@[m] == j as usize;
                        if m == r0.len() {
                            assert(r@[m] == i);
                        } else {
                            assert(r0[m] == j as usize);
                        }
                    }
                } else {
                    if r0.contains(j as usize) {
                        let m = choose|m: int| 0 <= m < r0.len() && r0[m] == j as usize;
                        assert(r0[m] < i);
                    }
                    if !wanted {
                        assert(r@ == r0);
                    }
                }
            }
        }
        i = i + 1;
    }
    r
}

/// Whether the user asked for a build by name: a target names its package,
/// the name it was asked for by, or one of its subpackages. Only such builds
/// may replace an official template in the master tree.
pub open spec fn explicit_build(targets: Seq<Seq<char>>, item: crate::resolver::PlanItem) -> bool {
    exists|t: int|
        0 <= t < targets.len() && (targets[t] == item.info.pkgname@ || targets[t] == item.name@ || exists|s: int|
            0 <= s < item.info.subpackages@.len() && #[trigger] item.info.subpackages@[s].pkgname@ == targets[t])
}

/// Decides [`explicit_build`].
pub fn is_explicit_build(targets: &Vec<String>, item: &crate::resolver::PlanItem) -> (r: bool)
    ensures
        r == explicit_build(strs_view(targets@), *item),
{
    let mut t: usize = 0;
    while t < targets.len()
        invariant
            t <= targets@.len(),
            forall|u: int|
                0 <= u < t ==> !(targets@[u]@ == item.info.pkgname@ || targets@[u]@ == item.name@ || exists|s: int|
                    0 <= s < item.info.subpackages@.len() && #[trigger] item.info.subpackages@[s].pkgname@ == targets@[u]@),
        decreases targets@.len() - t,
    {
        let tc = chars_of(targets[t].as_str());
        let mut hit = crate::text::chars_eq(tc.as_slice(), chars_of(item.info.pkgname.as_str()).as_slice())
            || crate::text::chars_eq(tc.as_slice(), chars_of(item.name.as_str()).as_slice());
        let mut s: usize = 0;
        while s < item.info.subpackages.len() && !hit
            invariant
                s <= item.info.subpackages@.len(),
                tc@ == targets@[t as int]@,
                hit ==> (targets@[t as int]@ == item.info.pkgname@ || targets@[t as int]@ == item.name@ || exists|q: int|
                    0 <= q < item.info.subpackages@.len() && #[trigger] item.info.subpackages@[q].pkgname@ == targets@[t as int]@),
                !hit ==> !(targets@[t as int]@ == item.info.pkgname@ || targets@[t as int]@ == item.name@),
                !hit ==> forall|q: int| 0 <= q < s ==> #[trigger] item.info.subpackages@[q].pkgname@ != targets@[t as int]@,
            decreases item.info.subpackages@.len() - s,
        {
            if crate::text::chars_eq(tc.as_slice(), chars_of(item.info.subpackages[s].pkgname.as_str()).as_slice()) {
                hit = true;
            }
            s = s + 1;
        }
        if hit {
            assert(strs_view(targets@)[t as int] == targets@[t as int]@);
            return true;
        }
        t = t + 1;
    }
    proof {
        assert forall|u: int| 0 <= u < strs_view(targets@).len() implies !(strs_view(targets@)[u] == item.info.pkgname@
            || strs_view(targets@)[u] == item.name@ || exists|q: int|
                0 <= q < item.info.subpackages@.len() && #[trigger] item.info.subpackages@[q].pkgname@ == strs_view(targets@)[u]) by {
            assert(strs_view(targets@)[u] == targets@[u]@);
        }
    }
    false
}

/// The names handed to `xbps-install`: the packages the plan installs as
/// binaries (official or from a VUR), by their real names, in plan order,
/// then the packages built.
pub open spec fn install_names_of(installs: Seq<crate::resolver::PlanItem>, built: Seq<Seq<char>>) -> Seq<Seq<char>>
    decreases installs.len(),
{
    if installs.len() == 0 {
        built
    } else {
        let rest = install_names_of(installs.drop_last(), Seq::empty());
        let it = installs.last();
        let here = match it.action {
            Action::Install(_) => rest.push(it.info.pkgname@),
            Action::Build => rest,
        };
        here + built
    }
}

/// Builds the list of [`install_names_of`].
pub fn install_names(installs: &Vec<crate::resolver::PlanItem>, built: &Vec<String>) -> (r: Vec<String>)
    ensures
        strs_view(r@) == install_names_of(installs@, strs_view(built@)),
{
    let mut r: Vec<String> = Vec::new();
    let mut i: usize = 0;
    while i < installs.len()
        invariant
            i <= installs@.len(),
            strs_view(r@) == install_names_of(installs@.take(i as int), Seq::empty()),
        decreases installs@.len() - i,
    {
        let ghost r0 = strs_view(r@);
        proof {
            assert(installs@.take(i as int + 1).drop_last() =~= installs@.take(i as int));
            assert(installs@.take(i as int + 1).last() == installs@[i as int]);
            assert(install_names_of(installs@.take(i as int), Seq::empty()) + Seq::<Seq<char>>::empty()
                =~= install_names_of(installs@.take(i as int), Seq::empty()));
        }
        match &installs[i].action {
            Action::Install(_) => {
                r.push(installs[i].info.pkgname.clone());
                proof {
                    assert(strs_view(r@) =~= r0.push(installs@[i as int].info.pkgname@));
                    assert(r0.push(installs@[i as int].info.pkgname@) + Seq::<Seq<char>>::empty() =~= r0.push(
                        installs@[i as int].info.pkgname@,
                    ));
                }
            },
            Action::Build => {},
        }
        i = i + 1;
    }
    let ghost r1 = strs_view(r@);
    let mut k: usize = 0;
    while k < built.len()
        invariant
            k <= built@.len(),
            strs_view(r@) == r1 + strs_view(built@).take(k as int),
        decreases built@.len() - k,
    {
        let ghost rb = r@;
        r.push(built[k].clone());
        proof {
            assert(strs_view(r@) =~= strs_view(rb).push(built@[k as int]@));
            assert(strs_view(built@).take(k as int + 1) =~= strs_view(built@).take(k as int).push(built@[k as int]@));
            assert(strs_view(r@) =~= r1 + strs_view(built@).take(k as int + 1));
        }
        k = k + 1;
    }
    proof {
        assert(installs@.take(installs@.len() as int) =~= installs@);
        assert(strs_view(built@).take(built@.len() as int) =~= strs_view(built@));
        lemma_install_names_append(installs@, strs_view(built@));
    }
    r
}

proof fn lemma_install_names_append(installs: Seq<crate::resolver::PlanItem>, built: Seq<Seq<char>>)
    ensures
        install_names_of(installs, built) == install_names_of(installs, Seq::empty()) + built,
{
    if installs.len() == 0 {
        assert(Seq::<Seq<char>>::empty() + built =~= built);
    } else {
        let rest = install_names_of(installs.drop_last(), Seq::empty());
        let it = installs.last();
        let here = match it.action {
            Action::Install(_) => rest.push(it.info.pkgname@),
            Action::Build => rest,
        };
        assert(here + Seq::<Seq<char>>::empty() =~= here);
    }
}

/// The options handed to `xbps-install` besides the names: the local
/// repository of the builds when something was built, and `-y` under
/// `--noconfirm`.
pub fn install_extra_flags(built_any: bool, binpkgs_root: &str, no_confirm: bool) -> (r: Vec<String>)
    ensures
        strs_view(r@) == (if built_any {
            seq!["--repository="@ + binpkgs_root@]
        } else {
            Seq::empty()
        }) + (if no_confirm {
            seq!["-y"@]
        } else {
            Seq::empty()
        }),
{
    let mut r: Vec<String> = Vec::new();
    if built_any {
        r.push(crate::text::concat("--repository=", binpkgs_root));
    }
    if no_confirm {
        r.push("-y".to_string());
    }
    assert(strs_view(r@) =~= (if built_any {
        seq!["--repository="@ + binpkgs_root@]
    } else {
        Seq::empty()
    }) + (if no_confirm {
        seq!["-y"@]
    } else {
        Seq::empty()
    }));
    r
}

/// The VUP binary URL a plan item needs: for a binary from a VUR
/// repository, the URL listed under `<repo>:<pkgname>`, if any.
pub open spec fn item_vup_url(table: Seq<(String, String)>, it: crate::resolver::PlanItem) -> Option<(Seq<char>, Seq<char>)> {
    match it.action {
        Action::Install(BinarySource::VulBinary { repo }) => {
            let k = first_key(keys_of(table), repo@ + ":"@ + it.info.pkgname@);
            if k < table.len() {
                Some((repo@, table[k].1@))
            } else {
                None
            }
        },
        _ => None,
    }
}

/// The binary URLs of repository `repo` the plan's installs need, each
/// once, in plan order.
pub open spec fn repo_vup_urls(table: Seq<(String, String)>, installs: Seq<crate::resolver::PlanItem>, repo: Seq<char>) -> Seq<Seq<char>>
    decreases installs.len(),
{
    if installs.len() == 0 {
        Seq::empty()
    } else {
        let prev = repo_vup_urls(table, installs.drop_last(), repo);
        match item_vup_url(table, installs.last()) {
            Some((r, u)) => if r == repo && !prev.contains(u) {
                prev.push(u)
            } else {
                prev
            },
            None => prev,
        }
    }
}

fn position_of_repo(groups: &Vec<(String, Vec<String>)>, repo: &str) -> (r: Option<usize>)
    ensures
        r matches Some(k) ==> k < groups@.len() && groups@[k as int].0@ == repo@,
        r is None ==> forall|k: int| 0 <= k < groups@.len() ==> groups@[k].0@ != repo@,
{
    let want = chars_of(repo);
    let mut k: usize = 0;
    while k < groups.len()
        invariant
            k <= groups@.len(),
            want@ == repo@,
            forall|j: int| 0 <= j < k ==> groups@[j].0@ != repo@,
        decreases groups@.len() - k,
    {
        if crate::text::chars_eq(chars_of(groups[k].0.as_str()).as_slice(), want.as_slice()) {
            return Some(k);
        }
        k = k + 1;
    }
    None
}

/// Groups the VUP binary URLs the plan needs by repository (see
/// [`repo_vup_urls`]); `table` maps `<repo>:<pkgname>` to a URL.
pub fn vup_urls_by_repo(table: &Vec<(String, String)>, installs: &Vec<crate::resolver::PlanItem>) -> (r: Vec<
    (String, Vec<String>),
>)
    ensures
        forall|a: int, b: int| 0 <= a < b < r@.len() ==> r@[a].0@ != r@[b].0@,
        forall|k: int| 0 <= k < r@.len() ==> strs_view(#[trigger] r@[k].1@) == repo_vup_urls(table@, installs@, r@[k].0@),
        forall|repo: Seq<char>|
            #[trigger] repo_vup_urls(table@, installs@, repo).len() > 0 ==> exists|k: int|
                0 <= k < r@.len() && r@[k].0@ == repo,
{
    let mut groups: Vec<(String, Vec<String>)> = Vec::new();
    let mut i: usize = 0;
    while i < installs.len()
        invariant
            i <= installs@.len(),
            forall|a: int, b: int| 0 <= a < b < groups@.len() ==> groups@[a].0@ != groups@[b].0@,
            forall|k: int|
                0 <= k < groups@.len() ==> strs_view(#[trigger] groups@[k].1@) == repo_vup_urls(
                    table@,
                    installs@.take(i as int),
                    groups@[k].0@,
                ),
            forall|repo: Seq<char>|
                #[trigger] repo_vup_urls(table@, installs@.take(i as int), repo).len() > 0 ==> exists|k: int|
                    0 <= k < groups@.len() && groups@[k].0@ == repo,
        decreases installs@.len() - i,
    {
        let ghost pre = installs@.take(i as int);
        let ghost post = installs@.take(i as int + 1);
        proof {
            assert(post.drop_last() =~= pre);
            assert(post.last() == installs@[i as int]);
        }
        let found: Option<(String, String)> = match &installs[i].action {
            Action::Install(BinarySource::VulBinary { repo }) => {
                let key = crate::text::concat3(repo.as_str(), ":", installs[i].info.pkgname.as_str());
                match crate::source::find_first_pub(table, key.as_str()) {
                    Some(k) => Some((repo.clone(), table[k].1.clone())),
                    None => None,
                }
            },
            _ => None,
        };
        let ghost g0 = groups@;
        match found {
            None => {
                proof {
                    assert forall|repo: Seq<char>| repo_vup_urls(table@, post, repo) == repo_vup_urls(table@, pre, repo) by {}
                }
            },
            Some((repo, url)) => {
                proof {
                    assert(item_vup_url(table@, installs@[i as int]) == Some((repo@, url@)));
                }
                match position_of_repo(&groups, repo.as_str()) {
                    None => {
                        proof {
                            // the repository had no URL yet
                            if repo_vup_urls(table@, pre, repo@).len() > 0 {
                                let k = choose|k: int| 0 <= k < g0.len() && g0[k].0@ == repo@;
                                assert(false);
                            }
                            assert(repo_vup_urls(table@, pre, repo@) =~= Seq::<Seq<char>>::empty());
                        }
                        let mut v: Vec<String> = Vec::new();
                        v.push(url);
                        groups.push((repo, v));
                        proof {
                            assert(repo_vup_urls(table@, post, groups@[g0.len() as int].0@) =~= seq![
                                groups@[g0.len() as int].1@[0]@,
                            ]);
                            assert(strs_view(groups@[g0.len() as int].1@) =~= seq![groups@[g0.len() as int].1@[0]@]);
                            assert forall|k: int| 0 <= k < groups@.len() implies strs_view(#[trigger] groups@[k].1@)
                                == repo_vup_urls(table@, post, groups@[k].0@) by {
                                if k < g0.len() {
                                    assert(groups@[k] == g0[k]);
                                }
                            }
                            assert forall|r2: Seq<char>|
                                #[trigger] repo_vup_urls(table@, post, r2).len() > 0 implies exists|k: int|
                                    0 <= k < groups@.len() && groups@[k].0@ == r2 by {
                                if r2 == repo@ {
                                    assert(groups@[g0.len() as int].0@ == r2);
                                } else {
                                    assert(repo_vup_urls(table@, post, r2) == repo_vup_urls(table@, pre, r2));
                                    let k = choose|k: int| 0 <= k < g0.len() && g0[k].0@ == r2;
                                    assert(groups@[k] == g0[k]);
                                }
                            }
                        }
                    },
                    Some(k) => {
                        let ghost listed = strs_view(groups@[k as int].1@);
                        let mut known = false;
                        let mut j: usize = 0;
                        while j < groups[k].1.len()
                            invariant
                                k < groups@.len(),
                                j <= groups@[k as int].1@.len(),
                                known ==> strs_view(groups@[k as int].1@).contains(url@),
                                !known ==> forall|q: int| 0 <= q < j ==> groups@[k as int].1@[q]@ != url@,
                            decreases groups@[k as int].1@.len() - j,
                        {
                            if crate::text::chars_eq(
                                chars_of(groups[k].1[j].as_str()).as_slice(),
                                chars_of(url.as_str()).as_slice(),
                            ) {
                                assert(strs_view(groups@[k as int].1@)[j as int] == url@);
                                known = true;
                            }
                            j = j + 1;
                        }
                        proof {
                            if !known {
                                assert forall|q: int| 0 <= q < listed.len() implies listed[q] != url@ by {
                                    assert(listed[q] == groups@[k as int].1@[q]@);
                                }
                            }
                        }
                        if !known {
                            let mut entry = groups.remove(k);
                            entry.1.push(url);
                            groups.insert(k, entry);
                        }
                        proof {
                            assert(groups@.len() == g0.len());
                            assert forall|q: int| 0 <= q < groups@.len() && q != k implies groups@[q] == g0[q] by {}
                            assert(groups@[k as int].0@ == repo@);
                            if !known {
                                assert(strs_view(groups@[k as int].1@) =~= listed.push(url@));
                            } else {
                                assert(groups@[k as int] == g0[k as int]);
                            }
                            assert forall|q: int| 0 <= q < groups@.len() implies strs_view(#[trigger] groups@[q].1@)
                                == repo_vup_urls(table@, post, groups@[q].0@) by {
                                if q != k {
                                    assert(groups@[q] == g0[q]);
                                }
                            }
                            assert forall|r2: Seq<char>|
                                #[trigger] repo_vup_urls(table@, post, r2).len() > 0 implies exists|q: int|
                                    0 <= q < groups@.len() && groups@[q].0@ == r2 by {
                                if r2 == repo@ {
                                    assert(groups@[k as int].0@ == r2);
                                } else {
                                    assert(repo_vup_urls(table@, post, r2) == repo_vup_urls(table@, pre, r2));
                                    let q = choose|q: int| 0 <= q < g0.len() && g0[q].0@ == r2;
                                    assert(groups@[q] == g0[q]);
                                }
                            }
                        }
                    },
                }
            },
        }
        i = i + 1;
    }
    assert(installs@.take(installs@.len() as int) =~= installs@);
    groups
}

// ------------------------------------------------------------------
// The install sequence
// ------------------------------------------------------------------

/// A build to run: the package built, whether the user named it, and the
/// subpackages the build produces.
pub struct BuildJob {
    pub parent_pkg: String,
    pub explicit: bool,
    pub subs: Vec<String>,
}

/// Where an install stands once the plan is made: the builds by level
/// (positions in `jobs`; each level's builds only need earlier levels), the
/// next level to build, what was built so far, and what the plan installs
/// as binaries.
pub struct InstallState {
    pub jobs: Vec<BuildJob>,
    pub levels: Vec<Vec<usize>>,
    pub next_level: usize,
    pub built: Vec<String>,
    pub installs: Vec<crate::resolver::PlanItem>,
    pub binpkgs_root: String,
    pub no_confirm: bool,
    /// The names handed to `xbps-install`, once it was asked for.
    pub install_list: Vec<String>,
}

/// What happened since the last step.
pub enum InstallEvent {
    /// The plan was confirmed.
    Start,
    /// The builds of the next level ran, in level order: one result per
    /// build run (fewer when the run stopped at a failure). `parallel` when
    /// they ran in worker sandboxes.
    LevelBuilt { results: Vec<Result<(), String>>, parallel: bool },
    /// `xbps-install` ended with this exit code.
    Installed(i32),
    /// The installed packages were recorded (hooks, database, journal).
    Recorded,
}

/// What to do next.
pub enum InstallAction {
    /// Build these jobs (one level).
    BuildLevel(Vec<usize>),
    /// Run `xbps-install` with these names and options.
    Install { names: Vec<String>, flags: Vec<String> },
    /// Run the post-install hooks of these names and record the plan's
    /// tracked packages.
    Record(Vec<String>),
    /// Stop with this exit code.
    Finish(i32),
    /// Stop with this error.
    Fail(String),
}

impl InstallState {
    pub open spec fn wf(&self) -> bool {
        &&& self.next_level <= self.levels@.len()
        &&& forall|l: int, k: int|
            0 <= l < self.levels@.len() && 0 <= k < self.levels@[l]@.len() ==> #[trigger] self.levels@[l]@[k]
                < self.jobs@.len()
    }
}

/// `b` with the subpackages not listed yet appended, in order.
pub open spec fn with_subs(b: Seq<Seq<char>>, subs: Seq<Seq<char>>) -> Seq<Seq<char>>
    decreases subs.len(),
{
    if subs.len() == 0 {
        b
    } else {
        let b2 = with_subs(b, subs.drop_last());
        if b2.contains(subs.last()) {
            b2
        } else {
            b2.push(subs.last())
        }
    }
}

/// The names built after a job ran: its package, then its subpackages not
/// listed yet.
pub open spec fn job_built(b: Seq<Seq<char>>, job: BuildJob) -> Seq<Seq<char>> {
    with_subs(b.push(job.parent_pkg@), strs_view(job.subs@))
}

/// Applying a level's results from position `i` on: the names built, or
/// the first failure (a build missing from the results is a failure too).
pub open spec fn level_outcome(
    jobs: Seq<BuildJob>,
    level: Seq<usize>,
    results: Seq<Result<(), String>>,
    parallel: bool,
    b: Seq<Seq<char>>,
    i: int,
) -> Result<Seq<Seq<char>>, Seq<char>>
    decreases level.len() - i,
{
    if i < 0 || i >= level.len() {
        Ok(b)
    } else {
        let job = jobs[level[i] as int];
        if i >= results.len() {
            Err("sin resultado del worker para "@ + job.parent_pkg@)
        } else {
            match results[i] {
                Err(e) => Err(if parallel {
                    "building "@ + job.parent_pkg@ + ": "@ + e@
                } else {
                    e@
                }),
                Ok(_) => level_outcome(jobs, level, results, parallel, job_built(b, job), i + 1),
            }
        }
    }
}

/// The step after the builds up to `s.next_level`: the next level, or the
/// install of the plan's binaries and of what was built.
pub open spec fn proceeds(s: InstallState, a: InstallAction) -> bool {
    let names = install_names_of(s.installs@, strs_view(s.built@));
    if s.next_level < s.levels@.len() {
        a matches InstallAction::BuildLevel(l) && l@ == s.levels@[s.next_level as int]@
    } else if names.len() == 0 {
        a matches InstallAction::Record(n) && n@.len() == 0 && s.install_list@.len() == 0
    } else {
        a matches InstallAction::Install { names: ns, flags } && strs_view(ns@) == names && strs_view(flags@) == (
        if s.built@.len() > 0 {
            seq!["--repository="@ + s.binpkgs_root@]
        } else {
            Seq::empty()
        }) + (if s.no_confirm {
            seq!["-y"@]
        } else {
            Seq::empty()
        }) && s.install_list@ == ns@
    }
}

fn add_sub(b: &mut Vec<String>, sub: &String)
    ensures
        strs_view(final(b)@) == (if strs_view(old(b)@).contains(sub@) {
            strs_view(old(b)@)
        } else {
            strs_view(old(b)@).push(sub@)
        }),
{
    if !crate::db::names_contain(b, sub.as_str()) {
        let ghost o = b@;
        b.push(sub.clone());
        assert(strs_view(b@) =~= strs_view(o).push(sub@));
    }
}

fn record_job(b: &mut Vec<String>, job: &BuildJob)
    ensures
        strs_view(final(b)@) == job_built(strs_view(old(b)@), *job),
{
    let ghost o = b@;
    b.push(job.parent_pkg.clone());
    assert(strs_view(b@) =~= strs_view(o).push(job.parent_pkg@));
    let ghost start = strs_view(b@);
    let mut k: usize = 0;
    while k < job.subs.len()
        invariant
            k <= job.subs@.len(),
            start == strs_view(o).push(job.parent_pkg@),
            strs_view(b@) == with_subs(start, strs_view(job.subs@).take(k as int)),
        decreases job.subs@.len() - k,
    {
        proof {
            assert(strs_view(job.subs@).take(k as int + 1).drop_last() =~= strs_view(job.subs@).take(k as int));
            assert(strs_view(job.subs@).take(k as int + 1).last() == job.subs@[k as int]@);
        }
        add_sub(b, &job.subs[k]);
        k = k + 1;
    }
    assert(strs_view(job.subs@).take(job.subs@.len() as int) =~= strs_view(job.subs@));
}

fn apply_level(
    jobs: &Vec<BuildJob>,
    level: &Vec<usize>,
    results: &Vec<Result<(), String>>,
    parallel: bool,
    built: &mut Vec<String>,
) -> (r: Result<(), String>)
    requires
        forall|k: int| 0 <= k < level@.len() ==> #[trigger] level@[k] < jobs@.len(),
    ensures
        match level_outcome(jobs@, level@, results@, parallel, strs_view(old(built)@), 0) {
            Ok(b) => r is Ok && strs_view(final(built)@) == b,
            Err(m) => r matches Err(x) && x@ == m,
        },
{
    let ghost b0 = strs_view(built@);
    let mut i: usize = 0;
    while i < level.len()
        invariant
            i <= level@.len(),
            b0 == strs_view(old(built)@),
            forall|k: int| 0 <= k < level@.len() ==> #[trigger] level@[k] < jobs@.len(),
            level_outcome(jobs@, level@, results@, parallel, b0, 0) == level_outcome(
                jobs@,
                level@,
                results@,
                parallel,
                strs_view(built@),
                i as int,
            ),
        decreases level@.len() - i,
    {
        let job = &jobs[level[i]];
        proof {
            assert(jobs@[level@[i as int] as int] == *job);
        }
        if i >= results.len() {
            assert(level_outcome(jobs@, level@, results@, parallel, strs_view(built@), i as int) == Err::<Seq<Seq<char>>, Seq<char>>(
                "sin resultado del worker para "@ + job.parent_pkg@,
            ));
            return Err(crate::text::concat("sin resultado del worker para ", job.parent_pkg.as_str()));
        }
        match &results[i] {
            Err(e) => {
                if parallel {
                    let mut m = crate::text::concat3("building ", job.parent_pkg.as_str(), ": ");
                    crate::text::push_str(&mut m, e.as_str());
                    return Err(m);
                } else {
                    let m = e.clone();
                    assert(results@[i as int] == Err::<(), String>(*e));
                    assert(m@ == e@);
                    return Err(m);
                }
            },
            Ok(_) => {},
        }
        record_job(built, job);
        i = i + 1;
    }
    Ok(())
}

fn proceed(s: InstallState) -> (r: (InstallState, InstallAction))
    requires
        s.wf(),
    ensures
        r.0.wf(),
        r.0.jobs == s.jobs && r.0.levels == s.levels && r.0.next_level == s.next_level && r.0.built == s.built
            && r.0.installs == s.installs && r.0.binpkgs_root == s.binpkgs_root && r.0.no_confirm == s.no_confirm,
        proceeds(r.0, r.1),
{
    let mut s = s;
    if s.next_level < s.levels.len() {
        let l = s.levels[s.next_level].clone();
        (s, InstallAction::BuildLevel(l))
    } else {
        let names = install_names(&s.installs, &s.built);
        if names.len() == 0 {
            s.install_list = Vec::new();
            return (s, InstallAction::Record(Vec::new()));
        }
        let flags = install_extra_flags(s.built.len() > 0, s.binpkgs_root.as_str(), s.no_confirm);
        s.install_list = names.clone();
        (s, InstallAction::Install { names, flags })
    }
}

/// One step of an install: from where it stands and what happened, the new
/// state and what to do. Levels are built in turn; the first failed build
/// stops the install; after the last level the plan's binaries and the
/// built packages are installed together (when there is any), and a
/// successful install is recorded.
pub fn install_step(s: InstallState, ev: InstallEvent) -> (r: (InstallState, InstallAction))
    requires
        s.wf(),
        ev is LevelBuilt ==> s.next_level < s.levels@.len(),
    ensures
        r.0.wf(),
        r.0.jobs == s.jobs && r.0.levels == s.levels && r.0.installs == s.installs,
        ev is Start ==> r.0.next_level == s.next_level && r.0.built == s.built && proceeds(r.0, r.1),
        ev matches InstallEvent::LevelBuilt { results, parallel } ==> match level_outcome(
            s.jobs@,
            s.levels@[s.next_level as int]@,
            results@,
            parallel,
            strs_view(s.built@),
            0,
        ) {
            Ok(b) => r.0.next_level == s.next_level + 1 && strs_view(r.0.built@) == b && proceeds(r.0, r.1),
            Err(m) => r.1 matches InstallAction::Fail(x) && x@ == m,
        },
        ev matches InstallEvent::Installed(code) ==> (code == 0 ==> (r.1 matches InstallAction::Record(n) && n@
            == s.install_list@)) && (code != 0 ==> r.1 == InstallAction::Finish(code)),
        ev is Recorded ==> r.1 == InstallAction::Finish(0),
{
    match ev {
        InstallEvent::Start => proceed(s),
        InstallEvent::LevelBuilt { results, parallel } => {
            let mut s = s;
            let lv = s.levels[s.next_level].clone();
            let mut built = s.built.clone();
            proof {
                assert forall|k: int| 0 <= k < lv@.len() implies #[trigger] lv@[k] < s.jobs@.len() by {
                    assert(s.levels@[s.next_level as int]@[k] < s.jobs@.len());
                }
            }
            match apply_level(&s.jobs, &lv, &results, parallel, &mut built) {
                Err(m) => (s, InstallAction::Fail(m)),
                Ok(()) => {
                    let nl = s.levels.len();
                    assert(s.next_level < nl);
                    s.built = built;
                    s.next_level = s.next_level + 1;
                    proceed(s)
                },
            }
        },
        InstallEvent::Installed(code) => {
            if code == 0 {
                let n = s.install_list.clone();
                (s, InstallAction::Record(n))
            } else {
                (s, InstallAction::Finish(code))
            }
        },
        InstallEvent::Recorded => (s, InstallAction::Finish(0)),
    }
}

proof fn lemma_first_invalid_none(ts: Seq<Seq<char>>)
    ensures
        (crate::remove::first_invalid(ts) is None) <==> (forall|i: int|
            0 <= i < ts.len() ==> crate::metadata::valid_pkgname(#[trigger] ts[i])),
    decreases ts.len(),
{
    if ts.len() > 0 {
        lemma_first_invalid_none(ts.drop_first());
        if crate::metadata::valid_pkgname(ts[0]) {
            assert forall|i: int| 0 <= i < ts.len() && i > 0 implies (crate::metadata::valid_pkgname(ts[i])
                <==> crate::metadata::valid_pkgname(ts.drop_first()[i - 1])) by {}
            if forall|i: int| 0 <= i < ts.drop_first().len() ==> crate::metadata::valid_pkgname(
                #[trigger] ts.drop_first()[i],
            ) {
                assert forall|i: int| 0 <= i < ts.len() implies crate::metadata::valid_pkgname(#[trigger] ts[i]) by {
                    if i > 0 {
                        assert(ts[i] == ts.drop_first()[i - 1]);
                    }
                }
            } else {
                let k = choose|k: int|
                    0 <= k < ts.drop_first().len() && !crate::metadata::valid_pkgname(#[trigger] ts.drop_first()[k]);
                assert(ts[k + 1] == ts.drop_first()[k]);
            }
        }
    }
}

/// `-S` accepts its targets exactly when there is at least one and each
/// matches `^[a-zA-Z0-9][a-zA-Z0-9._+-]*$` (so `vary -S gtk+3 libstdc++`
/// goes ahead); otherwise it names the first target that does not.
pub proof fn lemma_install_accepts_package_names(targets: Seq<Seq<char>>)
    ensures
        (install_refusal(targets) is None) <==> (targets.len() > 0 && forall|i: int|
            0 <= i < targets.len() ==> crate::metadata::pkgname_pattern(#[trigger] targets[i])),
{
    lemma_first_invalid_none(targets);
    assert forall|i: int| 0 <= i < targets.len() implies (crate::metadata::valid_pkgname(#[trigger] targets[i])
        <==> crate::metadata::pkgname_pattern(targets[i])) by {
        crate::metadata::lemma_pkgname_pattern(targets[i]);
    }
}

} // verus!
