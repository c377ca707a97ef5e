//! `vary.lock`: what reproduces the installed tree elsewhere (repositories
//! with URL, commit and key fingerprint; packages with version, origin and
//! artifact hash), and the check of a resolved plan against it.
use vstd::prelude::*;
use crate::keyed::{as_map, get_key, keyed_wf, upsert_key};
use crate::source::first_key;
use crate::text::{chars_of, push_str};

verus! {

/// A pinned repository.
#[derive(Debug, Clone)]
pub struct LockedRepo {
    pub url: String,
    pub commit: Option<String>,
    pub fingerprint: Option<String>,
}

/// A pinned package: version (`pkgver`), origin (`official` or
/// `vur:<repo>`) and artifact hash.
#[derive(Debug, Clone)]
pub struct LockedPkg {
    pub version: String,
    pub source: String,
    pub sha256: Option<String>,
}

/// The lock: repositories and packages by name, in name order.
#[derive(Debug)]
pub struct Lockfile {
    pub repos: Vec<(String, LockedRepo)>,
    pub packages: Vec<(String, LockedPkg)>,
}

impl Lockfile {
    pub open spec fn wf(&self) -> bool {
        keyed_wf(self.repos@) && keyed_wf(self.packages@)
    }

    /// An empty lock.
    pub fn new() -> (r: Lockfile)
        ensures
            r.wf(),
            as_map(r.repos@) == Map::<Seq<char>, LockedRepo>::empty(),
            as_map(r.packages@) == Map::<Seq<char>, LockedPkg>::empty(),
    {
        let r = Lockfile { repos: Vec::new(), packages: Vec::new() };
        assert(crate::keyed::keys_of(r.repos@) =~= Seq::<Seq<char>>::empty());
        assert(crate::keyed::keys_of(r.packages@) =~= Seq::<Seq<char>>::empty());
        r
    }

    /// Pins a repository (replacing an earlier pin of it).
    pub fn pin_repo(&mut self, name: String, repo: LockedRepo)
        requires
            old(self).wf(),
        ensures
            final(self).wf(),
            as_map(final(self).repos@) == as_map(old(self).repos@).insert(name@, repo),
            final(self).packages == old(self).packages,
    {
        upsert_key(&mut self.repos, name, repo);
    }

    /// Pins a package (replacing an earlier pin of it).
    pub fn pin_package(&mut self, name: String, pkg: LockedPkg)
        requires
            old(self).wf(),
        ensures
            final(self).wf(),
            as_map(final(self).packages@) == as_map(old(self).packages@).insert(name@, pkg),
            final(self).repos == old(self).repos,
    {
        upsert_key(&mut self.packages, name, pkg);
    }

    /// Pins an explicitly installed package as `official`, unless the lock
    /// already pins it (the packages vary manages come first).
    pub fn pin_official(&mut self, name: String, pkgver: String)
        requires
            old(self).wf(),
        ensures
            final(self).wf(),
            final(self).repos == old(self).repos,
            as_map(old(self).packages@).dom().contains(name@) ==> final(self).packages
                == old(self).packages,
            !as_map(old(self).packages@).dom().contains(name@) ==> ({
                let m = as_map(final(self).packages@);
                &&& m == as_map(old(self).packages@).insert(name@, m[name@])
                &&& m[name@].version == pkgver
                &&& m[name@].source@ == "official"@
                &&& m[name@].sha256 is None
            }),
    {
        if get_key(&self.packages, name.as_str()).is_some() {
            return;
        }
        let pkg = LockedPkg { version: pkgver, source: "official".to_string(), sha256: None };
        let ghost pv = pkg;
        upsert_key(&mut self.packages, name, pkg);
        assert(as_map(self.packages@)[name@] == pv);
    }
}

/// At most the first 12 characters (`{:.12}`).
pub open spec fn first12(s: Seq<char>) -> Seq<char> {
    if s.len() <= 12 {
        s
    } else {
        s.take(12)
    }
}

pub open spec fn version_warning(name: Seq<char>, pkgver: Seq<char>, pinned: Seq<char>) -> Seq<char> {
    "lock: '"@ + name + "' resuelve "@ + pkgver + " pero vary.lock pinea "@ + pinned
        + " (regenera con `vary --lock`)"@
}

pub open spec fn commit_warning(repo: Seq<char>, pinned: Seq<char>, head: Seq<char>) -> Seq<char> {
    "lock: repo '"@ + repo + "' cambió de commit ("@ + first12(pinned) + " -> "@ + first12(head)
        + "); regenera con `vary --lock`"@
}

/// Warnings for resolved `(name, pkgver)` items whose pinned version differs.
pub open spec fn version_warnings(pins: Map<Seq<char>, LockedPkg>, items: Seq<(String, String)>) -> Seq<
    Seq<char>,
>
    decreases items.len(),
{
    if items.len() == 0 {
        Seq::empty()
    } else {
        let rest = version_warnings(pins, items.drop_last());
        let (name, pkgver) = items.last();
        if pins.dom().contains(name@) && pins[name@].version@ != pkgver@ {
            rest.push(version_warning(name@, pkgver@, pins[name@].version@))
        } else {
            rest
        }
    }
}

/// Warnings for repositories whose HEAD differs from the pinned commit
/// (both known).
pub open spec fn commit_warnings(pins: Map<Seq<char>, LockedRepo>, heads: Seq<(String, Option<String>)>) -> Seq<
    Seq<char>,
>
    decreases heads.len(),
{
    if heads.len() == 0 {
        Seq::empty()
    } else {
        let rest = commit_warnings(pins, heads.drop_last());
        let (repo, head) = heads.last();
        if pins.dom().contains(repo@) && pins[repo@].commit is Some && head is Some
            && pins[repo@].commit->0@ != head->0@ {
            rest.push(commit_warning(repo@, pins[repo@].commit->0@, head->0@))
        } else {
            rest
        }
    }
}

pub fn first12_string(s: &str) -> (r: String)
    ensures
        r@ == first12(s@),
{
    let cs = chars_of(s);
    if cs.len() <= 12 {
        s.to_string()
    } else {
        let t = crate::text::slice_vec(&cs, 0, 12);
        assert(t@ =~= s@.take(12));
        crate::text::string_from(&t)
    }
}

/// Checks a resolved plan against the lock: a warning per pinned package
/// resolved at another version, then one per pinned repository whose HEAD
/// moved. Unpinned packages and repositories stay silent.
pub fn verify_plan(lock: &Lockfile, items: &[(String, String)], heads: &[(String, Option<String>)]) -> (r: Vec<String>)
    requires
        lock.wf(),
    ensures
        crate::metadata::strs_view(r@) == version_warnings(as_map(lock.packages@), items@)
            + commit_warnings(as_map(lock.repos@), heads@),
{
    let mut w: Vec<String> = Vec::new();
    let mut i: usize = 0;
    assert(items@.take(0) =~= Seq::<(String, String)>::empty());
    assert(crate::metadata::strs_view(w@) =~= Seq::<Seq<char>>::empty());
    while i < items.len()
        invariant
            i <= items@.len(),
            lock.wf(),
            crate::metadata::strs_view(w@) == version_warnings(as_map(lock.packages@), items@.take(i as int)),
        decreases items@.len() - i,
    {
        assert(items@.take(i + 1).drop_last() =~= items@.take(i as int));
        let (name, pkgver) = &items[i];
        match get_key(&lock.packages, name.as_str()) {
            Some(pinned) => {
                let pv = chars_of(pinned.version.as_str());
                if !crate::text::chars_eq(&pv, &chars_of(pkgver.as_str())) {
                    let mut m = "lock: '".to_string();
                    push_str(&mut m, name.as_str());
                    push_str(&mut m, "' resuelve ");
                    push_str(&mut m, pkgver.as_str());
                    push_str(&mut m, " pero vary.lock pinea ");
                    push_str(&mut m, pinned.version.as_str());
                    push_str(&mut m, " (regenera con `vary --lock`)");
                    let ghost o = w@;
                    w.push(m);
                    assert(crate::metadata::strs_view(w@) =~= crate::metadata::strs_view(o).push(m@));
                }
            },
            None => {},
        }
        i = i + 1;
    }
    assert(items@.take(items@.len() as int) =~= items@);
    let ghost vw = crate::metadata::strs_view(w@);
    let mut j: usize = 0;
    assert(heads@.take(0) =~= Seq::<(String, Option<String>)>::empty());
    assert(vw + Seq::<Seq<char>>::empty() =~= vw);
    while j < heads.len()
        invariant
            j <= heads@.len(),
            lock.wf(),
            crate::metadata::strs_view(w@) == vw + commit_warnings(as_map(lock.repos@), heads@.take(j as int)),
        decreases heads@.len() - j,
    {
        assert(heads@.take(j + 1).drop_last() =~= heads@.take(j as int));
        let (repo, head) = &heads[j];
        match get_key(&lock.repos, repo.as_str()) {
            Some(pinned) => {
                match (&pinned.commit, head) {
                    (Some(a), Some(b)) => {
                        if !crate::text::chars_eq(&chars_of(a.as_str()), &chars_of(b.as_str())) {
                            let mut m = "lock: repo '".to_string();
                            push_str(&mut m, repo.as_str());
                            push_str(&mut m, "' cambió de commit (");
                            push_str(&mut m, first12_string(a.as_str()).as_str());
                            push_str(&mut m, " -> ");
                            push_str(&mut m, first12_string(b.as_str()).as_str());
                            push_str(&mut m, "); regenera con `vary --lock`");
                            let ghost o = w@;
                            w.push(m);
                            assert(crate::metadata::strs_view(w@) =~= crate::metadata::strs_view(o).push(m@));
                            assert(vw + commit_warnings(as_map(lock.repos@), heads@.take(j + 1)) =~= (vw
                                + commit_warnings(as_map(lock.repos@), heads@.take(j as int))).push(m@));
                        }
                    },
                    _ => {},
                }
            },
            None => {},
        }
        j = j + 1;
    }
    assert(heads@.take(heads@.len() as int) =~= heads@);
    w
}

/// What the lock pins for a package vary manages.
pub open spec fn pins_entry(p: LockedPkg, e: crate::db::Entry) -> bool {
    &&& p.version@ == e.version@
    &&& p.source@ == "vur:"@ + e.vur@
    &&& crate::metadata::opt_view(p.sha256) == crate::metadata::opt_view(e.artifact_sha256)
}

/// The lock of the current state: the enabled repositories (name, URL,
/// HEAD commit, fingerprint of the registered key), the packages vary
/// manages, then the packages installed explicitly as `official` (their
/// `pkgver`; the first entry for a name wins, a managed package is kept).
pub fn generate(repos: Vec<(String, LockedRepo)>, db: &crate::db::InstalledDb, official: &Vec<(String, String)>) -> (l:
    Lockfile)
    requires
        db.wf(),
    ensures
        l.wf(),
        as_map(l.repos@) == as_map(repos@),
        forall|k: Seq<char>| #[trigger]
            as_map(l.packages@).dom().contains(k) <==> (db.view_map().dom().contains(k)
                || crate::keyed::keys_of(official@).contains(k)),
        forall|k: Seq<char>| #[trigger]
            db.view_map().dom().contains(k) ==> pins_entry(as_map(l.packages@)[k], db.view_map()[k]),
        forall|k: Seq<char>| #[trigger]
            crate::keyed::keys_of(official@).contains(k) && !db.view_map().dom().contains(k) ==> ({
                let p = as_map(l.packages@)[k];
                &&& crate::upgrade::first_value(official@, k) == Some(p.version@)
                &&& p.source@ == "official"@
                &&& p.sha256 is None
            }),
{
    let mut l = Lockfile::new();
    let ghost rs = repos@;
    let mut repos = repos;
    let mut taken: Vec<(String, LockedRepo)> = Vec::new();
    // Pins the repositories in order: the lock's repositories are the list's map.
    let mut i: usize = 0;
    let n = repos.len();
    while i < n
        invariant
            n == rs.len(),
            i <= n,
            l.wf(),
            repos@ == rs.subrange(i as int, n as int),
            as_map(l.repos@) == as_map(rs.take(i as int)),
            as_map(l.packages@) == Map::<Seq<char>, LockedPkg>::empty(),
        decreases n - i,
    {
        let (name, repo) = repos.remove(0);
        proof {
            assert(rs.take(i as int + 1).drop_last() =~= rs.take(i as int));
            assert(rs.take(i as int + 1).last() == rs[i as int]);
            assert(repos@ =~= rs.subrange(i as int + 1, n as int));
        }
        l.pin_repo(name, repo);
        i = i + 1;
    }
    assert(rs.take(n as int) =~= rs);
    let ghost es = db.entries@;
    let mut j: usize = 0;
    while j < db.entries.len()
        invariant
            j <= es.len(),
            es == db.entries@,
            db.wf(),
            l.wf(),
            as_map(l.repos@) == as_map(rs),
            forall|k: Seq<char>| #[trigger]
                as_map(l.packages@).dom().contains(k) <==> as_map(es.take(j as int)).dom().contains(k),
            forall|k: Seq<char>| #[trigger]
                as_map(es.take(j as int)).dom().contains(k) ==> pins_entry(
                    as_map(l.packages@)[k],
                    as_map(es.take(j as int))[k],
                ),
        decreases es.len() - j,
    {
        let (name, e) = (&db.entries[j].0, &db.entries[j].1);
        let pkg = LockedPkg {
            version: e.version.clone(),
            source: crate::text::concat("vur:", e.vur.as_str()),
            sha256: crate::metadata::clone_opt_string(&e.artifact_sha256),
        };
        assert(pins_entry(pkg, *e));
        let ghost pv = pkg;
        let ghost before = as_map(l.packages@);
        l.pin_package(name.clone(), pkg);
        proof {
            let t0 = es.take(j as int);
            let t1 = es.take(j as int + 1);
            assert(t1.drop_last() =~= t0);
            assert(t1.last() == es[j as int]);
            assert(as_map(t1) == as_map(t0).insert(es[j as int].0@, es[j as int].1));
            assert(as_map(l.packages@) == before.insert(name@, pv));
            assert forall|q: Seq<char>| #[trigger] as_map(t1).dom().contains(q) implies pins_entry(
                as_map(l.packages@)[q],
                as_map(t1)[q],
            ) by {
                if q != name@ {
                    assert(as_map(t0).dom().contains(q));
                }
            }
            assert forall|q: Seq<char>| #[trigger] as_map(l.packages@).dom().contains(q) <==> as_map(t1).dom().contains(
                q,
            ) by {
                if q != name@ {
                    assert(before.dom().contains(q) <==> as_map(t0).dom().contains(q));
                }
            }
        }
        j = j + 1;
    }
    assert(es.take(es.len() as int) =~= es);
    let ghost dbm = db.view_map();
    let mut k: usize = 0;
    while k < official.len()
        invariant
            k <= official@.len(),
            db.wf(),
            dbm == db.view_map(),
            l.wf(),
            as_map(l.repos@) == as_map(rs),
            forall|q: Seq<char>| #[trigger]
                as_map(l.packages@).dom().contains(q) <==> (dbm.dom().contains(q)
                    || crate::keyed::keys_of(official@.take(k as int)).contains(q)),
            forall|q: Seq<char>| #[trigger] dbm.dom().contains(q) ==> pins_entry(as_map(l.packages@)[q], dbm[q]),
            forall|q: Seq<char>| #[trigger]
                crate::keyed::keys_of(official@.take(k as int)).contains(q) && !dbm.dom().contains(q) ==> ({
                    let p = as_map(l.packages@)[q];
                    &&& crate::upgrade::first_value(official@.take(k as int), q) == Some(p.version@)
                    &&& p.source@ == "official"@
                    &&& p.sha256 is None
                }),
        decreases official@.len() - k,
    {
        let ghost before = as_map(l.packages@);
        let name = official[k].0.clone();
        let pv = official[k].1.clone();
        let ghost nm = name@;
        let ghost pvv = pv@;
        l.pin_official(name, pv);
        proof {
            let ks0 = crate::keyed::keys_of(official@.take(k as int));
            let ks1 = crate::keyed::keys_of(official@.take(k as int + 1));
            assert(nm == official@[k as int].0@);
            assert(pvv == official@[k as int].1@);
            let t0 = official@.take(k as int);
            let t1 = official@.take(k as int + 1);
            assert(t1 =~= t0.push(official@[k as int]));
            assert(crate::keyed::keys_of(t1) =~= crate::keyed::keys_of(t0).push(official@[k as int].0@));
            assert forall|q: Seq<char>| crate::keyed::keys_of(t0).contains(q) implies crate::upgrade::first_value(t1, q)
                == crate::upgrade::first_value(t0, q) by {
                lemma_first_value_push(t0, official@[k as int], q);
            }
            lemma_first_value_push(t0, official@[k as int], official@[k as int].0@);
            assert forall|q: Seq<char>| ks1.contains(q) <==> (ks0.contains(q) || q == nm) by {
                if ks1.contains(q) {
                    let i = choose|i: int| 0 <= i < ks1.len() && ks1[i] == q;
                    if i < ks0.len() {
                        assert(ks0[i] == q);
                    }
                }
                if ks0.contains(q) {
                    let i = choose|i: int| 0 <= i < ks0.len() && ks0[i] == q;
                    assert(ks1[i] == q);
                }
                if q == nm {
                    assert(ks1[ks0.len() as int] == q);
                }
            }
            assert forall|q: Seq<char>| #[trigger]
                as_map(l.packages@).dom().contains(q) <==> (dbm.dom().contains(q) || ks1.contains(q)) by {
            }
            assert forall|q: Seq<char>| #[trigger] ks1.contains(q) && !dbm.dom().contains(q) implies ({
                let p = as_map(l.packages@)[q];
                &&& crate::upgrade::first_value(t1, q) == Some(p.version@)
                &&& p.source@ == "official"@
                &&& p.sha256 is None
            }) by {
                if ks0.contains(q) {
                    if q == nm {
                        assert(before.dom().contains(q));
                    }
                } else {
                    assert(q == nm);
                    assert(!before.dom().contains(q));
                }
            }
        }
        k = k + 1;
    }
    assert(official@.take(official@.len() as int) =~= official@);
    l
}

/// Appending an entry does not change the first value of a key already
/// present; for a new key the appended value is the first one.
proof fn lemma_first_value_push(v: Seq<(String, String)>, e: (String, String), q: Seq<char>)
    ensures
        crate::keyed::keys_of(v).contains(q) ==> crate::upgrade::first_value(v.push(e), q)
            == crate::upgrade::first_value(v, q),
        !crate::keyed::keys_of(v).contains(q) && e.0@ == q ==> crate::upgrade::first_value(v.push(e), q) == Some(
            e.1@,
        ),
{
    let ks = crate::source::keys_of(v);
    let ks1 = crate::source::keys_of(v.push(e));
    assert(ks1 =~= ks.push(e.0@));
    assert(crate::keyed::keys_of(v) =~= ks);
    crate::source::lemma_first_key_bounds(ks, q);
    crate::source::lemma_first_key_bounds(ks1, q);
    if ks.contains(q) {
        let j = choose|j: int| 0 <= j < ks.len() && ks[j] == q;
        assert(first_key(ks, q) < ks.len());
        assert(first_key(ks1, q) == first_key(ks, q)) by {
            crate::source::lemma_first_key_is(ks1, q, first_key(ks, q));
        }
    } else if e.0@ == q {
        assert(first_key(ks, q) == ks.len()) by {
            if first_key(ks, q) < ks.len() {
                assert(ks[first_key(ks, q)] == q);
            }
        }
        crate::source::lemma_first_key_is(ks1, q, ks.len() as int);
    }
}

/// A plan that resolves every pinned package to its pinned version, on
/// clones at their pinned commits, passes the lock without a warning.
pub proof fn lemma_matching_plan_passes(
    pins: Map<Seq<char>, LockedPkg>,
    repos: Map<Seq<char>, LockedRepo>,
    items: Seq<(String, String)>,
    heads: Seq<(String, Option<String>)>,
)
    requires
        forall|i: int|
            0 <= i < items.len() && pins.dom().contains(#[trigger] items[i].0@) ==> pins[items[i].0@].version@
                == items[i].1@,
        forall|i: int|
            0 <= i < heads.len() && repos.dom().contains(#[trigger] heads[i].0@) && heads[i].1 is Some
                && repos[heads[i].0@].commit is Some ==> repos[heads[i].0@].commit->0@ == heads[i].1->0@,
    ensures
        version_warnings(pins, items) == Seq::<Seq<char>>::empty(),
        commit_warnings(repos, heads) == Seq::<Seq<char>>::empty(),
    decreases items.len() + heads.len(),
{
    if items.len() > 0 {
        lemma_matching_plan_passes(pins, repos, items.drop_last(), Seq::empty());
        assert(items.drop_last().len() == items.len() - 1);
        let last = items.last();
        assert(last == items[items.len() - 1]);
    }
    if heads.len() > 0 {
        lemma_matching_plan_passes(pins, repos, Seq::empty(), heads.drop_last());
        assert(heads.last() == heads[heads.len() - 1]);
    }
}

/// The lock generated from the installed state accepts that state: a plan
/// that installs each managed package at its installed version passes it
/// without a version warning.
pub proof fn lemma_generated_lock_accepts_installed(
    l: Lockfile,
    db: crate::db::InstalledDb,
    items: Seq<(String, String)>,
)
    requires
        forall|k: Seq<char>| #[trigger]
            db.view_map().dom().contains(k) ==> pins_entry(as_map(l.packages@)[k], db.view_map()[k]),
        forall|i: int|
            0 <= i < items.len() ==> db.view_map().dom().contains(#[trigger] items[i].0@)
                && db.view_map()[items[i].0@].version@ == items[i].1@,
    ensures
        version_warnings(as_map(l.packages@), items) == Seq::<Seq<char>>::empty(),
{
    let pins = as_map(l.packages@);
    assert forall|i: int|
        0 <= i < items.len() && pins.dom().contains(#[trigger] items[i].0@) implies pins[items[i].0@].version@
        == items[i].1@ by {
        assert(db.view_map().dom().contains(items[i].0@));
    }
    lemma_matching_plan_passes(pins, Map::empty(), items, Seq::empty());
}

} // verus!
