//! The database of packages vary installed (`installed.json`): what was
//! installed, from where, when and how, with the pins that let a later
//! reinstall notice a changed origin.
use vstd::prelude::*;
use vstd::utf8::{decode_utf8, valid_utf8};
use crate::keyed::{as_map, get_key, keyed_wf, keys_of, remove_key, upsert_key};
use crate::soname::SonamePins;
use crate::text::{chars_of, push_str};

verus! {

#[derive(Debug, Clone, Copy, PartialEq, Eq, Structural)]
pub enum InstallType {
    Source,
    Binary,
}

/// One installed package.
#[derive(Debug)]
pub struct Entry {
    pub version: String,
    pub vur: String,
    /// Seconds since the epoch.
    pub install_date: u64,
    /// Milliseconds since the epoch, for packages built from source.
    pub build_date: Option<u64>,
    pub install_type: InstallType,
    /// Commit of the VUR clone that served the package.
    pub repo_commit: Option<String>,
    /// `sha256:<hex>` of the installed artifact.
    pub artifact_sha256: Option<String>,
    /// Shared libraries and the providers that served them at install time.
    pub soname_pins: Option<SonamePins>,
}

/// The schema the database is written with.
pub const CURRENT_SCHEMA_VERSION: u32 = 3;

/// The installed packages by name, in name order.
#[derive(Debug)]
pub struct InstalledDb {
    pub entries: Vec<(String, Entry)>,
}

/// The milliseconds since the Unix epoch, from the system clock (0 before
/// the epoch).
#[verifier::external_body]
fn now_epoch_ms() -> (r: u64) {
    std::time::SystemTime::now().duration_since(std::time::UNIX_EPOCH).map(|d| d.as_millis() as u64).unwrap_or(0)
}

/// The entry `upsert` records at time `now_ms`.
pub open spec fn upserted(
    e: Entry,
    version: Seq<char>,
    vur: Seq<char>,
    install_type: InstallType,
    repo_commit: Option<Seq<char>>,
    artifact_sha256: Option<Seq<char>>,
    now_ms: u64,
) -> bool {
    &&& e.version@ == version
    &&& e.vur@ == vur
    &&& e.install_date == now_ms / 1000
    &&& e.build_date == (if install_type == InstallType::Source {
        Some(now_ms)
    } else {
        None
    })
    &&& e.install_type == install_type
    &&& crate::metadata::opt_view(e.repo_commit) == repo_commit
    &&& crate::metadata::opt_view(e.artifact_sha256) == artifact_sha256
    &&& e.soname_pins is None
}

impl InstalledDb {
    pub open spec fn wf(&self) -> bool {
        keyed_wf(self.entries@)
    }

    pub open spec fn view_map(&self) -> Map<Seq<char>, Entry> {
        as_map(self.entries@)
    }

    pub fn new() -> (r: InstalledDb)
        ensures
            r.wf(),
            r.view_map() == Map::<Seq<char>, Entry>::empty(),
    {
        let r = InstalledDb { entries: Vec::new() };
        assert(crate::keyed::keys_of(r.entries@) =~= Seq::<Seq<char>>::empty());
        r
    }

    /// Records a package installed at `now_ms`, replacing an earlier record.
    pub fn upsert_at(
        &mut self,
        name: &str,
        version: &str,
        vur: &str,
        install_type: InstallType,
        repo_commit: Option<String>,
        artifact_sha256: Option<String>,
        now_ms: u64,
    )
        requires
            old(self).wf(),
        ensures
            final(self).wf(),
            final(self).view_map().dom() == old(self).view_map().dom().insert(name@),
            forall|k: Seq<char>| k != name@ && #[trigger] old(self).view_map().dom().contains(k) ==> final(self).view_map()[k] == old(self).view_map()[k],
            upserted(
                final(self).view_map()[name@],
                version@,
                vur@,
                install_type,
                crate::metadata::opt_view(repo_commit),
                crate::metadata::opt_view(artifact_sha256),
                now_ms,
            ),
    {
        let build_date = match install_type {
            InstallType::Source => Some(now_ms),
            InstallType::Binary => None,
        };
        let e = Entry {
            version: version.to_string(),
            vur: vur.to_string(),
            install_date: now_ms / 1000,
            build_date,
            install_type,
            repo_commit,
            artifact_sha256,
            soname_pins: None,
        };
        let ghost ev = e;
        upsert_key(&mut self.entries, name.to_string(), e);
        assert(self.view_map() == old(self).view_map().insert(name@, ev));
    }

    /// Records a package installed now (see [`InstalledDb::upsert_at`]).
    pub fn upsert(
        &mut self,
        name: &str,
        version: &str,
        vur: &str,
        install_type: InstallType,
        repo_commit: Option<String>,
        artifact_sha256: Option<String>,
    )
        requires
            old(self).wf(),
        ensures
            final(self).wf(),
            final(self).view_map().dom() == old(self).view_map().dom().insert(name@),
            forall|k: Seq<char>| k != name@ && #[trigger] old(self).view_map().dom().contains(k) ==> final(self).view_map()[k] == old(self).view_map()[k],
            exists|now_ms: u64|
                upserted(
                    #[trigger] final(self).view_map()[name@],
                    version@,
                    vur@,
                    install_type,
                    crate::metadata::opt_view(repo_commit),
                    crate::metadata::opt_view(artifact_sha256),
                    now_ms,
                ),
    {
        let now = now_epoch_ms();
        self.upsert_at(name, version, vur, install_type, repo_commit, artifact_sha256, now);
    }

    /// The record of a package.
    pub fn get(&self, name: &str) -> (r: Option<&Entry>)
        requires
            self.wf(),
        ensures
            match r {
                Some(e) => self.view_map().dom().contains(name@) && self.view_map()[name@] == *e,
                None => !self.view_map().dom().contains(name@),
            },
    {
        get_key(&self.entries, name)
    }

    /// When a package was built, if it was built here.
    pub fn get_build_date(&self, name: &str) -> (r: Option<u64>)
        requires
            self.wf(),
        ensures
            r == (if self.view_map().dom().contains(name@) {
                self.view_map()[name@].build_date
            } else {
                None
            }),
    {
        match self.get(name) {
            Some(e) => e.build_date,
            None => None,
        }
    }

    /// Stores the shared-library baseline of a recorded package; an empty
    /// baseline or an unknown package changes nothing.
    pub fn set_soname_pins(&mut self, name: &str, pins: SonamePins)
        requires
            old(self).wf(),
        ensures
            final(self).wf(),
            final(self).view_map().dom() == old(self).view_map().dom(),
            forall|k: Seq<char>| k != name@ && #[trigger] old(self).view_map().dom().contains(k) ==> final(self).view_map()[k] == old(self).view_map()[k],
            (pins.entries@.len() == 0 || !old(self).view_map().dom().contains(name@)) ==> final(self).entries == old(self).entries,
            pins.entries@.len() > 0 && old(self).view_map().dom().contains(name@) ==> ({
                let o = old(self).view_map()[name@];
                let n = final(self).view_map()[name@];
                &&& n.version == o.version
                &&& n.vur == o.vur
                &&& n.install_date == o.install_date
                &&& n.build_date == o.build_date
                &&& n.install_type == o.install_type
                &&& n.repo_commit == o.repo_commit
                &&& n.artifact_sha256 == o.artifact_sha256
                &&& n.soname_pins == Some(pins)
            }),
    {
        if pins.entries.len() == 0 {
            return;
        }
        match crate::keyed::find_key(&self.entries, name) {
            None => {
                proof {
                    crate::keyed::lemma_not_in_keys(self.entries@, name@);
                }
            },
            Some(i) => {
                let ghost prev = self.entries@;
                proof {
                    crate::keyed::lemma_as_map_at(prev, i as int);
                }
                let (k, old_e) = self.entries.remove(i);
                let e = Entry {
                    version: old_e.version,
                    vur: old_e.vur,
                    install_date: old_e.install_date,
                    build_date: old_e.build_date,
                    install_type: old_e.install_type,
                    repo_commit: old_e.repo_commit,
                    artifact_sha256: old_e.artifact_sha256,
                    soname_pins: Some(pins),
                };
                let ghost ne = (k, e);
                self.entries.insert(i, (k, e));
                proof {
                    assert(self.entries@ =~= prev.update(i as int, ne));
                    crate::keyed::lemma_as_map_update(prev, i as int, ne);
                }
            },
        }
    }

    /// Drops a package's record; whether there was one.
    pub fn remove(&mut self, name: &str) -> (r: bool)
        requires
            old(self).wf(),
        ensures
            final(self).wf(),
            final(self).view_map() == old(self).view_map().remove(name@),
            r == old(self).view_map().dom().contains(name@),
    {
        remove_key(&mut self.entries, name)
    }

    /// The number of recorded packages.
    pub fn len(&self) -> (r: usize)
        requires
            self.wf(),
        ensures
            r == self.view_map().dom().len(),
    {
        proof {
            lemma_as_map_len(self.entries@);
        }
        self.entries.len()
    }
}

/// `pred` answered `b` for the record `e` of the package `k`.
pub open spec fn answered<F: Fn(&str, &Entry) -> bool>(pred: F, k: Seq<char>, e: Entry, b: bool) -> bool {
    exists|s: &str| s@ == k && #[trigger] call_ensures(pred, (s, &e), b)
}

/// Whether `name` is one of `names`.
pub fn names_contain(names: &Vec<String>, name: &str) -> (r: bool)
    ensures
        r == crate::metadata::strs_view(names@).contains(name@),
{
    let want = chars_of(name);
    let mut i: usize = 0;
    while i < names.len()
        invariant
            i <= names@.len(),
            want@ == name@,
            forall|j: int| 0 <= j < i ==> names@[j]@ != name@,
        decreases names@.len() - i,
    {
        let a = chars_of(names[i].as_str());
        if crate::text::chars_eq(&a, &want) {
            assert(crate::metadata::strs_view(names@)[i as int] == name@);
            return true;
        }
        i = i + 1;
    }
    proof {
        if crate::metadata::strs_view(names@).contains(name@) {
            let j = choose|j: int|
                0 <= j < names@.len() && crate::metadata::strs_view(names@)[j] == name@;
            assert(names@[j]@ == name@);
        }
    }
    false
}

/// Two records that hold the same values.
pub open spec fn same_entry(a: Entry, b: Entry) -> bool {
    &&& a.version == b.version
    &&& a.vur == b.vur
    &&& a.install_date == b.install_date
    &&& a.build_date == b.build_date
    &&& a.install_type == b.install_type
    &&& a.repo_commit == b.repo_commit
    &&& a.artifact_sha256 == b.artifact_sha256
    &&& match (a.soname_pins, b.soname_pins) {
        (Some(p), Some(q)) => p.entries@ == q.entries@,
        (None, None) => true,
        _ => false,
    }
}

fn clone_pins(p: &SonamePins) -> (r: SonamePins)
    ensures
        r.entries@ == p.entries@,
{
    let mut v: Vec<(String, String)> = Vec::new();
    let mut i: usize = 0;
    while i < p.entries.len()
        invariant
            i <= p.entries@.len(),
            v@ == p.entries@.take(i as int),
        decreases p.entries@.len() - i,
    {
        let a = p.entries[i].0.clone();
        let b = p.entries[i].1.clone();
        v.push((a, b));
        assert(p.entries@.take(i as int + 1) =~= p.entries@.take(i as int).push(p.entries@[i as int]));
        i = i + 1;
    }
    assert(p.entries@.take(p.entries@.len() as int) =~= p.entries@);
    SonamePins { entries: v }
}

fn clone_entry(e: &Entry) -> (r: Entry)
    ensures
        same_entry(r, *e),
{
    Entry {
        version: e.version.clone(),
        vur: e.vur.clone(),
        install_date: e.install_date,
        build_date: e.build_date,
        install_type: e.install_type,
        repo_commit: crate::metadata::clone_opt_string(&e.repo_commit),
        artifact_sha256: crate::metadata::clone_opt_string(&e.artifact_sha256),
        soname_pins: match &e.soname_pins {
            Some(p) => Some(clone_pins(p)),
            None => None,
        },
    }
}

impl InstalledDb {
    /// Keeps only the records of the packages in `keep` (the packages still
    /// installed); the kept records are unchanged.
    pub fn retain_names(&mut self, keep: &Vec<String>)
        requires
            old(self).wf(),
        ensures
            final(self).wf(),
            forall|k: Seq<char>| #[trigger]
                final(self).view_map().dom().contains(k) <==> (old(self).view_map().dom().contains(k)
                    && crate::metadata::strs_view(keep@).contains(k)),
            forall|k: Seq<char>| #[trigger]
                final(self).view_map().dom().contains(k) ==> final(self).view_map()[k] == old(self).view_map()[k],
    {
        let ghost kv = crate::metadata::strs_view(keep@);
        let mut doomed: Vec<String> = Vec::new();
        let mut i: usize = 0;
        while i < self.entries.len()
            invariant
                i <= self.entries@.len(),
                kv == crate::metadata::strs_view(keep@),
                forall|j: int| 0 <= j < doomed@.len() ==> !kv.contains(#[trigger] doomed@[j]@),
                forall|k: Seq<char>|
                    !kv.contains(k) && #[trigger] keys_of(self.entries@).take(i as int).contains(k)
                        ==> crate::metadata::strs_view(doomed@).contains(k),
            decreases self.entries@.len() - i,
        {
            let ghost dv0 = crate::metadata::strs_view(doomed@);
            if !names_contain(keep, self.entries[i].0.as_str()) {
                let ghost before = doomed@;
                doomed.push(self.entries[i].0.clone());
                proof {
                    assert(crate::metadata::strs_view(doomed@) =~= crate::metadata::strs_view(before).push(
                        self.entries@[i as int].0@,
                    ));
                }
            }
            proof {
                let ks = keys_of(self.entries@);
                assert(ks.take(i as int + 1) =~= ks.take(i as int).push(ks[i as int]));
                assert forall|k: Seq<char>|
                    !kv.contains(k) && #[trigger] ks.take(i as int + 1).contains(k) implies crate::metadata::strs_view(
                    doomed@,
                ).contains(k) by {
                    crate::sorting::lemma_push_contains(ks.take(i as int), ks[i as int], k);
                    if k == ks[i as int] {
                        assert(crate::metadata::strs_view(doomed@)[doomed@.len() - 1] == k);
                    } else {
                        assert(dv0.contains(k));
                        if crate::metadata::strs_view(doomed@) != dv0 {
                            crate::sorting::lemma_push_contains(dv0, ks[i as int], k);
                        }
                    }
                }
            }
            i = i + 1;
        }
        let ghost m0 = self.view_map();
        assert(keys_of(self.entries@).take(self.entries@.len() as int) =~= keys_of(self.entries@));
        assert(crate::metadata::strs_view(doomed@).take(0) =~= Seq::<Seq<char>>::empty());
        let mut d: usize = 0;
        while d < doomed.len()
            invariant
                d <= doomed@.len(),
                self.wf(),
                forall|j: int| 0 <= j < doomed@.len() ==> !kv.contains(#[trigger] doomed@[j]@),
                forall|k: Seq<char>| #[trigger]
                    self.view_map().dom().contains(k) <==> (m0.dom().contains(k)
                        && !crate::metadata::strs_view(doomed@).take(d as int).contains(k)),
                forall|k: Seq<char>| #[trigger] self.view_map().dom().contains(k) ==> self.view_map()[k] == m0[k],
            decreases doomed@.len() - d,
        {
            let ghost mb = self.view_map();
            remove_key(&mut self.entries, doomed[d].as_str());
            proof {
                let ds = crate::metadata::strs_view(doomed@);
                assert(self.view_map() == mb.remove(doomed@[d as int]@));
                assert forall|k: Seq<char>| #[trigger] self.view_map().dom().contains(k) implies self.view_map()[k] == m0[k] by {
                    assert(mb.dom().contains(k));
                }
                assert(ds.take(d as int + 1) =~= ds.take(d as int).push(ds[d as int]));
                assert forall|k: Seq<char>| #[trigger]
                    self.view_map().dom().contains(k) <==> (m0.dom().contains(k) && !ds.take(d as int + 1).contains(k)) by {
                    crate::sorting::lemma_push_contains(ds.take(d as int), ds[d as int], k);
                    assert(mb.dom().contains(k) <==> (m0.dom().contains(k) && !ds.take(d as int).contains(k)));
                }
            }
            d = d + 1;
        }
        proof {
            let ds = crate::metadata::strs_view(doomed@);
            assert(ds.take(ds.len() as int) =~= ds);
            assert forall|k: Seq<char>| #[trigger]
                self.view_map().dom().contains(k) <==> (m0.dom().contains(k) && kv.contains(k)) by {
                crate::keyed::lemma_as_map_dom(old(self).entries@, k);
                if ds.contains(k) {
                    let j = choose|j: int| 0 <= j < ds.len() && ds[j] == k;
                    assert(!kv.contains(doomed@[j]@));
                }
            }
        }
    }

    /// Keeps only the records for which `pred` answers `true`, asking it
    /// once per record; the kept records are unchanged.
    pub fn retain<F: Fn(&str, &Entry) -> bool>(&mut self, pred: F)
        requires
            old(self).wf(),
            forall|s: &str, e: &Entry| #[trigger] call_requires(pred, (s, e)),
        ensures
            final(self).wf(),
            forall|k: Seq<char>| #[trigger]
                final(self).view_map().dom().contains(k) ==> old(self).view_map().dom().contains(k)
                    && final(self).view_map()[k] == old(self).view_map()[k] && answered(
                    pred,
                    k,
                    old(self).view_map()[k],
                    true,
                ),
            forall|k: Seq<char>|
                old(self).view_map().dom().contains(k) && !#[trigger] final(self).view_map().dom().contains(k)
                    ==> answered(pred, k, old(self).view_map()[k], false),
    {
        let ghost v0 = self.entries@;
        let mut doomed: Vec<String> = Vec::new();
        let mut i: usize = 0;
        while i < self.entries.len()
            invariant
                i <= self.entries@.len(),
                self.entries@ == v0,
                forall|s: &str, e: &Entry| #[trigger] call_requires(pred, (s, e)),
                forall|j: int|
                    0 <= j < doomed@.len() ==> exists|m: int|
                        0 <= m < i && (#[trigger] v0[m]).0@ == (#[trigger] doomed@[j])@ && answered(pred, v0[m].0@, v0[m].1, false),
                forall|m: int|
                    0 <= m < i ==> (crate::metadata::strs_view(doomed@).contains((#[trigger] v0[m]).0@) || answered(
                        pred,
                        v0[m].0@,
                        v0[m].1,
                        true,
                    )),
            decreases self.entries@.len() - i,
        {
            let ks = self.entries[i].0.as_str();
            let keep = pred(ks, &self.entries[i].1);
            proof {
                assert(answered(pred, v0[i as int].0@, v0[i as int].1, keep));
            }
            let ghost d0 = doomed@;
            if !keep {
                doomed.push(self.entries[i].0.clone());
                proof {
                    assert(crate::metadata::strs_view(doomed@) =~= crate::metadata::strs_view(d0).push(v0[i as int].0@));
                    assert forall|j: int| 0 <= j < doomed@.len() implies exists|m: int|
                        0 <= m < i + 1 && (#[trigger] v0[m]).0@ == (#[trigger] doomed@[j])@ && answered(pred, v0[m].0@, v0[m].1, false) by {
                        if j == d0.len() {
                            assert(v0[i as int].0@ == doomed@[j]@);
                        } else {
                            assert(doomed@[j] == d0[j]);
                        }
                    }
                    assert forall|m: int| 0 <= m < i + 1 implies (crate::metadata::strs_view(doomed@).contains(
                        (#[trigger] v0[m]).0@,
                    ) || answered(pred, v0[m].0@, v0[m].1, true)) by {
                        crate::sorting::lemma_push_contains(crate::metadata::strs_view(d0), v0[i as int].0@, v0[m].0@);
                    }
                }
            }
            i = i + 1;
        }
        let ghost m0 = self.view_map();
        assert(crate::metadata::strs_view(doomed@).take(0) =~= Seq::<Seq<char>>::empty());
        let mut d: usize = 0;
        while d < doomed.len()
            invariant
                d <= doomed@.len(),
                self.wf(),
                forall|k: Seq<char>| #[trigger]
                    self.view_map().dom().contains(k) <==> (m0.dom().contains(k)
                        && !crate::metadata::strs_view(doomed@).take(d as int).contains(k)),
                forall|k: Seq<char>| #[trigger] self.view_map().dom().contains(k) ==> self.view_map()[k] == m0[k],
            decreases doomed@.len() - d,
        {
            let ghost mb = self.view_map();
            remove_key(&mut self.entries, doomed[d].as_str());
            proof {
                let ds = crate::metadata::strs_view(doomed@);
                assert(self.view_map() == mb.remove(doomed@[d as int]@));
                assert forall|k: Seq<char>| #[trigger] self.view_map().dom().contains(k) implies self.view_map()[k] == m0[k] by {
                    assert(mb.dom().contains(k));
                }
                assert(ds.take(d as int + 1) =~= ds.take(d as int).push(ds[d as int]));
                assert forall|k: Seq<char>| #[trigger]
                    self.view_map().dom().contains(k) <==> (m0.dom().contains(k) && !ds.take(d as int + 1).contains(k)) by {
                    crate::sorting::lemma_push_contains(ds.take(d as int), ds[d as int], k);
                    assert(mb.dom().contains(k) <==> (m0.dom().contains(k) && !ds.take(d as int).contains(k)));
                }
            }
            d = d + 1;
        }
        proof {
            let ds = crate::metadata::strs_view(doomed@);
            assert(ds.take(ds.len() as int) =~= ds);
            assert forall|k: Seq<char>| #[trigger] self.view_map().dom().contains(k) implies old(self).view_map().dom().contains(k)
                && self.view_map()[k] == old(self).view_map()[k] && answered(pred, k, old(self).view_map()[k], true) by {
                crate::keyed::lemma_as_map_dom(v0, k);
                let m = choose|m: int| 0 <= m < keys_of(v0).len() && keys_of(v0)[m] == k;
                assert(v0[m].0@ == k);
                crate::keyed::lemma_as_map_at(v0, m);
            }
            assert forall|k: Seq<char>|
                old(self).view_map().dom().contains(k) && !#[trigger] self.view_map().dom().contains(k)
                    implies answered(pred, k, old(self).view_map()[k], false) by {
                assert(ds.contains(k));
                let j = choose|j: int| 0 <= j < ds.len() && ds[j] == k;
                assert(doomed@[j]@ == k);
                let m = choose|m: int|
                    0 <= m < v0.len() && (#[trigger] v0[m]).0@ == (#[trigger] doomed@[j])@ && answered(pred, v0[m].0@, v0[m].1, false);
                crate::keyed::lemma_as_map_at(v0, m);
            }
        }
    }

    /// The records in name order, copied out.
    pub fn entries_snapshot(&self) -> (r: Vec<(String, Entry)>)
        ensures
            r@.len() == self.entries@.len(),
            forall|i: int| 0 <= i < r@.len() ==> #[trigger] r@[i].0@ == self.entries@[i].0@ && same_entry(
                r@[i].1,
                self.entries@[i].1,
            ),
    {
        let mut r: Vec<(String, Entry)> = Vec::new();
        let mut i: usize = 0;
        while i < self.entries.len()
            invariant
                i <= self.entries@.len(),
                r@.len() == i,
                forall|j: int| 0 <= j < i ==> #[trigger] r@[j].0@ == self.entries@[j].0@ && same_entry(
                    r@[j].1,
                    self.entries@[j].1,
                ),
            decreases self.entries@.len() - i,
        {
            let k = self.entries[i].0.clone();
            let e = clone_entry(&self.entries[i].1);
            r.push((k, e));
            i = i + 1;
        }
        r
    }
}

proof fn lemma_as_map_len<V>(v: Seq<(String, V)>)
    requires
        keyed_wf(v),
    ensures
        as_map(v).dom().len() == v.len(),
        as_map(v).dom().finite(),
    decreases v.len(),
{
    if v.len() > 0 {
        let w = v.drop_last();
        assert(crate::keyed::keys_of(w) =~= crate::keyed::keys_of(v).drop_last());
        lemma_as_map_len(w);
        crate::keyed::lemma_as_map_dom(w, v.last().0@);
        if crate::keyed::keys_of(w).contains(v.last().0@) {
            let m = choose|m: int| 0 <= m < crate::keyed::keys_of(w).len() && crate::keyed::keys_of(w)[m] == v.last().0@;
            assert(crate::keyed::keys_of(v)[m] == crate::keyed::keys_of(v)[v.len() - 1]);
            crate::version::lemma_text_order_zero(crate::keyed::keys_of(v)[m], crate::keyed::keys_of(v)[v.len() - 1]);
        }
    }
}

// ------------------------------------------------------------------
// Drift
// ------------------------------------------------------------------

pub open spec fn first12(s: Seq<char>) -> Seq<char> {
    crate::lockfile::first12(s)
}

/// Warnings when the same version is reinstalled with other pins: another
/// commit (when both are known), else another artifact (when both are
/// known); a new version or an unknown package warns about nothing.
pub open spec fn drift(
    old: Option<(Seq<char>, Option<Seq<char>>, Option<Seq<char>>)>,
    version: Seq<char>,
    commit: Option<Seq<char>>,
    sha: Option<Seq<char>>,
) -> Seq<Seq<char>> {
    match old {
        None => Seq::empty(),
        Some((ov, oc, os)) => if ov != version {
            Seq::empty()
        } else {
            match (oc, commit) {
                (Some(a), Some(b)) => if a != b {
                    seq![
                        "drift de procedencia: '"@ + version + "' reinstalado desde otro commit ("@
                            + first12(a) + " -> "@ + first12(b)
                            + "); la plantilla/índice cambió bajo la misma versión"@,
                    ]
                } else {
                    Seq::empty()
                },
                _ => match (os, sha) {
                    (Some(a), Some(b)) => if a != b {
                        seq![
                            "drift de artefacto: '"@ + version
                                + "' reinstalado con distinto binario que el pineado"@,
                        ]
                    } else {
                        Seq::empty()
                    },
                    _ => Seq::empty(),
                },
            }
        },
    }
}

fn opt_eq(a: &String, b: &String) -> (r: bool)
    ensures
        r == (a@ == b@),
{
    crate::text::chars_eq(&chars_of(a.as_str()), &chars_of(b.as_str()))
}

/// Drift warnings for reinstalling `version` (see [`drift`]).
pub fn drift_warnings(old: Option<&Entry>, version: &str, repo_commit: &Option<String>, artifact_sha256: &Option<String>) -> (r: Vec<String>)
    ensures
        crate::metadata::strs_view(r@) == drift(
            match old {
                Some(e) => Some(
                    (
                        e.version@,
                        crate::metadata::opt_view(e.repo_commit),
                        crate::metadata::opt_view(e.artifact_sha256),
                    ),
                ),
                None => None,
            },
            version@,
            crate::metadata::opt_view(*repo_commit),
            crate::metadata::opt_view(*artifact_sha256),
        ),
{
    let mut w: Vec<String> = Vec::new();
    let old = match old {
        Some(o) => o,
        None => {
            assert(crate::metadata::strs_view(w@) =~= Seq::<Seq<char>>::empty());
            return w;
        },
    };
    if !crate::text::chars_eq(&chars_of(old.version.as_str()), &chars_of(version)) {
        assert(crate::metadata::strs_view(w@) =~= Seq::<Seq<char>>::empty());
        return w;
    }
    match (&old.repo_commit, repo_commit) {
        (Some(a), Some(b)) => {
            if !opt_eq(a, b) {
                let mut m = "drift de procedencia: '".to_string();
                push_str(&mut m, version);
                push_str(&mut m, "' reinstalado desde otro commit (");
                push_str(&mut m, crate::lockfile::first12_string(a.as_str()).as_str());
                push_str(&mut m, " -> ");
                push_str(&mut m, crate::lockfile::first12_string(b.as_str()).as_str());
                push_str(&mut m, "); la plantilla/índice cambió bajo la misma versión");
                w.push(m);
                assert(crate::metadata::strs_view(w@) =~= seq![m@]);
            } else {
                assert(crate::metadata::strs_view(w@) =~= Seq::<Seq<char>>::empty());
            }
        },
        _ => {
            match (&old.artifact_sha256, artifact_sha256) {
                (Some(a), Some(b)) => {
                    if !opt_eq(a, b) {
                        let mut m = "drift de artefacto: '".to_string();
                        push_str(&mut m, version);
                        push_str(&mut m, "' reinstalado con distinto binario que el pineado");
                        w.push(m);
                        assert(crate::metadata::strs_view(w@) =~= seq![m@]);
                    } else {
                        assert(crate::metadata::strs_view(w@) =~= Seq::<Seq<char>>::empty());
                    }
                },
                _ => {
                    assert(crate::metadata::strs_view(w@) =~= Seq::<Seq<char>>::empty());
                },
            }
        },
    }
    w
}


// ------------------------------------------------------------------
// The binary records of the earlier LMDB database
// ------------------------------------------------------------------

/// The little-endian value of the `n` bytes of `b` from `i`.
pub open spec fn le_value(b: Seq<u8>, i: int, n: nat) -> nat
    decreases n,
{
    if n == 0 {
        0
    } else {
        b[i] as nat + 256 * le_value(b, i + 1, (n - 1) as nat)
    }
}

pub open spec fn pow256(n: nat) -> nat
    decreases n,
{
    if n == 0 {
        1
    } else {
        256 * pow256((n - 1) as nat)
    }
}

proof fn lemma_le_value_bound(b: Seq<u8>, i: int, n: nat)
    ensures
        le_value(b, i, n) < pow256(n),
    decreases n,
{
    if n > 0 {
        lemma_le_value_bound(b, i + 1, (n - 1) as nat);
    }
}

/// Reads `n` (at most 8) little-endian bytes at `i`.
fn read_le(b: &[u8], i: usize, n: usize) -> (r: u64)
    requires
        n <= 8,
        i + n <= b@.len(),
    ensures
        r == le_value(b@, i as int, n as nat),
        n == 2 ==> r < 0x1_0000,
        n == 4 ==> r < 0x1_0000_0000,
{
    proof {
        lemma_le_value_bound(b@, i as int, n as nat);
        reveal_with_fuel(pow256, 9);
        assert(pow256(8) == 0x1_0000_0000_0000_0000);
    }
    let mut v: u64 = 0;
    let mut k: usize = n;
    let blen = b.len();
    while k > 0
        invariant
            n <= 8,
            b@.len() == blen,
            i + n <= b@.len(),
            k <= n,
            v == le_value(b@, i + k, (n - k) as nat),
            pow256(8) == 0x1_0000_0000_0000_0000,
        decreases k,
    {
        proof {
            lemma_le_value_bound(b@, i + k, (n - k) as nat);
            lemma_pow256_mono((n - k + 1) as nat, 8);
            reveal_with_fuel(pow256, 2);
            assert(pow256((n - k + 1) as nat) == 256 * pow256((n - k) as nat));
            assert(v * 256 + 255 < 0x1_0000_0000_0000_0000);
        }
        v = b[i + k - 1] as u64 + 256 * v;
        k = k - 1;
    }
    v
}

proof fn lemma_pow256_mono(a: nat, b: nat)
    requires
        a <= b,
    ensures
        pow256(a) <= pow256(b),
    decreases b,
{
    if a < b {
        lemma_pow256_mono(a, (b - 1) as nat);
    }
}

/// The fields of a binary record: version bytes, repository bytes, install
/// date and type code; `None` when the bytes run out.
pub open spec fn bincode_fields(d: Seq<u8>) -> Option<(Seq<u8>, Seq<u8>, nat, nat)> {
    if d.len() < 8 {
        None
    } else {
        let vl: int = le_value(d, 0, 8) as int;
        let c1: int = vl + 8;
        if c1 > d.len() || c1 + 8 > d.len() {
            None
        } else {
            let ul = le_value(d, c1, 8);
            let c2: int = c1 + 8 + (ul as int);
            if c2 > d.len() || c2 + 12 > d.len() {
                None
            } else {
                Some((d.subrange(8, c1), d.subrange(c1 + 8, c2), le_value(d, c2, 8), le_value(d, c2 + 8, 4)))
            }
        }
    }
}

/// A binary record read: version, repository, install date and type;
/// `None` when it is cut short, a text is not UTF-8 or the type code is
/// neither 0 (source) nor 1 (binary).
pub open spec fn bincode_record(d: Seq<u8>) -> Option<(Seq<char>, Seq<char>, nat, InstallType)> {
    match bincode_fields(d) {
        None => None,
        Some((vb, ub, date, code)) => if !valid_utf8(vb) || !valid_utf8(ub) {
            None
        } else if code == 0 {
            Some((decode_utf8(vb), decode_utf8(ub), date, InstallType::Source))
        } else if code == 1 {
            Some((decode_utf8(vb), decode_utf8(ub), date, InstallType::Binary))
        } else {
            None
        },
    }
}

/// `std::str::from_utf8`, owned: the text when the bytes are valid UTF-8.
#[verifier::external_body]
pub(crate) fn utf8_string(b: &[u8]) -> (r: Option<String>)
    ensures
        r is Some <==> valid_utf8(b@),
        r matches Some(s) ==> s@ == decode_utf8(b@),
{
    std::str::from_utf8(b).ok().map(|s| s.to_string())
}

/// Decodes a binary record of the earlier database (see
/// [`bincode_record`]); a source build gets `install_date * 1000` as build
/// date (wrapping, as a `u64` product in a release build does), and no
/// pins.
pub fn decode_bincode_entry(data: &[u8]) -> (r: Option<Entry>)
    ensures
        match bincode_record(data@) {
            None => r is None,
            Some((v, u, date, t)) => r matches Some(e) && e.version@ == v && e.vur@ == u
                && e.install_date == date && e.install_type == t && e.build_date == (if t
                == InstallType::Source {
                Some(((date * 1000) % 0x1_0000_0000_0000_0000) as u64)
            } else {
                None
            }) && e.repo_commit is None && e.artifact_sha256 is None && e.soname_pins is None,
        },
{
    let len = data.len();
    if len < 8 {
        return None;
    }
    let vl = read_le(data, 0, 8);
    if vl > (len - 8) as u64 || (len - 8) as u64 - vl < 8 {
        return None;
    }
    let c1 = 8 + vl as usize;
    let ul = read_le(data, c1, 8);
    if ul > (len - c1 - 8) as u64 || (len - c1 - 8) as u64 - ul < 12 {
        return None;
    }
    let c2 = c1 + 8 + ul as usize;
    let date = read_le(data, c2, 8);
    let code = read_le(data, c2 + 8, 4);
    let vb = vstd::slice::slice_subrange(data, 8, c1);
    let ub = vstd::slice::slice_subrange(data, c1 + 8, c2);
    let version = match utf8_string(vb) {
        Some(s) => s,
        None => {
            return None;
        },
    };
    let vur = match utf8_string(ub) {
        Some(s) => s,
        None => {
            return None;
        },
    };
    let install_type = if code == 0 {
        InstallType::Source
    } else if code == 1 {
        InstallType::Binary
    } else {
        return None;
    };
    let build_date = if code == 0 {
        Some(date.wrapping_mul(1000))
    } else {
        None
    };
    Some(
        Entry {
            version,
            vur,
            install_date: date,
            build_date,
            install_type,
            repo_commit: None,
            artifact_sha256: None,
            soname_pins: None,
        },
    )
}

/// A record read from an LMDB leaf node: its key and its fields.
pub type LmdbRecord = (Seq<char>, (Seq<char>, Seq<char>, nat, InstallType));

/// The record of the node whose offset is stored at `indx` of a page: the
/// node must fit in the page, have a non-empty UTF-8 key and a value of at
/// least 28 bytes that decodes.
pub open spec fn node_record(page: Seq<u8>, indx: int) -> Option<LmdbRecord> {
    let node_pos = le_value(page, indx, 2) as int;
    if node_pos + 8 > 4096 {
        None
    } else {
        let val_size = le_value(page, node_pos, 4) as int;
        let ksize = le_value(page, node_pos + 6, 2) as int;
        let key_start = node_pos + 8;
        let val_start = key_start + ksize;
        if val_start + val_size <= 4096 && ksize > 0 && val_size >= 28 {
            let key = page.subrange(key_start, val_start);
            if !valid_utf8(key) {
                None
            } else {
                match bincode_record(page.subrange(val_start, val_start + val_size)) {
                    Some(rec) => Some((decode_utf8(key), rec)),
                    None => None,
                }
            }
        } else {
            None
        }
    }
}

/// The records of the node offsets stored from `indx` up to `lower`.
pub open spec fn node_records(page: Seq<u8>, indx: int, lower: int) -> Seq<LmdbRecord>
    decreases lower - indx,
{
    if indx + 2 > lower {
        Seq::empty()
    } else {
        (match node_record(page, indx) {
            Some(x) => seq![x],
            None => Seq::empty(),
        }) + node_records(page, indx + 2, lower)
    }
}

/// The records of a leaf page (flag 0x02 without 0x01, a plausible
/// `lower`); other pages give none.
pub open spec fn page_records(page: Seq<u8>) -> Seq<LmdbRecord> {
    let flags = le_value(page, 10, 2);
    let lower = le_value(page, 12, 2) as int;
    if (flags / 2) % 2 == 1 && flags % 2 == 0 && 16 <= lower <= 4096 {
        node_records(page, 16, lower)
    } else {
        Seq::empty()
    }
}

/// The records of the whole pages of `data` from `offset`, in order.
pub open spec fn data_records(data: Seq<u8>, offset: int) -> Seq<LmdbRecord>
    decreases data.len() - offset,
{
    if offset < 0 || offset + 4096 > data.len() {
        Seq::empty()
    } else {
        page_records(data.subrange(offset, offset + 4096)) + data_records(data, offset + 4096)
    }
}

/// The last record for key `k`.
pub open spec fn last_record(recs: Seq<LmdbRecord>, k: Seq<char>) -> Option<(Seq<char>, Seq<char>, nat, InstallType)>
    decreases recs.len(),
{
    if recs.len() == 0 {
        None
    } else if recs.last().0 == k {
        Some(recs.last().1)
    } else {
        last_record(recs.drop_last(), k)
    }
}

/// Whether `e` holds what a record read says (see [`decode_bincode_entry`]).
pub open spec fn entry_of(e: Entry, rec: (Seq<char>, Seq<char>, nat, InstallType)) -> bool {
    let (v, u, date, t) = rec;
    &&& e.version@ == v
    &&& e.vur@ == u
    &&& e.install_date == date
    &&& e.install_type == t
    &&& e.build_date == (if t == InstallType::Source {
        Some(((date * 1000) % 0x1_0000_0000_0000_0000) as u64)
    } else {
        None
    })
    &&& e.repo_commit is None
    &&& e.artifact_sha256 is None
    &&& e.soname_pins is None
}

/// The entries `recs` leave, a later record for a key replacing an earlier.
pub open spec fn holds_records(v: Seq<(String, Entry)>, recs: Seq<LmdbRecord>) -> bool {
    &&& keyed_wf(v)
    &&& forall|k: Seq<char>| #[trigger] as_map(v).dom().contains(k) <==> last_record(recs, k) is Some
    &&& forall|k: Seq<char>| #[trigger] as_map(v).dom().contains(k) ==> entry_of(as_map(v)[k], last_record(recs, k)->0)
}

fn add_record(v: &mut Vec<(String, Entry)>, key: String, e: Entry, Ghost(recs): Ghost<Seq<LmdbRecord>>, Ghost(rec): Ghost<LmdbRecord>)
    requires
        holds_records(old(v)@, recs),
        rec.0 == key@,
        entry_of(e, rec.1),
    ensures
        holds_records(final(v)@, recs.push(rec)),
{
    let ghost ev = e;
    upsert_key(v, key, e);
    proof {
        let n = recs.push(rec);
        assert(n.drop_last() =~= recs);
        assert forall|k: Seq<char>| #[trigger] as_map(v@).dom().contains(k) <==> last_record(n, k) is Some by {
        }
        assert forall|k: Seq<char>| #[trigger] as_map(v@).dom().contains(k) implies entry_of(as_map(v@)[k], last_record(n, k)->0) by {
        }
    }
}

/// Reads the entries out of an earlier LMDB `data.mdb`: the leaf pages
/// after the two meta pages (4096 bytes each), their nodes' UTF-8 keys and
/// binary records; what does not read is skipped.
pub fn parse_lmdb_data_file(data: &[u8]) -> (r: Vec<(String, Entry)>)
    ensures
        holds_records(r@, data_records(data@, 8192)),
{
    let mut out: Vec<(String, Entry)> = Vec::new();
    let ghost mut done: Seq<LmdbRecord> = Seq::empty();
    proof {
        assert(crate::keyed::keys_of(out@) =~= Seq::<Seq<char>>::empty());
    }
    let len = data.len();
    if len < 8192 {
        return out;
    }
    let mut offset: usize = 8192;
    assert(done + data_records(data@, 8192) =~= data_records(data@, 8192));
    while offset <= len && 4096 <= len - offset
        invariant
            len == data@.len(),
            8192 <= offset,
            holds_records(out@, done),
            done + data_records(data@, offset as int) == data_records(data@, 8192),
        decreases len - offset,
    {
        let page = vstd::slice::slice_subrange(data, offset, offset + 4096);
        let ghost pg = page@;
        let ghost before = done;
        let flags = read_le(page, 10, 2);
        let lower = read_le(page, 12, 2);
        if (flags / 2) % 2 == 1 && flags % 2 == 0 && 16 <= lower && lower <= 4096 {
            let mut indx: u64 = 16;
            proof {
                assert(done + node_records(pg, 16, lower as int) == before + page_records(pg));
            }
            while indx + 2 <= lower
                invariant
                    16 <= indx <= 4098,
                    lower <= 4096,
                    page@ == pg,
                    pg.len() == 4096,
                    holds_records(out@, done),
                    done + node_records(pg, indx as int, lower as int) == before + page_records(pg),
                decreases lower - indx,
            {
                let ghost d0 = done;
                let node_pos = read_le(page, indx as usize, 2);
                if node_pos + 8 <= 4096 {
                    let val_size = read_le(page, node_pos as usize, 4);
                    let ksize = read_le(page, node_pos as usize + 6, 2);
                    let key_start = node_pos + 8;
                    let val_start = key_start + ksize;
                    if val_start + val_size <= 4096 && ksize > 0 && val_size >= 28 {
                        let kb = vstd::slice::slice_subrange(page, key_start as usize, val_start as usize);
                        match utf8_string(kb) {
                            Some(key) => {
                                let vb = vstd::slice::slice_subrange(
                                    page,
                                    val_start as usize,
                                    (val_start + val_size) as usize,
                                );
                                match decode_bincode_entry(vb) {
                                    Some(e) => {
                                        let ghost rec = node_record(pg, indx as int)->0;
                                        add_record(&mut out, key, e, Ghost(done), Ghost(rec));
                                        proof {
                                            done = done.push(rec);
                                        }
                                    },
                                    None => {},
                                }
                            },
                            None => {},
                        }
                    }
                }
                proof {
                    let step = match node_record(pg, indx as int) {
                        Some(x) => seq![x],
                        None => Seq::<LmdbRecord>::empty(),
                    };
                    assert(done == d0 + step);
                    assert(d0 + node_records(pg, indx as int, lower as int) == d0 + (step + node_records(pg, indx + 2, lower as int)));
                    assert(done + node_records(pg, indx + 2, lower as int) =~= d0 + (step + node_records(pg, indx + 2, lower as int)));
                }
                indx = indx + 2;
            }
            proof {
                assert(node_records(pg, indx as int, lower as int) =~= Seq::<LmdbRecord>::empty());
                assert(done =~= before + page_records(pg));
            }
        } else {
            proof {
                assert(page_records(pg) =~= Seq::<LmdbRecord>::empty());
                assert(done =~= before + page_records(pg));
            }
        }
        proof {
            assert(data_records(data@, offset as int) == page_records(pg) + data_records(data@, offset + 4096));
            assert(done + data_records(data@, offset + 4096) =~= before + data_records(data@, offset as int));
        }
        offset = offset + 4096;
    }
    proof {
        assert(data_records(data@, offset as int) =~= Seq::<LmdbRecord>::empty());
        assert(done =~= data_records(data@, 8192));
    }
    out
}
} // verus!
