//! The index cache: the metadata read from each repository's index, by
//! key (`<repo>:<HEAD>`), with the second it was stored, so that a reading
//! older than the time-to-live is read again.
use vstd::prelude::*;
use crate::keyed::{as_map, keyed_wf, keys_of};
use crate::metadata::{VurInfo, VurInfoView};

verus! {

/// The seconds since the Unix epoch, from the system clock (0 before the
/// epoch).
#[verifier::external_body]
fn now_epoch_secs() -> (r: u64) {
    std::time::SystemTime::now().duration_since(std::time::UNIX_EPOCH).map(|d| d.as_secs()).unwrap_or(0)
}

/// One cached index and when it was stored.
#[derive(Debug)]
pub struct CachedIndex {
    pub packages: Vec<VurInfo>,
    /// Seconds since the epoch.
    pub cached_at: u64,
}

/// The cache: entries by key, in key order.
#[derive(Debug)]
pub struct CacheIndex {
    pub entries: Vec<(String, CachedIndex)>,
}

pub open spec fn infos_view(v: Seq<VurInfo>) -> Seq<VurInfoView> {
    v.map_values(|x: VurInfo| x@)
}

/// Whether a reading stored at `cached_at` is still valid at `now`: always
/// without a time-to-live, else while its age (never negative) is below it.
pub open spec fn fresh(cached_at: u64, ttl: Option<u64>, now: u64) -> bool {
    match ttl {
        None => true,
        Some(t) => (if now >= cached_at {
            now - cached_at
        } else {
            0
        }) < t,
    }
}

/// The keys of a repository: `<repo>:` and what follows.
pub open spec fn repo_key(k: Seq<char>, repo: Seq<char>) -> bool {
    crate::text::has_prefix(k, repo + ":"@)
}

fn clone_infos(v: &Vec<VurInfo>) -> (r: Vec<VurInfo>)
    ensures
        infos_view(r@) == infos_view(v@),
{
    let mut r: Vec<VurInfo> = Vec::new();
    let mut i: usize = 0;
    while i < v.len()
        invariant
            i <= v@.len(),
            infos_view(r@) == infos_view(v@).take(i as int),
        decreases v@.len() - i,
    {
        let ghost before = r@;
        let c = v[i].clone();
        r.push(c);
        assert(r@ == before.push(c));
        assert(infos_view(v@).take(i as int + 1) =~= infos_view(v@).take(i as int).push(v@[i as int]@));
        assert(infos_view(r@) =~= infos_view(v@).take(i as int + 1));
        i = i + 1;
    }
    assert(infos_view(v@).take(v@.len() as int) =~= infos_view(v@));
    r
}

impl CacheIndex {
    pub open spec fn wf(&self) -> bool {
        keyed_wf(self.entries@)
    }

    pub open spec fn view_map(&self) -> Map<Seq<char>, CachedIndex> {
        as_map(self.entries@)
    }

    /// An empty cache.
    pub fn new() -> (r: CacheIndex)
        ensures
            r.wf(),
            r.view_map() == Map::<Seq<char>, CachedIndex>::empty(),
    {
        let r = CacheIndex { entries: Vec::new() };
        assert(keys_of(r.entries@) =~= Seq::<Seq<char>>::empty());
        r
    }

    /// Stores `packages` under `key` as read at `now`, replacing what was
    /// there.
    pub fn store_at(&mut self, key: &str, packages: Vec<VurInfo>, now: u64)
        requires
            old(self).wf(),
        ensures
            final(self).wf(),
            final(self).view_map() == old(self).view_map().insert(
                key@,
                CachedIndex { packages, cached_at: now },
            ),
    {
        crate::keyed::upsert_key(&mut self.entries, key.to_owned(), CachedIndex { packages, cached_at: now });
    }

    /// Stores `packages` under `key` as read now (the system clock gives
    /// the time).
    pub fn store(&mut self, key: &str, packages: Vec<VurInfo>)
        requires
            old(self).wf(),
        ensures
            final(self).wf(),
            final(self).view_map().dom() == old(self).view_map().dom().insert(key@),
            final(self).view_map()[key@].packages == packages,
            forall|k: Seq<char>| k != key@ && #[trigger] old(self).view_map().dom().contains(k)
                ==> final(self).view_map()[k] == old(self).view_map()[k],
    {
        let now = now_epoch_secs();
        self.store_at(key, packages, now);
    }

    /// The packages stored under `key` if still valid at `now`.
    pub fn load_valid_at(&self, key: &str, ttl: Option<u64>, now: u64) -> (r: Option<Vec<VurInfo>>)
        requires
            self.wf(),
        ensures
            r is Some <==> (self.view_map().dom().contains(key@) && fresh(
                self.view_map()[key@].cached_at,
                ttl,
                now,
            )),
            r matches Some(v) ==> infos_view(v@) == infos_view(self.view_map()[key@].packages@),
    {
        match crate::keyed::get_key(&self.entries, key) {
            None => None,
            Some(c) => {
                match ttl {
                    Some(t) => {
                        let age = if now >= c.cached_at {
                            now - c.cached_at
                        } else {
                            0
                        };
                        if age >= t {
                            return None;
                        }
                    },
                    None => {},
                }
                Some(clone_infos(&c.packages))
            },
        }
    }

    /// The packages stored under `key` if still valid now (the system clock
    /// gives the time).
    pub fn load_valid(&self, key: &str, ttl: Option<u64>) -> (r: Option<Vec<VurInfo>>)
        requires
            self.wf(),
        ensures
            r is Some ==> self.view_map().dom().contains(key@),
            ttl is None ==> (r is Some <==> self.view_map().dom().contains(key@)),
            ttl == Some(0u64) ==> r is None,
            r matches Some(v) ==> infos_view(v@) == infos_view(self.view_map()[key@].packages@),
    {
        let now = now_epoch_secs();
        self.load_valid_at(key, ttl, now)
    }

    /// Drops every entry of repository `repo` (keys starting `<repo>:`).
    pub fn invalidate_repo(&mut self, repo: &str)
        requires
            old(self).wf(),
        ensures
            final(self).wf(),
            forall|k: Seq<char>| #[trigger]
                final(self).view_map().dom().contains(k) <==> (old(self).view_map().dom().contains(k)
                    && !repo_key(k, repo@)),
            forall|k: Seq<char>| #[trigger]
                final(self).view_map().dom().contains(k) ==> final(self).view_map()[k] == old(self).view_map()[k],
    {
        let prefix = crate::text::concat(repo, ":");
        let pc = crate::text::chars_of(prefix.as_str());
        let mut doomed: Vec<String> = Vec::new();
        let mut i: usize = 0;
        while i < self.entries.len()
            invariant
                i <= self.entries@.len(),
                pc@ == repo@ + ":"@,
                forall|j: int| 0 <= j < doomed@.len() ==> #[trigger] repo_key(doomed@[j]@, repo@),
                forall|k: Seq<char>|
                    repo_key(k, repo@) && #[trigger] keys_of(self.entries@).take(i as int).contains(k)
                        ==> crate::metadata::strs_view(doomed@).contains(k),
            decreases self.entries@.len() - i,
        {
            let ghost dv0 = crate::metadata::strs_view(doomed@);
            let kc = crate::text::chars_of(self.entries[i].0.as_str());
            if crate::text::has_prefix_exec(kc.as_slice(), pc.as_slice()) {
                let ghost before = doomed@;
                doomed.push(self.entries[i].0.clone());
                proof {
                    assert(crate::metadata::strs_view(doomed@) =~= crate::metadata::strs_view(before).push(
                        self.entries@[i as int].0@,
                    ));
                }
            }
            proof {
                let ks = keys_of(self.entries@);
                assert(ks.take(i as int + 1) =~= ks.take(i as int).push(ks[i as int]));
                assert forall|k: Seq<char>|
                    repo_key(k, repo@) && #[trigger] ks.take(i as int + 1).contains(k) implies crate::metadata::strs_view(
                    doomed@,
                ).contains(k) by {
                    crate::sorting::lemma_push_contains(ks.take(i as int), ks[i as int], k);
                    if k == ks[i as int] {
                        assert(crate::metadata::strs_view(doomed@)[doomed@.len() - 1] == k);
                    } else {
                        assert(dv0.contains(k));
                        if crate::metadata::strs_view(doomed@) != dv0 {
                            crate::sorting::lemma_push_contains(dv0, ks[i as int], k);
                        }
                    }
                }
            }
            i = i + 1;
        }
        let ghost m0 = self.view_map();
        assert(keys_of(self.entries@).take(self.entries@.len() as int) =~= keys_of(self.entries@));
        assert(crate::metadata::strs_view(doomed@).take(0) =~= Seq::<Seq<char>>::empty());
        let mut d: usize = 0;
        while d < doomed.len()
            invariant
                d <= doomed@.len(),
                self.wf(),
                forall|j: int| 0 <= j < doomed@.len() ==> #[trigger] repo_key(doomed@[j]@, repo@),
                forall|k: Seq<char>| #[trigger]
                    self.view_map().dom().contains(k) <==> (m0.dom().contains(k)
                        && !crate::metadata::strs_view(doomed@).take(d as int).contains(k)),
                forall|k: Seq<char>| #[trigger] self.view_map().dom().contains(k) ==> self.view_map()[k] == m0[k],
            decreases doomed@.len() - d,
        {
            let ghost mb = self.view_map();
            crate::keyed::remove_key(&mut self.entries, doomed[d].as_str());
            proof {
                let ds = crate::metadata::strs_view(doomed@);
                assert(self.view_map() == mb.remove(doomed@[d as int]@));
                assert forall|k: Seq<char>| #[trigger] self.view_map().dom().contains(k) implies self.view_map()[k] == m0[k] by {
                    assert(mb.dom().contains(k));
                }
                assert(ds.take(d as int + 1) =~= ds.take(d as int).push(ds[d as int]));
                assert forall|k: Seq<char>| #[trigger]
                    self.view_map().dom().contains(k) <==> (m0.dom().contains(k) && !ds.take(d as int + 1).contains(k)) by {
                    crate::sorting::lemma_push_contains(ds.take(d as int), ds[d as int], k);
                    assert(mb.dom().contains(k) <==> (m0.dom().contains(k) && !ds.take(d as int).contains(k)));
                }
            }
            d = d + 1;
        }
        proof {
            let ds = crate::metadata::strs_view(doomed@);
            assert(ds.take(ds.len() as int) =~= ds);
            assert forall|k: Seq<char>| #[trigger]
                self.view_map().dom().contains(k) <==> (m0.dom().contains(k) && !repo_key(k, repo@)) by {
                crate::keyed::lemma_as_map_dom(old(self).entries@, k);
                if ds.contains(k) {
                    let j = choose|j: int| 0 <= j < ds.len() && ds[j] == k;
                    assert(repo_key(doomed@[j]@, repo@));
                }
            }
        }
    }
}

/// What is stored is served back: a cache that stored `packages` under
/// `key` at `now` holds exactly them there, and they stay valid at a later
/// time `later` for as long as no time-to-live is set or their age is below it.
pub proof fn lemma_stored_index_served(
    m: Map<Seq<char>, CachedIndex>,
    key: Seq<char>,
    packages: Vec<VurInfo>,
    now: u64,
    ttl: Option<u64>,
    later: u64,
)
    requires
        now <= later,
    ensures
        ({
            let m2 = m.insert(key, CachedIndex { packages, cached_at: now });
            &&& m2.dom().contains(key)
            &&& m2[key].packages == packages
            &&& fresh(m2[key].cached_at, ttl, later) <==> match ttl {
                None => true,
                Some(t) => later - now < t,
            }
        }),
{
}

} // verus!
