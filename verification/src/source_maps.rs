//! Merging the indexes of the configured repositories, in priority order,
//! into the maps the resolver reads: every package and subpackage name with
//! its candidates, the virtual names packages provide, which binaries are
//! published, the repository priorities, and the binary repository of each
//! VUP package.
use vstd::prelude::*;
use crate::metadata::{strs_view, SubpackageView, VurInfo, VurInfoView};
use crate::reposconf::{set_url, RepoEntry};
use crate::config::Config;
use crate::resolver::{cand_view, cands_view, dep_base, CandidateOrder, ResolveOptions};
use crate::source::{first_key, keys_of, VurSource};
use crate::vup_index::{vup_entry, VupIndex, VupPackage};

verus! {

/// What was loaded for one repository: its configuration, the metadata of
/// its index, and its VUP index when it has one and it could be fetched.
pub struct RepoIndex {
    pub name: String,
    pub entry: RepoEntry,
    pub infos: Vec<VurInfo>,
    pub vup: Option<VupIndex>,
}

/// The merged maps; each list keeps every entry in merge order (the first
/// entry for a name wins in `vur_map`, the last one for a key in
/// `binary_check` and `priority_map`).
pub struct SourceMaps {
    pub vur_map: Vec<(String, (String, VurInfo))>,
    pub vur_all: Vec<(String, Vec<(String, VurInfo)>)>,
    pub provides_map: Vec<(String, Vec<(String, VurInfo)>)>,
    pub binary_check: Vec<(String, bool)>,
    pub priority_map: Vec<(String, i64)>,
    pub vup_binary_urls: Vec<(String, String)>,
}

pub type Cand = (Seq<char>, VurInfoView);

pub type Event = (Seq<char>, Cand);

/// The VUP index URL to fetch for a repository: its trimmed `index_url`,
/// when one is set.
pub fn vup_index_url(entry: &RepoEntry) -> (r: Option<String>)
    ensures
        match r {
            Some(u) => set_url(entry.index_url) && u@ == crate::text::trim(entry.index_url->0@),
            None => !set_url(entry.index_url),
        },
{
    if entry.has_vup_index() {
        match &entry.index_url {
            Some(u) => Some(crate::text::trim_string(u.as_str())),
            None => None,
        }
    } else {
        None
    }
}

// ------------------------------------------------------------------
// The merge, as sequences of events
// ------------------------------------------------------------------

pub open spec fn sub_events(repo: Seq<char>, info: VurInfoView, subs: Seq<SubpackageView>) -> Seq<Event>
    decreases subs.len(),
{
    if subs.len() == 0 {
        Seq::empty()
    } else {
        sub_events(repo, info, subs.drop_last()).push((subs.last().pkgname, (repo, info)))
    }
}

/// The names a package brings: its own, then its subpackages'.
pub open spec fn info_events(repo: Seq<char>, info: VurInfoView) -> Seq<Event> {
    seq![(info.pkgname, (repo, info))] + sub_events(repo, info, info.subpackages)
}

pub open spec fn infos_events(repo: Seq<char>, infos: Seq<VurInfo>) -> Seq<Event>
    decreases infos.len(),
{
    if infos.len() == 0 {
        Seq::empty()
    } else {
        infos_events(repo, infos.drop_last()) + info_events(repo, infos.last()@)
    }
}

/// The packages of a VUP index that have a binary for `arch`.
pub open spec fn vup_events(repo: Seq<char>, pkgs: Seq<(String, VupPackage)>, arch: Seq<char>) -> Seq<(Seq<char>, Cand, Seq<char>)>
    decreases pkgs.len(),
{
    if pkgs.len() == 0 {
        Seq::empty()
    } else {
        vup_events(repo, pkgs.drop_last(), arch) + vup_one(repo, pkgs.last().0@, pkgs.last().1, arch)
    }
}

/// The VUP event of one package: one when it has a binary for `arch`.
pub open spec fn vup_one(repo: Seq<char>, name: Seq<char>, pkg: VupPackage, arch: Seq<char>) -> Seq<(Seq<char>, Cand, Seq<char>)> {
    match vup_entry(name, pkg, arch) {
        Some((info, url)) => seq![(name, (repo, info), url)],
        None => Seq::empty(),
    }
}

pub open spec fn repo_vup(r: RepoIndex, arch: Seq<char>) -> Seq<(Seq<char>, Cand, Seq<char>)> {
    match r.vup {
        Some(idx) => vup_events(r.name@, idx.packages@, arch),
        None => Seq::empty(),
    }
}

pub open spec fn vup_name_events(v: Seq<(Seq<char>, Cand, Seq<char>)>) -> Seq<Event> {
    v.map_values(|e: (Seq<char>, Cand, Seq<char>)| (e.0, e.1))
}

/// The names a repository brings, in merge order.
pub open spec fn repo_name_events(r: RepoIndex, arch: Seq<char>) -> Seq<Event> {
    infos_events(r.name@, r.infos@) + vup_name_events(repo_vup(r, arch))
}

pub open spec fn name_events(repos: Seq<RepoIndex>, arch: Seq<char>) -> Seq<Event>
    decreases repos.len(),
{
    if repos.len() == 0 {
        Seq::empty()
    } else {
        name_events(repos.drop_last(), arch) + repo_name_events(repos.last(), arch)
    }
}

pub open spec fn provide_events_of(repo: Seq<char>, info: VurInfoView, provs: Seq<Seq<char>>) -> Seq<Event>
    decreases provs.len(),
{
    if provs.len() == 0 {
        Seq::empty()
    } else {
        provide_events_of(repo, info, provs.drop_last()).push((dep_base(provs.last()), (repo, info)))
    }
}

pub open spec fn infos_provides(repo: Seq<char>, infos: Seq<VurInfo>) -> Seq<Event>
    decreases infos.len(),
{
    if infos.len() == 0 {
        Seq::empty()
    } else {
        infos_provides(repo, infos.drop_last()) + provide_events_of(repo, infos.last()@, infos.last()@.provides)
    }
}

/// The virtual names packages provide (version constraints cut off).
pub open spec fn provide_events(repos: Seq<RepoIndex>) -> Seq<Event>
    decreases repos.len(),
{
    if repos.len() == 0 {
        Seq::empty()
    } else {
        provide_events(repos.drop_last()) + infos_provides(repos.last().name@, repos.last().infos@)
    }
}

/// `repo:name` with a binary published, for each VUP package.
pub open spec fn vup_bins(repo: Seq<char>, v: Seq<(Seq<char>, Cand, Seq<char>)>) -> Seq<(Seq<char>, bool)> {
    v.map_values(|e: (Seq<char>, Cand, Seq<char>)| (repo + ":"@ + e.0, true))
}

/// `repo:name` and the binary repository URL of each VUP package.
pub open spec fn vup_urls(repo: Seq<char>, v: Seq<(Seq<char>, Cand, Seq<char>)>) -> Seq<(Seq<char>, Seq<char>)> {
    v.map_values(|e: (Seq<char>, Cand, Seq<char>)| (repo + ":"@ + e.0, e.2))
}

/// `repo:name` and whether a binary is published, for every name a
/// repository brings (VUP packages always have one).
pub open spec fn repo_binary_events(r: RepoIndex, arch: Seq<char>) -> Seq<(Seq<char>, bool)> {
    bin_events(r.name@, infos_events(r.name@, r.infos@), set_url(r.entry.binary_repo_url)) + vup_bins(
        r.name@,
        repo_vup(r, arch),
    )
}

pub open spec fn binary_events(repos: Seq<RepoIndex>, arch: Seq<char>) -> Seq<(Seq<char>, bool)>
    decreases repos.len(),
{
    if repos.len() == 0 {
        Seq::empty()
    } else {
        binary_events(repos.drop_last(), arch) + repo_binary_events(repos.last(), arch)
    }
}

/// `repo:name` and the binary repository URL of every VUP package.
pub open spec fn url_events(repos: Seq<RepoIndex>, arch: Seq<char>) -> Seq<(Seq<char>, Seq<char>)>
    decreases repos.len(),
{
    if repos.len() == 0 {
        Seq::empty()
    } else {
        url_events(repos.drop_last(), arch) + vup_urls(repos.last().name@, repo_vup(repos.last(), arch))
    }
}

/// The candidates an event list gives `k`, in order.
pub open spec fn for_key(evs: Seq<Event>, k: Seq<char>) -> Seq<Cand>
    decreases evs.len(),
{
    if evs.len() == 0 {
        Seq::empty()
    } else if evs.last().0 == k {
        for_key(evs.drop_last(), k).push(evs.last().1)
    } else {
        for_key(evs.drop_last(), k)
    }
}

/// The candidates a grouped list gives `k`.
pub open spec fn group_of(groups: Seq<(String, Vec<(String, VurInfo)>)>, k: Seq<char>) -> Seq<Cand> {
    let i = first_key(keys_of(groups), k);
    if 0 <= i < groups.len() {
        cands_view(groups[i].1@)
    } else {
        Seq::empty()
    }
}

pub open spec fn pairs_view(v: Seq<(String, (String, VurInfo))>) -> Seq<Event> {
    v.map_values(|e: (String, (String, VurInfo))| (e.0@, cand_view(e.1)))
}

pub open spec fn flags_view(v: Seq<(String, bool)>) -> Seq<(Seq<char>, bool)> {
    v.map_values(|e: (String, bool)| (e.0@, e.1))
}

/// `repo:name` with the same published flag for each event.
pub open spec fn bin_events(repo: Seq<char>, evs: Seq<Event>, flag: bool) -> Seq<(Seq<char>, bool)> {
    evs.map_values(|e: Event| (repo + ":"@ + e.0, flag))
}

pub open spec fn texts_view(v: Seq<(String, String)>) -> Seq<(Seq<char>, Seq<char>)> {
    v.map_values(|e: (String, String)| (e.0@, e.1@))
}

pub open spec fn prios_view(v: Seq<(String, i64)>) -> Seq<(Seq<char>, i64)> {
    v.map_values(|e: (String, i64)| (e.0@, e.1))
}

pub open spec fn repo_priorities(repos: Seq<RepoIndex>) -> Seq<(Seq<char>, i64)> {
    repos.map_values(|r: RepoIndex| (r.name@, match r.entry.priority {
        Some(p) => p,
        None => 100,
    }))
}

/// What the maps hold after merging events.
pub open spec fn holds(m: SourceMaps, names: Seq<Event>, provs: Seq<Event>, bins: Seq<(Seq<char>, bool)>, urls: Seq<(Seq<char>, Seq<char>)>) -> bool {
    &&& pairs_view(m.vur_map@) == names
    &&& forall|k: Seq<char>| #[trigger] group_of(m.vur_all@, k) == for_key(names, k)
    &&& forall|k: Seq<char>| #[trigger] group_of(m.provides_map@, k) == for_key(provs, k)
    &&& flags_view(m.binary_check@) == bins
    &&& texts_view(m.vup_binary_urls@) == urls
}

// ------------------------------------------------------------------
// Building
// ------------------------------------------------------------------

proof fn lemma_first_key_push(keys: Seq<Seq<char>>, x: Seq<char>, k: Seq<char>)
    ensures
        first_key(keys.push(x), k) == (if first_key(keys, k) < keys.len() {
            first_key(keys, k)
        } else if x == k {
            keys.len() as int
        } else {
            keys.len() as int + 1
        }),
    decreases keys.len(),
{
    if keys.len() > 0 {
        assert(keys.push(x).drop_first() =~= keys.drop_first().push(x));
        assert(keys.push(x)[0] == keys[0]);
        lemma_first_key_push(keys.drop_first(), x, k);
    } else {
        assert(keys.push(x).drop_first() =~= Seq::<Seq<char>>::empty());
        assert(first_key(Seq::<Seq<char>>::empty(), k) == 0);
    }
}

proof fn lemma_first_key_range(keys: Seq<Seq<char>>, k: Seq<char>)
    ensures
        0 <= first_key(keys, k) <= keys.len(),
        first_key(keys, k) < keys.len() ==> keys[first_key(keys, k)] == k,
    decreases keys.len(),
{
    if keys.len() > 0 && keys[0] != k {
        lemma_first_key_range(keys.drop_first(), k);
    }
}

/// Adds a candidate to the group of `key` (a new group when there is none).
fn group_push(groups: &mut Vec<(String, Vec<(String, VurInfo)>)>, key: &String, c: (String, VurInfo))
    ensures
        forall|k: Seq<char>| #[trigger] group_of(final(groups)@, k) == if k == key@ {
            group_of(old(groups)@, k).push(cand_view(c))
        } else {
            group_of(old(groups)@, k)
        },
{
    let ghost o = groups@;
    let ghost cv = cand_view(c);
    match crate::source::find_first_pub(groups, key.as_str()) {
        Some(i) => {
            let (k0, mut g) = groups.remove(i);
            let ghost og = g@;
            g.push(c);
            groups.insert(i, (k0, g));
            proof {
                lemma_first_key_range(keys_of(o), key@);
                assert(groups@ =~= o.update(i as int, (k0, g)));
                assert(keys_of(groups@) =~= keys_of(o));
                assert(cands_view(g@) =~= cands_view(og).push(cv));
                assert forall|k: Seq<char>| #[trigger] group_of(groups@, k) == if k == key@ {
                    group_of(o, k).push(cv)
                } else {
                    group_of(o, k)
                } by {
                    lemma_first_key_range(keys_of(o), k);
                    assert(keys_of(o)[i as int] == key@);
                }
            }
        },
        None => {
            let mut g: Vec<(String, VurInfo)> = Vec::new();
            g.push(c);
            groups.push((key.clone(), g));
            proof {
                assert(keys_of(groups@) =~= keys_of(o).push(key@));
                assert(cands_view(g@) =~= seq![cv]);
                assert forall|k: Seq<char>| #[trigger] group_of(groups@, k) == if k == key@ {
                    group_of(o, k).push(cv)
                } else {
                    group_of(o, k)
                } by {
                    lemma_first_key_push(keys_of(o), key@, k);
                    lemma_first_key_range(keys_of(o), k);
                    if k == key@ {
                        assert(group_of(o, k) =~= Seq::<Cand>::empty());
                    }
                }
            }
        },
    }
}

fn clone_info(info: &VurInfo) -> (r: VurInfo)
    ensures
        r@ == info@,
{
    info.clone()
}

impl SourceMaps {
    /// Records that `name` brings the candidate `(repo, info)`.
    fn add_name(&mut self, name: &String, repo: &String, info: &VurInfo, Ghost(names): Ghost<Seq<Event>>)
        requires
            pairs_view(old(self).vur_map@) == names,
            forall|k: Seq<char>| #[trigger] group_of(old(self).vur_all@, k) == for_key(names, k),
        ensures
            pairs_view(final(self).vur_map@) == names.push((name@, (repo@, info@))),
            forall|k: Seq<char>| #[trigger] group_of(final(self).vur_all@, k) == for_key(names.push((name@, (repo@, info@))), k),
            final(self).provides_map == old(self).provides_map,
            final(self).binary_check == old(self).binary_check,
            final(self).vup_binary_urls == old(self).vup_binary_urls,
            final(self).priority_map == old(self).priority_map,
    {
        let e = (name.clone(), (repo.clone(), clone_info(info)));
        let ghost ev = (name@, (repo@, info@));
        let ghost o = self.vur_map@;
        self.vur_map.push(e);
        assert(pairs_view(self.vur_map@) =~= pairs_view(o).push(ev));
        group_push(&mut self.vur_all, name, (repo.clone(), clone_info(info)));
        proof {
            let n2 = names.push(ev);
            assert(n2.drop_last() =~= names);
            assert forall|k: Seq<char>| #[trigger] group_of(self.vur_all@, k) == for_key(n2, k) by {
            }
        }
    }

    fn add_provide(&mut self, name: &String, repo: &String, info: &VurInfo, Ghost(provs): Ghost<Seq<Event>>)
        requires
            forall|k: Seq<char>| #[trigger] group_of(old(self).provides_map@, k) == for_key(provs, k),
        ensures
            forall|k: Seq<char>| #[trigger] group_of(final(self).provides_map@, k) == for_key(provs.push((name@, (repo@, info@))), k),
            final(self).vur_map == old(self).vur_map,
            final(self).vur_all == old(self).vur_all,
            final(self).binary_check == old(self).binary_check,
            final(self).vup_binary_urls == old(self).vup_binary_urls,
            final(self).priority_map == old(self).priority_map,
    {
        group_push(&mut self.provides_map, name, (repo.clone(), clone_info(info)));
        proof {
            let p2 = provs.push((name@, (repo@, info@)));
            assert(p2.drop_last() =~= provs);
        }
    }

    fn add_binary(&mut self, repo: &String, name: &String, published: bool)
        ensures
            flags_view(final(self).binary_check@) == flags_view(old(self).binary_check@).push((repo@ + ":"@ + name@, published)),
            final(self).vur_map == old(self).vur_map,
            final(self).vur_all == old(self).vur_all,
            final(self).provides_map == old(self).provides_map,
            final(self).vup_binary_urls == old(self).vup_binary_urls,
            final(self).priority_map == old(self).priority_map,
    {
        let key = crate::text::concat3(repo.as_str(), ":", name.as_str());
        let ghost o = self.binary_check@;
        self.binary_check.push((key, published));
        assert(flags_view(self.binary_check@) =~= flags_view(o).push((repo@ + ":"@ + name@, published)));
    }

    /// Merges one package of a repository index: what it provides, its name
    /// and its subpackages' names, and whether their binaries are published.
    fn add_info(
        &mut self,
        repo: &String,
        info: &VurInfo,
        has_binary: bool,
        Ghost(names): Ghost<Seq<Event>>,
        Ghost(provs): Ghost<Seq<Event>>,
    )
        requires
            pairs_view(old(self).vur_map@) == names,
            forall|k: Seq<char>| #[trigger] group_of(old(self).vur_all@, k) == for_key(names, k),
            forall|k: Seq<char>| #[trigger] group_of(old(self).provides_map@, k) == for_key(provs, k),
        ensures
            pairs_view(final(self).vur_map@) == names + info_events(repo@, info@),
            forall|k: Seq<char>| #[trigger] group_of(final(self).vur_all@, k) == for_key(names + info_events(repo@, info@), k),
            forall|k: Seq<char>| #[trigger] group_of(final(self).provides_map@, k) == for_key(
                provs + provide_events_of(repo@, info@, info@.provides),
                k,
            ),
            flags_view(final(self).binary_check@) == flags_view(old(self).binary_check@) + bin_events(
                repo@,
                info_events(repo@, info@),
                has_binary,
            ),
            final(self).vup_binary_urls == old(self).vup_binary_urls,
            final(self).priority_map == old(self).priority_map,
    {
        let ghost ps = info@.provides;
        let ghost f0 = flags_view(self.binary_check@);
        let ghost u0 = self.vup_binary_urls;
        let ghost p0 = self.priority_map;
        let mut j: usize = 0;
        while j < info.provides.len()
            invariant
                j <= info.provides@.len(),
                ps == info@.provides,
                pairs_view(self.vur_map@) == names,
                forall|k: Seq<char>| #[trigger] group_of(self.vur_all@, k) == for_key(names, k),
                forall|k: Seq<char>| #[trigger] group_of(self.provides_map@, k) == for_key(
                    provs + provide_events_of(repo@, info@, ps.take(j as int)),
                    k,
                ),
                flags_view(self.binary_check@) == f0,
                self.vup_binary_urls == u0,
                self.priority_map == p0,
            decreases info.provides@.len() - j,
        {
            let name = crate::resolver::dep_name(info.provides[j].as_str());
            let ghost before = provs + provide_events_of(repo@, info@, ps.take(j as int));
            self.add_provide(&name, repo, info, Ghost(before));
            proof {
                let ev = (name@, (repo@, info@));
                assert(ps.take(j as int + 1).drop_last() =~= ps.take(j as int));
                assert(ps.take(j as int + 1).last() == ps[j as int]);
                assert(provide_events_of(repo@, info@, ps.take(j as int + 1)) == provide_events_of(
                    repo@,
                    info@,
                    ps.take(j as int),
                ).push(ev));
                assert(before.push(ev) =~= provs + provide_events_of(repo@, info@, ps.take(j as int + 1)));
            }
            j = j + 1;
        }
        assert(ps.take(ps.len() as int) =~= ps);
        let ghost head = seq![(info@.pkgname, (repo@, info@))];
        let ghost ss = info@.subpackages;
        self.add_name(&info.pkgname, repo, info, Ghost(names));
        self.add_binary(repo, &info.pkgname, has_binary);
        proof {
            assert(names.push((info@.pkgname, (repo@, info@))) =~= names + head + sub_events(repo@, info@, ss.take(0)));
            assert(flags_view(self.binary_check@) =~= f0 + bin_events(repo@, head + sub_events(repo@, info@, ss.take(0)), has_binary));
        }
        let ghost pm = self.provides_map;
        let mut j: usize = 0;
        while j < info.subpackages.len()
            invariant
                j <= info.subpackages@.len(),
                ss == info@.subpackages,
                head == seq![(info@.pkgname, (repo@, info@))],
                pairs_view(self.vur_map@) == names + head + sub_events(repo@, info@, ss.take(j as int)),
                forall|k: Seq<char>| #[trigger] group_of(self.vur_all@, k) == for_key(
                    names + head + sub_events(repo@, info@, ss.take(j as int)),
                    k,
                ),
                flags_view(self.binary_check@) == f0 + bin_events(
                    repo@,
                    head + sub_events(repo@, info@, ss.take(j as int)),
                    has_binary,
                ),
                self.provides_map == pm,
                self.vup_binary_urls == u0,
                self.priority_map == p0,
            decreases info.subpackages@.len() - j,
        {
            let ghost before = names + head + sub_events(repo@, info@, ss.take(j as int));
            let ghost fb = flags_view(self.binary_check@);
            self.add_name(&info.subpackages[j].pkgname, repo, info, Ghost(before));
            self.add_binary(repo, &info.subpackages[j].pkgname, has_binary);
            proof {
                let ev = (info.subpackages@[j as int].pkgname@, (repo@, info@));
                assert(ss.take(j as int + 1).drop_last() =~= ss.take(j as int));
                assert(ss.take(j as int + 1).last() == ss[j as int]);
                assert(sub_events(repo@, info@, ss.take(j as int + 1)) == sub_events(repo@, info@, ss.take(j as int)).push(ev));
                assert(before.push(ev) =~= names + head + sub_events(repo@, info@, ss.take(j as int + 1)));
                assert(fb.push((repo@ + ":"@ + ev.0, has_binary)) =~= f0 + bin_events(
                    repo@,
                    head + sub_events(repo@, info@, ss.take(j as int + 1)),
                    has_binary,
                ));
            }
            j = j + 1;
        }
        proof {
            assert(ss.take(ss.len() as int) =~= ss);
            assert(names + head + sub_events(repo@, info@, ss) =~= names + info_events(repo@, info@));
        }
    }

    /// Merges one VUP package that has a binary for `arch`.
    fn add_vup_package(
        &mut self,
        repo: &String,
        name: &String,
        pkg: &VupPackage,
        arch: &str,
        Ghost(names): Ghost<Seq<Event>>,
    )
        requires
            pairs_view(old(self).vur_map@) == names,
            forall|k: Seq<char>| #[trigger] group_of(old(self).vur_all@, k) == for_key(names, k),
        ensures
            pairs_view(final(self).vur_map@) == names + vup_name_events(vup_one(repo@, name@, *pkg, arch@)),
            forall|k: Seq<char>| #[trigger] group_of(final(self).vur_all@, k) == for_key(names + vup_name_events(vup_one(repo@, name@, *pkg, arch@)), k),
            flags_view(final(self).binary_check@) == flags_view(old(self).binary_check@) + vup_bins(repo@, vup_one(repo@, name@, *pkg, arch@)),
            texts_view(final(self).vup_binary_urls@) == texts_view(old(self).vup_binary_urls@) + vup_urls(repo@, vup_one(repo@, name@, *pkg, arch@)),
            final(self).provides_map == old(self).provides_map,
            final(self).priority_map == old(self).priority_map,
    {
        match crate::vup_index::to_vur_info(name.as_str(), pkg, arch) {
            Some((info, url)) => {
                let ghost ev = (name@, (repo@, info@), url@);
                let ghost f0 = flags_view(self.binary_check@);
                let ghost u0 = texts_view(self.vup_binary_urls@);
                self.add_name(name, repo, &info, Ghost(names));
                self.add_binary(repo, name, true);
                let key = crate::text::concat3(repo.as_str(), ":", name.as_str());
                self.vup_binary_urls.push((key, url));
                proof {
                    assert(vup_name_events(seq![ev]) =~= seq![(name@, (repo@, info@))]);
                    assert(names.push((name@, (repo@, info@))) =~= names + vup_name_events(seq![ev]));
                    assert(f0.push((repo@ + ":"@ + name@, true)) =~= f0 + vup_bins(repo@, seq![ev]));
                    assert(texts_view(self.vup_binary_urls@) =~= u0 + vup_urls(repo@, seq![ev]));
                }
            },
            None => {
                proof {
                    assert(names + vup_name_events(Seq::empty()) =~= names);
                    assert(flags_view(self.binary_check@) + vup_bins(repo@, Seq::empty()) =~= flags_view(self.binary_check@));
                    assert(texts_view(self.vup_binary_urls@) + vup_urls(repo@, Seq::empty()) =~= texts_view(self.vup_binary_urls@));
                }
            },
        }
    }

    /// Merges one repository: its index, then its VUP packages.
    #[verifier::rlimit(30)]
    fn add_repo(&mut self, r: &RepoIndex, arch: &str, Ghost(names): Ghost<Seq<Event>>, Ghost(provs): Ghost<Seq<Event>>)
        requires
            pairs_view(old(self).vur_map@) == names,
            forall|k: Seq<char>| #[trigger] group_of(old(self).vur_all@, k) == for_key(names, k),
            forall|k: Seq<char>| #[trigger] group_of(old(self).provides_map@, k) == for_key(provs, k),
        ensures
            pairs_view(final(self).vur_map@) == names + repo_name_events(*r, arch@),
            forall|k: Seq<char>| #[trigger] group_of(final(self).vur_all@, k) == for_key(names + repo_name_events(*r, arch@), k),
            forall|k: Seq<char>| #[trigger] group_of(final(self).provides_map@, k) == for_key(
                provs + infos_provides(r.name@, r.infos@),
                k,
            ),
            flags_view(final(self).binary_check@) == flags_view(old(self).binary_check@) + repo_binary_events(*r, arch@),
            texts_view(final(self).vup_binary_urls@) == texts_view(old(self).vup_binary_urls@) + vup_urls(
                r.name@,
                repo_vup(*r, arch@),
            ),
            final(self).priority_map == old(self).priority_map,
    {
        let has_binary = r.entry.has_binary();
        let ghost repo = r.name@;
        let ghost infos = r.infos@;
        let ghost f0 = flags_view(self.binary_check@);
        let ghost u0 = self.vup_binary_urls;
        let ghost p0 = self.priority_map;
        let mut k: usize = 0;
        while k < r.infos.len()
            invariant
                k <= infos.len(),
                repo == r.name@,
                infos == r.infos@,
                has_binary == set_url(r.entry.binary_repo_url),
                pairs_view(self.vur_map@) == names + infos_events(repo, infos.take(k as int)),
                forall|q: Seq<char>| #[trigger] group_of(self.vur_all@, q) == for_key(
                    names + infos_events(repo, infos.take(k as int)),
                    q,
                ),
                forall|q: Seq<char>| #[trigger] group_of(self.provides_map@, q) == for_key(
                    provs + infos_provides(repo, infos.take(k as int)),
                    q,
                ),
                flags_view(self.binary_check@) == f0 + bin_events(repo, infos_events(repo, infos.take(k as int)), has_binary),
                self.vup_binary_urls == u0,
                self.priority_map == p0,
            decreases infos.len() - k,
        {
            let ghost fb = flags_view(self.binary_check@);
            let ghost nb = names + infos_events(repo, infos.take(k as int));
            let ghost pb = provs + infos_provides(repo, infos.take(k as int));
            self.add_info(&r.name, &r.infos[k], has_binary, Ghost(nb), Ghost(pb));
            proof {
                let t1 = infos.take(k as int + 1);
                assert(t1.drop_last() =~= infos.take(k as int));
                assert(t1.last() == infos[k as int]);
                let ie = info_events(repo, infos[k as int]@);
                assert(infos_events(repo, t1) == infos_events(repo, infos.take(k as int)) + ie);
                assert(nb + ie =~= names + infos_events(repo, t1));
                assert(pb + provide_events_of(repo, infos[k as int]@, infos[k as int]@.provides) =~= provs + infos_provides(
                    repo,
                    t1,
                ));
                assert(fb + bin_events(repo, ie, has_binary) =~= f0 + bin_events(repo, infos_events(repo, t1), has_binary));
            }
            k = k + 1;
        }
        assert(infos.take(infos.len() as int) =~= infos);
        let ghost n1 = names + infos_events(repo, infos);
        let ghost f1 = flags_view(self.binary_check@);
        let ghost t0 = texts_view(self.vup_binary_urls@);
        let ghost pm = self.provides_map;
        match &r.vup {
            Some(idx) => {
                let ghost pkgs = idx.packages@;
                let mut k: usize = 0;
                while k < idx.packages.len()
                    invariant
                        k <= pkgs.len(),
                        pkgs == idx.packages@,
                        repo == r.name@,
                        pairs_view(self.vur_map@) == n1 + vup_name_events(vup_events(repo, pkgs.take(k as int), arch@)),
                        forall|q: Seq<char>| #[trigger] group_of(self.vur_all@, q) == for_key(
                            n1 + vup_name_events(vup_events(repo, pkgs.take(k as int), arch@)),
                            q,
                        ),
                        flags_view(self.binary_check@) == f1 + vup_bins(repo, vup_events(repo, pkgs.take(k as int), arch@)),
                        texts_view(self.vup_binary_urls@) == t0 + vup_urls(repo, vup_events(repo, pkgs.take(k as int), arch@)),
                        self.provides_map == pm,
                        self.priority_map == p0,
                    decreases pkgs.len() - k,
                {
                    let ghost ve = vup_events(repo, pkgs.take(k as int), arch@);
                    let ghost fb = flags_view(self.binary_check@);
                    let ghost tb = texts_view(self.vup_binary_urls@);
                    let ghost nb = n1 + vup_name_events(ve);
                    self.add_vup_package(&r.name, &idx.packages[k].0, &idx.packages[k].1, arch, Ghost(nb));
                    proof {
                        let t1 = pkgs.take(k as int + 1);
                        assert(t1.drop_last() =~= pkgs.take(k as int));
                        assert(t1.last() == pkgs[k as int]);
                        let one = vup_one(repo, pkgs[k as int].0@, pkgs[k as int].1, arch@);
                        assert(vup_events(repo, t1, arch@) == ve + one);
                        assert(vup_name_events(ve + one) =~= vup_name_events(ve) + vup_name_events(one));
                        assert(nb + vup_name_events(one) =~= n1 + vup_name_events(ve + one));
                        assert(vup_bins(repo, ve + one) =~= vup_bins(repo, ve) + vup_bins(repo, one));
                        assert(fb + vup_bins(repo, one) =~= f1 + vup_bins(repo, ve + one));
                        assert(vup_urls(repo, ve + one) =~= vup_urls(repo, ve) + vup_urls(repo, one));
                        assert(tb + vup_urls(repo, one) =~= t0 + vup_urls(repo, ve + one));
                    }
                    k = k + 1;
                }
                assert(pkgs.take(pkgs.len() as int) =~= pkgs);
            },
            None => {
                assert(n1 + vup_name_events(Seq::empty()) =~= n1);
                assert(f1 + vup_bins(repo, Seq::empty()) =~= f1);
                assert(t0 + vup_urls(repo, Seq::empty()) =~= t0);
            },
        }
        proof {
            assert(n1 + vup_name_events(repo_vup(*r, arch@)) =~= names + repo_name_events(*r, arch@));
            assert(f1 + vup_bins(repo, repo_vup(*r, arch@)) =~= flags_view(old(self).binary_check@) + repo_binary_events(*r, arch@));
        }
    }
}

/// Merges the indexes of `repos`, taken in priority order, into the maps
/// the resolver reads.
pub fn load_source_maps(repos: &Vec<RepoIndex>, arch: &str) -> (m: SourceMaps)
    ensures
        holds(m, name_events(repos@, arch@), provide_events(repos@), binary_events(repos@, arch@), url_events(repos@, arch@)),
        prios_view(m.priority_map@) == repo_priorities(repos@),
{
    let mut m = SourceMaps {
        vur_map: Vec::new(),
        vur_all: Vec::new(),
        provides_map: Vec::new(),
        binary_check: Vec::new(),
        priority_map: Vec::new(),
        vup_binary_urls: Vec::new(),
    };
    proof {
        assert forall|q: Seq<char>| #[trigger] group_of(m.vur_all@, q) == for_key(Seq::<Event>::empty(), q) by {
            assert(group_of(m.vur_all@, q) =~= Seq::<Cand>::empty());
        }
        assert forall|q: Seq<char>| #[trigger] group_of(m.provides_map@, q) == for_key(Seq::<Event>::empty(), q) by {
            assert(group_of(m.provides_map@, q) =~= Seq::<Cand>::empty());
        }
        assert(pairs_view(m.vur_map@) =~= Seq::<Event>::empty());
        assert(flags_view(m.binary_check@) =~= Seq::empty());
        assert(texts_view(m.vup_binary_urls@) =~= Seq::empty());
        assert(prios_view(m.priority_map@) =~= Seq::empty());
        assert(repos@.take(0) =~= Seq::<RepoIndex>::empty());
    }
    let mut i: usize = 0;
    while i < repos.len()
        invariant
            i <= repos@.len(),
            holds(
                m,
                name_events(repos@.take(i as int), arch@),
                provide_events(repos@.take(i as int)),
                binary_events(repos@.take(i as int), arch@),
                url_events(repos@.take(i as int), arch@),
            ),
            prios_view(m.priority_map@) == repo_priorities(repos@.take(i as int)),
        decreases repos@.len() - i,
    {
        let r = &repos[i];
        let ghost t = repos@.take(i as int);
        let ghost t1 = repos@.take(i as int + 1);
        let ghost pr = prios_view(m.priority_map@);
        let ghost fb = flags_view(m.binary_check@);
        let ghost ub = texts_view(m.vup_binary_urls@);
        m.add_repo(r, arch, Ghost(name_events(t, arch@)), Ghost(provide_events(t)));
        let p = r.entry.priority_or(100);
        m.priority_map.push((r.name.clone(), p));
        proof {
            assert(t1.drop_last() =~= t);
            assert(t1.last() == *r);
            assert(prios_view(m.priority_map@) =~= pr.push((r.name@, p)));
            assert(repo_priorities(t1) =~= repo_priorities(t).push((r.name@, p)));
            assert(name_events(t1, arch@) == name_events(t, arch@) + repo_name_events(*r, arch@));
            assert(provide_events(t1) == provide_events(t) + infos_provides(r.name@, r.infos@));
            assert(binary_events(t1, arch@) == binary_events(t, arch@) + repo_binary_events(*r, arch@));
            assert(url_events(t1, arch@) == url_events(t, arch@) + vup_urls(r.name@, repo_vup(*r, arch@)));
        }
        i = i + 1;
    }
    assert(repos@.take(repos@.len() as int) =~= repos@);
    m
}

/// The package source over merged maps, with the official names known at
/// the start of the run, and the resolver options the settings ask for:
/// `--force-rebuild` builds everything from source, sources first.
pub fn assemble_source(maps: SourceMaps, arch: &str, official: Vec<String>, config: &Config, order: CandidateOrder) -> (r: (
    VurSource,
    ResolveOptions,
))
    ensures
        r.0.official@ == official@,
        r.0.vur_map@ == maps.vur_map@,
        r.0.vur_all@ == maps.vur_all@,
        r.0.provides_map@ == maps.provides_map@,
        r.0.binary_check@ == maps.binary_check@,
        r.0.arch@ == arch@,
        r.0.priority@ == maps.priority_map@,
        r.1.prefer_binary == (config.prefer_binary && !config.force_rebuild),
        r.1.force_build == (config.force_build || config.force_rebuild),
        r.1.order == (if config.force_rebuild {
            CandidateOrder::PreferSource
        } else {
            order
        }),
{
    let source = VurSource {
        official,
        vur_map: maps.vur_map,
        vur_all: maps.vur_all,
        provides_map: maps.provides_map,
        binary_check: maps.binary_check,
        arch: arch.to_owned(),
        priority: maps.priority_map,
    };
    let opts = ResolveOptions {
        prefer_binary: config.prefer_binary && !config.force_rebuild,
        force_build: config.force_build || config.force_rebuild,
        order: if config.force_rebuild {
            CandidateOrder::PreferSource
        } else {
            order
        },
    };
    (source, opts)
}

/// The names an event list brings, in order.
pub open spec fn event_names(evs: Seq<Event>) -> Seq<Seq<char>> {
    evs.map_values(|e: Event| e.0)
}

/// The first repository (in priority order) that brings a name answers
/// for it: over merged maps, a name's entry is the candidate of its
/// earliest event, and a name no repository brings has none.
pub proof fn lemma_first_repo_wins(s: VurSource, evs: Seq<Event>, k: Seq<char>)
    requires
        pairs_view(s.vur_map@) == evs,
    ensures
        first_key(event_names(evs), k) < evs.len() ==> s.entry_of(k) == Some(
            evs[first_key(event_names(evs), k)].1,
        ),
        first_key(event_names(evs), k) >= evs.len() ==> s.entry_of(k) is None,
{
    assert(keys_of(s.vur_map@) =~= event_names(evs));
    crate::source::lemma_first_key_bounds(event_names(evs), k);
    let i = first_key(event_names(evs), k);
    if i < evs.len() {
        assert(pairs_view(s.vur_map@)[i] == evs[i]);
    }
}

} // verus!
