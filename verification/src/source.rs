//! A [`PackageSource`] over in-memory indexes: the merged VUR indexes of
//! the configured repositories, the published binaries and the names the
//! official repositories carry.
use vstd::prelude::*;
use crate::metadata::{arch_ok, arch_supports, strs_view, VurInfo, VurInfoView};
use crate::resolver::{cand_view, cands_view, opt_cand_view, PackageSource};

verus! {

/// Index of the first entry whose key is `key` (`keys.len()` if none).
pub open spec fn first_key(keys: Seq<Seq<char>>, key: Seq<char>) -> int
    decreases keys.len(),
{
    if keys.len() == 0 {
        0
    } else if keys[0] == key {
        0
    } else {
        1 + first_key(keys.drop_first(), key)
    }
}

/// Index of the last entry whose key is `key` (-1 if none).
pub open spec fn last_key(keys: Seq<Seq<char>>, key: Seq<char>) -> int
    decreases keys.len(),
{
    if keys.len() == 0 {
        -1
    } else if keys.last() == key {
        keys.len() - 1
    } else {
        last_key(keys.drop_last(), key)
    }
}

pub open spec fn keys_of<T>(v: Seq<(String, T)>) -> Seq<Seq<char>> {
    v.map_values(|e: (String, T)| e.0@)
}

pub proof fn lemma_first_key_bounds(keys: Seq<Seq<char>>, key: Seq<char>)
    ensures
        0 <= first_key(keys, key) <= keys.len(),
        first_key(keys, key) < keys.len() ==> keys[first_key(keys, key)] == key,
        forall|j: int| 0 <= j < first_key(keys, key) ==> keys[j] != key,
    decreases keys.len(),
{
    if keys.len() > 0 && keys[0] != key {
        lemma_first_key_bounds(keys.drop_first(), key);
        assert forall|j: int| 0 <= j < first_key(keys, key) implies keys[j] != key by {
            if j > 0 {
                assert(keys[j] == keys.drop_first()[j - 1]);
            }
        }
    }
}

pub proof fn lemma_first_key_is(keys: Seq<Seq<char>>, key: Seq<char>, i: int)
    requires
        0 <= i <= keys.len(),
        i < keys.len() ==> keys[i] == key,
        forall|j: int| 0 <= j < i ==> keys[j] != key,
    ensures
        first_key(keys, key) == i,
    decreases keys.len(),
{
    if keys.len() > 0 && i > 0 {
        assert forall|j: int| 0 <= j < i - 1 implies keys.drop_first()[j] != key by {
            assert(keys.drop_first()[j] == keys[j + 1]);
        }
        lemma_first_key_is(keys.drop_first(), key, i - 1);
    }
}

proof fn lemma_last_key_is(keys: Seq<Seq<char>>, key: Seq<char>, i: int)
    requires
        -1 <= i < keys.len(),
        i >= 0 ==> keys[i] == key,
        forall|j: int| i < j < keys.len() ==> keys[j] != key,
    ensures
        last_key(keys, key) == i,
    decreases keys.len(),
{
    if keys.len() > 0 && i < keys.len() - 1 {
        lemma_last_key_is(keys.drop_last(), key, i);
    }
}

/// Position of the first entry keyed `key`.
fn find_first<T>(v: &Vec<(String, T)>, key: &str) -> (r: Option<usize>)
    ensures
        r matches Some(i) ==> i as int == first_key(keys_of(v@), key@) && i < v@.len(),
        r is None ==> first_key(keys_of(v@), key@) == v@.len(),
{
    let key_s = key.to_owned();
    let mut i: usize = 0;
    while i < v.len()
        invariant
            i <= v@.len(),
            key_s@ == key@,
            forall|j: int| 0 <= j < i ==> keys_of(v@)[j] != key@,
        decreases v@.len() - i,
    {
        if v[i].0 == key_s {
            proof {
                lemma_first_key_is(keys_of(v@), key@, i as int);
            }
            return Some(i);
        }
        i = i + 1;
    }
    proof {
        lemma_first_key_is(keys_of(v@), key@, v@.len() as int);
    }
    None
}

/// Position of the first entry keyed `key` (see [`first_key`]).
pub fn find_first_pub<T>(v: &Vec<(String, T)>, key: &str) -> (r: Option<usize>)
    ensures
        r matches Some(i) ==> i as int == first_key(keys_of(v@), key@) && i < v@.len(),
        r is None ==> first_key(keys_of(v@), key@) == v@.len(),
{
    find_first(v, key)
}

/// Position of the last entry keyed `key`.
fn find_last<T>(v: &Vec<(String, T)>, key: &str) -> (r: Option<usize>)
    ensures
        r matches Some(i) ==> i as int == last_key(keys_of(v@), key@) && i < v@.len(),
        r is None ==> last_key(keys_of(v@), key@) == -1,
{
    let key_s = key.to_owned();
    let mut i: usize = v.len();
    while i > 0
        invariant
            i <= v@.len(),
            key_s@ == key@,
            forall|j: int| i <= j < v@.len() ==> keys_of(v@)[j] != key@,
        decreases i,
    {
        if v[i - 1].0 == key_s {
            proof {
                lemma_last_key_is(keys_of(v@), key@, i - 1);
            }
            return Some(i - 1);
        }
        i = i - 1;
    }
    proof {
        lemma_last_key_is(keys_of(v@), key@, -1);
    }
    None
}

/// Package data loaded from the configured repositories.
pub struct VurSource {
    /// Names the official repositories carry.
    pub official: Vec<String>,
    /// Name (package or subpackage) to `(repo, info)`; the first entry for
    /// a name wins, repositories being merged in priority order.
    pub vur_map: Vec<(String, (String, VurInfo))>,
    /// Name to every candidate `(repo, info)` over all repositories.
    pub vur_all: Vec<(String, Vec<(String, VurInfo)>)>,
    /// Virtual name to the candidates that provide it.
    pub provides_map: Vec<(String, Vec<(String, VurInfo)>)>,
    /// `repo:pkgname` to whether a signed binary is published; the last
    /// entry for a key wins.
    pub binary_check: Vec<(String, bool)>,
    /// The current architecture.
    pub arch: String,
    /// Repository priorities; the last entry for a repository wins.
    pub priority: Vec<(String, i64)>,
}

impl VurSource {
    pub open spec fn entry_of(&self, name: Seq<char>) -> Option<(Seq<char>, VurInfoView)> {
        let i = first_key(keys_of(self.vur_map@), name);
        if 0 <= i < self.vur_map@.len() {
            Some(cand_view(self.vur_map@[i].1))
        } else {
            None
        }
    }

    pub open spec fn priority_of(&self, repo: Seq<char>) -> i64 {
        let i = last_key(keys_of(self.priority@), repo);
        if 0 <= i < self.priority@.len() {
            self.priority@[i].1
        } else {
            100
        }
    }

    pub open spec fn provider_list(&self, name: Seq<char>) -> Seq<(Seq<char>, VurInfoView)> {
        let i = first_key(keys_of(self.provides_map@), name);
        if 0 <= i < self.provides_map@.len() {
            cands_view(self.provides_map@[i].1@)
        } else {
            Seq::empty()
        }
    }

    /// Among `cands`, the first built for the arch with the lowest
    /// repository priority.
    pub open spec fn best_provider(&self, cands: Seq<(Seq<char>, VurInfoView)>) -> Option<
        (Seq<char>, VurInfoView),
    >
        decreases cands.len(),
    {
        if cands.len() == 0 {
            None
        } else {
            let last = cands.last();
            let best = self.best_provider(cands.drop_last());
            if !arch_ok(last.1.archs, self.arch@) {
                best
            } else {
                match best {
                    None => Some(last),
                    Some(b) => if self.priority_of(last.0) < self.priority_of(b.0) {
                        Some(last)
                    } else {
                        Some(b)
                    },
                }
            }
        }
    }

    /// The key of a binary: `repo:pkgname`.
    pub open spec fn binary_key(repo: Seq<char>, pkgname: Seq<char>) -> Seq<char> {
        repo + ":"@ + pkgname
    }
}

impl PackageSource for VurSource {
    open spec fn spec_official_exists(&self, name: Seq<char>) -> bool {
        strs_view(self.official@).contains(name)
    }

    open spec fn spec_vur_lookup(&self, name: Seq<char>) -> Option<(Seq<char>, VurInfoView)> {
        match self.entry_of(name) {
            Some(c) => if arch_ok(c.1.archs, self.arch@) {
                Some(c)
            } else {
                None
            },
            None => None,
        }
    }

    open spec fn spec_vur_lookup_any_arch(&self, name: Seq<char>) -> Option<(Seq<char>, VurInfoView)> {
        self.entry_of(name)
    }

    open spec fn spec_vur_lookup_provides(&self, name: Seq<char>) -> Option<(Seq<char>, VurInfoView)> {
        self.best_provider(self.provider_list(name))
    }

    open spec fn spec_vul_binary_available(
        &self,
        repo: Seq<char>,
        info: VurInfoView,
        arch: Seq<char>,
    ) -> bool {
        let i = last_key(keys_of(self.binary_check@), VurSource::binary_key(repo, info.pkgname));
        arch_ok(info.archs, arch) && 0 <= i < self.binary_check@.len() && self.binary_check@[i].1
    }

    open spec fn spec_vur_lookup_all(&self, name: Seq<char>) -> Seq<(Seq<char>, VurInfoView)> {
        let i = first_key(keys_of(self.vur_all@), name);
        if 0 <= i < self.vur_all@.len() {
            cands_view(self.vur_all@[i].1@)
        } else {
            Seq::empty()
        }
    }

    open spec fn spec_repo_priority(&self, repo: Seq<char>) -> i64 {
        self.priority_of(repo)
    }

    open spec fn spec_arch(&self) -> Seq<char> {
        self.arch@
    }

    fn official_exists(&self, name: &str) -> (r: bool) {
        let name_s = name.to_owned();
        let mut i: usize = 0;
        while i < self.official.len()
            invariant
                i <= self.official@.len(),
                name_s@ == name@,
                forall|j: int| 0 <= j < i ==> self.official@[j]@ != name@,
            decreases self.official@.len() - i,
        {
            if self.official[i] == name_s {
                assert(strs_view(self.official@)[i as int] == name@);
                return true;
            }
            i = i + 1;
        }
        proof {
            if strs_view(self.official@).contains(name@) {
                let j = choose|j: int| 0 <= j < self.official@.len() && strs_view(self.official@)[j]
                    == name@;
                assert(self.official@[j]@ == name@);
            }
        }
        false
    }

    fn vur_lookup(&self, name: &str) -> (r: Option<(String, VurInfo)>) {
        match find_first(&self.vur_map, name) {
            Some(i) => {
                let e = &self.vur_map[i].1;
                if !arch_supports(&e.1.archs, self.arch.as_str()) {
                    return None;
                }
                Some((e.0.clone(), e.1.clone()))
            },
            None => None,
        }
    }

    fn vur_lookup_any_arch(&self, name: &str) -> (r: Option<(String, VurInfo)>) {
        match find_first(&self.vur_map, name) {
            Some(i) => {
                let e = &self.vur_map[i].1;
                Some((e.0.clone(), e.1.clone()))
            },
            None => None,
        }
    }

    fn vur_lookup_provides(&self, virtual_name: &str) -> (r: Option<(String, VurInfo)>) {
        let i = match find_first(&self.provides_map, virtual_name) {
            Some(i) => i,
            None => {
                return None;
            },
        };
        let cands = &self.provides_map[i].1;
        let mut best: Option<(i64, usize)> = None;
        let mut k: usize = 0;
        while k < cands.len()
            invariant
                k <= cands@.len(),
                i < self.provides_map@.len(),
                cands == self.provides_map@[i as int].1,
                best matches Some(b) ==> b.1 < k && b.0 == self.priority_of(cands@[b.1 as int].0@),
                (match best {
                    Some(b) => Some(cand_view(cands@[b.1 as int])),
                    None => None,
                }) == self.best_provider(cands_view(cands@).take(k as int)),
            decreases cands@.len() - k,
        {
            proof {
                let t = cands_view(cands@).take(k as int + 1);
                assert(t.drop_last() =~= cands_view(cands@).take(k as int));
                assert(t.last() == cand_view(cands@[k as int]));
            }
            let prio = self.repo_priority(cands[k].0.as_str());
            if arch_supports(&cands[k].1.archs, self.arch.as_str()) {
                match best {
                    None => {
                        best = Some((prio, k));
                    },
                    Some((bp, _)) => {
                        if prio < bp {
                            best = Some((prio, k));
                        }
                    },
                }
            }
            k = k + 1;
        }
        assert(cands_view(cands@).take(cands@.len() as int) =~= cands_view(cands@));
        match best {
            Some((_, b)) => Some((cands[b].0.clone(), cands[b].1.clone())),
            None => None,
        }
    }

    fn vul_binary_available(&self, repo: &str, info: &VurInfo, arch: &str) -> (r: bool) {
        if !arch_supports(&info.archs, arch) {
            return false;
        }
        let mut key = repo.to_owned();
        crate::text::push_str(&mut key, ":");
        crate::text::push_str(&mut key, info.pkgname.as_str());
        match find_last(&self.binary_check, key.as_str()) {
            Some(i) => self.binary_check[i].1,
            None => false,
        }
    }

    fn vur_lookup_all(&self, name: &str) -> (r: Vec<(String, VurInfo)>) {
        match find_first(&self.vur_all, name) {
            Some(i) => {
                let cands = &self.vur_all[i].1;
                let mut out: Vec<(String, VurInfo)> = Vec::new();
                let mut k: usize = 0;
                while k < cands.len()
                    invariant
                        k <= cands@.len(),
                        cands_view(out@) == cands_view(cands@).take(k as int),
                    decreases cands@.len() - k,
                {
                    let ghost before = out@;
                    out.push((cands[k].0.clone(), cands[k].1.clone()));
                    assert(cands_view(out@) =~= cands_view(before).push(cand_view(cands@[k as int])));
                    assert(cands_view(out@) =~= cands_view(cands@).take(k as int + 1));
                    k = k + 1;
                }
                assert(cands_view(cands@).take(cands@.len() as int) =~= cands_view(cands@));
                out
            },
            None => {
                let out: Vec<(String, VurInfo)> = Vec::new();
                assert(cands_view(out@) =~= Seq::empty());
                out
            },
        }
    }

    fn repo_priority(&self, repo: &str) -> (r: i64) {
        match find_last(&self.priority, repo) {
            Some(i) => self.priority[i].1,
            None => 100,
        }
    }

    fn arch(&self) -> (r: String) {
        self.arch.clone()
    }
}

} // verus!
