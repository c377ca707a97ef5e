//! `repos.conf`: the VUR repositories and their settings.
use vstd::prelude::*;
use crate::text::trim;
use crate::version::{lemma_text_order_antisym, lemma_text_order_trans, lemma_text_order_zero, text_order};

verus! {

/// One configured VUR repository.
#[derive(Debug)]
pub struct RepoEntry {
    pub url: String,
    pub branch: Option<String>,
    pub priority: Option<i64>,
    pub key_fingerprint: Option<String>,
    pub binary_repo_url: Option<String>,
    /// Optional VUP-style binary index (`index.json`): the repository's
    /// binaries are installed without cloning templates.
    pub index_url: Option<String>,
    pub enabled: Option<bool>,
}

impl Default for RepoEntry {
    fn default() -> (r: Self)
        ensures
            r.url@ == Seq::<char>::empty(),
            r.branch is None,
            r.priority is None,
            r.key_fingerprint is None,
            r.binary_repo_url is None,
            r.index_url is None,
            r.enabled is None,
    {
        RepoEntry {
            url: String::new(),
            branch: None,
            priority: None,
            key_fingerprint: None,
            binary_repo_url: None,
            index_url: None,
            enabled: None,
        }
    }
}

impl Clone for RepoEntry {
    fn clone(&self) -> (r: Self)
        ensures
            r == *self,
    {
        RepoEntry {
            url: self.url.clone(),
            branch: crate::metadata::clone_opt_string(&self.branch),
            priority: self.priority,
            key_fingerprint: crate::metadata::clone_opt_string(&self.key_fingerprint),
            binary_repo_url: crate::metadata::clone_opt_string(&self.binary_repo_url),
            index_url: crate::metadata::clone_opt_string(&self.index_url),
            enabled: self.enabled,
        }
    }
}

/// A URL setting counts when present and not blank.
pub open spec fn set_url(u: Option<String>) -> bool {
    u matches Some(s) && trim(s@).len() > 0
}

fn non_blank(u: &Option<String>) -> (r: bool)
    ensures
        r == set_url(*u),
{
    match u {
        Some(s) => {
            let t = crate::text::trim_string(s.as_str());
            !t.as_str().is_empty()
        },
        None => false,
    }
}

impl RepoEntry {
    /// The branch, `main` when unset.
    pub fn branch_or_default(&self) -> (r: &str)
        ensures
            r@ == (match self.branch {
                Some(b) => b@,
                None => "main"@,
            }),
    {
        match &self.branch {
            Some(b) => b.as_str(),
            None => "main",
        }
    }

    pub fn priority_or(&self, default: i64) -> (r: i64)
        ensures
            r == (match self.priority {
                Some(p) => p,
                None => default,
            }),
    {
        match self.priority {
            Some(p) => p,
            None => default,
        }
    }

    pub fn enabled_or(&self, default: bool) -> (r: bool)
        ensures
            r == (match self.enabled {
                Some(e) => e,
                None => default,
            }),
    {
        match self.enabled {
            Some(e) => e,
            None => default,
        }
    }

    /// Whether the repository publishes signed binaries.
    pub fn has_binary(&self) -> (r: bool)
        ensures
            r == set_url(self.binary_repo_url),
    {
        non_blank(&self.binary_repo_url)
    }

    /// Whether the repository has a VUP binary index.
    pub fn has_vup_index(&self) -> (r: bool)
        ensures
            r == set_url(self.index_url),
    {
        non_blank(&self.index_url)
    }
}

/// The configured repositories, by name; names are unique and in order.
#[derive(Debug)]
pub struct ReposConf {
    pub vur: Vec<(String, RepoEntry)>,
}

/// Names strictly increasing: the order of a map keyed by name.
pub open spec fn names_sorted(v: Seq<(String, RepoEntry)>) -> bool {
    forall|i: int, j: int| 0 <= i < j < v.len() ==> text_order(v[i].0@, v[j].0@) < 0
}

/// Sort key of an enabled repository: priority (100 when unset), then name.
pub open spec fn repo_before(a: (String, RepoEntry), b: (String, RepoEntry)) -> bool {
    let pa = match a.1.priority {
        Some(p) => p,
        None => 100,
    };
    let pb = match b.1.priority {
        Some(p) => p,
        None => 100,
    };
    pa < pb || (pa == pb && text_order(a.0@, b.0@) < 0)
}

pub open spec fn is_enabled(e: RepoEntry) -> bool {
    match e.enabled {
        Some(x) => x,
        None => true,
    }
}

impl Default for ReposConf {
    fn default() -> (r: Self)
        ensures
            r.vur@.len() == 0,
    {
        ReposConf { vur: Vec::new() }
    }
}

impl ReposConf {
    pub open spec fn wf(&self) -> bool {
        names_sorted(self.vur@)
    }

    /// The entry named `name`.
    pub fn get(&self, name: &str) -> (r: Option<&RepoEntry>)
        ensures
            r matches Some(e) ==> exists|i: int| 0 <= i < self.vur@.len() && self.vur@[i].0@ == name@
                && self.vur@[i].1 == *e,
            r is None ==> forall|i: int| 0 <= i < self.vur@.len() ==> self.vur@[i].0@ != name@,
    {
        let key = name.to_owned();
        let mut i: usize = 0;
        while i < self.vur.len()
            invariant
                i <= self.vur@.len(),
                key@ == name@,
                forall|j: int| 0 <= j < i ==> self.vur@[j].0@ != name@,
            decreases self.vur@.len() - i,
        {
            if self.vur[i].0 == key {
                return Some(&self.vur[i].1);
            }
            i = i + 1;
        }
        None
    }

    /// Enabled repositories, lowest priority number first, ties by name.
    pub fn sorted_by_priority(&self) -> (r: Vec<(String, RepoEntry)>)
        requires
            self.wf(),
        ensures
            sorted_repos(r@),
            forall|x: (String, RepoEntry)| #[trigger] r@.contains(x) <==> (self.vur@.contains(x)
                && is_enabled(x.1)),
    {
        let mut out: Vec<(String, RepoEntry)> = Vec::new();
        let mut k: usize = 0;
        while k < self.vur.len()
            invariant
                k <= self.vur@.len(),
                self.wf(),
                sorted_repos(out@),
                forall|x: (String, RepoEntry)| #[trigger] out@.contains(x) <==> (self.vur@.take(
                    k as int,
                ).contains(x) && is_enabled(x.1)),
            decreases self.vur@.len() - k,
        {
            let ghost ev = self.vur@[k as int];
            let ghost prev = self.vur@.take(k as int);
            proof {
                assert(self.vur@.take(k as int + 1) =~= prev.push(ev));
                assert forall|y: (String, RepoEntry)| #[trigger] out@.contains(y) implies y.0@ != ev.0@ by {
                    let m = choose|m: int| 0 <= m < prev.len() && prev[m] == y;
                    assert(text_order(self.vur@[m].0@, ev.0@) < 0);
                    lemma_text_order_zero(self.vur@[m].0@, ev.0@);
                }
            }
            if self.vur[k].1.enabled_or(true) {
                let e = (self.vur[k].0.clone(), self.vur[k].1.clone());
                let ghost before = out@;
                insert_sorted(&mut out, e);
                proof {
                    assert forall|x: (String, RepoEntry)| #[trigger] out@.contains(x) <==> (
                    prev.push(ev).contains(x) && is_enabled(x.1)) by {
                        if prev.push(ev).contains(x) && x != ev {
                            let m = choose|m: int| 0 <= m < prev.push(ev).len() && prev.push(ev)[m] == x;
                            assert(prev[m] == x);
                        }
                        if prev.contains(x) {
                            let m = choose|m: int| 0 <= m < prev.len() && prev[m] == x;
                            assert(prev.push(ev)[m] == x);
                        }
                        if x == ev {
                            assert(prev.push(ev)[prev.len() as int] == x);
                        }
                    }
                }
            } else {
                proof {
                    assert forall|x: (String, RepoEntry)| #[trigger] out@.contains(x) <==> (
                    prev.push(ev).contains(x) && is_enabled(x.1)) by {
                        if prev.push(ev).contains(x) && x != ev {
                            let m = choose|m: int| 0 <= m < prev.push(ev).len() && prev.push(ev)[m] == x;
                            assert(prev[m] == x);
                        }
                        if prev.contains(x) {
                            let m = choose|m: int| 0 <= m < prev.len() && prev[m] == x;
                            assert(prev.push(ev)[m] == x);
                        }
                    }
                }
            }
            k = k + 1;
        }
        assert(self.vur@.take(self.vur@.len() as int) =~= self.vur@);
        out
    }
}

impl ReposConf {
    /// Sets the entry for `name`, replacing any previous one.
    pub fn insert(&mut self, name: String, entry: RepoEntry)
        requires
            old(self).wf(),
        ensures
            final(self).wf(),
            forall|x: (String, RepoEntry)| #[trigger] final(self).vur@.contains(x) <==> ((old(
                self,
            ).vur@.contains(x) && x.0@ != name@) || x == (name, entry)),
    {
        let key = crate::text::chars_of(name.as_str());
        let mut pos: usize = 0;
        while pos < self.vur.len() && crate::version::text_order_exec(
            &crate::text::chars_of(self.vur[pos].0.as_str()),
            &key,
        ) < 0
            invariant
                pos <= self.vur@.len(),
                key@ == name@,
                forall|i: int| 0 <= i < pos ==> text_order(self.vur@[i].0@, name@) < 0,
            decreases self.vur@.len() - pos,
        {
            pos = pos + 1;
        }
        let ghost before = self.vur@;
        let replace = pos < self.vur.len() && self.vur[pos].0 == name;
        proof {
            assert forall|j: int| pos <= j < before.len() implies text_order(name@, #[trigger] before[j].0@)
                < 0 || (j == pos && replace) by {
                lemma_text_order_zero(before[pos as int].0@, name@);
                lemma_text_order_antisym(before[pos as int].0@, name@);
                if j > pos {
                    if replace {
                        assert(text_order(before[pos as int].0@, before[j].0@) < 0);
                    } else {
                        assert(text_order(name@, before[pos as int].0@) < 0);
                        assert(text_order(before[pos as int].0@, before[j].0@) < 0);
                        lemma_text_order_trans(name@, before[pos as int].0@, before[j].0@);
                    }
                }
            }
        }
        if replace {
            self.vur.set(pos, (name, entry));
            proof {
                assert forall|i: int, j: int| 0 <= i < j < self.vur@.len() implies text_order(
                    self.vur@[i].0@,
                    self.vur@[j].0@,
                ) < 0 by {
                    if j == pos {
                        assert(self.vur@[j].0@ == before[j].0@);
                    } else if i == pos {
                        assert(self.vur@[i].0@ == before[i].0@);
                    }
                }
                assert forall|x: (String, RepoEntry)| #[trigger] self.vur@.contains(x) <==> ((
                before.contains(x) && x.0@ != name@) || x == (name, entry)) by {
                    if self.vur@.contains(x) {
                        let m = choose|m: int| 0 <= m < self.vur@.len() && self.vur@[m] == x;
                        if m != pos {
                            assert(before[m] == x);
                            lemma_text_order_zero(before[m].0@, name@);
                            if m < pos {
                            } else {
                                lemma_text_order_antisym(name@, before[m].0@);
                            }
                        }
                    }
                    if before.contains(x) && x.0@ != name@ {
                        let m = choose|m: int| 0 <= m < before.len() && before[m] == x;
                        assert(m != pos);
                        assert(self.vur@[m] == x);
                    }
                    if x == (name, entry) {
                        assert(self.vur@[pos as int] == x);
                    }
                }
            }
        } else {
            self.vur.insert(pos, (name, entry));
            proof {
                assert forall|i: int, j: int| 0 <= i < j < self.vur@.len() implies text_order(
                    self.vur@[i].0@,
                    self.vur@[j].0@,
                ) < 0 by {
                    if j < pos {
                        assert(self.vur@[i] == before[i] && self.vur@[j] == before[j]);
                    } else if j == pos {
                        assert(self.vur@[i] == before[i]);
                    } else if i == pos {
                        assert(self.vur@[j] == before[j - 1]);
                    } else if i < pos {
                        assert(self.vur@[i] == before[i] && self.vur@[j] == before[j - 1]);
                        lemma_text_order_trans(before[i].0@, name@, before[j - 1].0@);
                    } else {
                        assert(self.vur@[i] == before[i - 1] && self.vur@[j] == before[j - 1]);
                    }
                }
                assert forall|x: (String, RepoEntry)| #[trigger] self.vur@.contains(x) <==> ((
                before.contains(x) && x.0@ != name@) || x == (name, entry)) by {
                    if self.vur@.contains(x) {
                        let m = choose|m: int| 0 <= m < self.vur@.len() && self.vur@[m] == x;
                        if m < pos {
                            assert(before[m] == x);
                            lemma_text_order_zero(before[m].0@, name@);
                        } else if m > pos {
                            assert(before[m - 1] == x);
                            lemma_text_order_zero(name@, before[m - 1].0@);
                        }
                    }
                    if before.contains(x) && x.0@ != name@ {
                        let m = choose|m: int| 0 <= m < before.len() && before[m] == x;
                        if m < pos {
                            assert(self.vur@[m] == x);
                        } else {
                            assert(self.vur@[m + 1] == x);
                        }
                    }
                    if x == (name, entry) {
                        assert(self.vur@[pos as int] == x);
                    }
                }
            }
        }
    }
}

/// Ordered by [`repo_before`] throughout.
pub open spec fn sorted_repos(v: Seq<(String, RepoEntry)>) -> bool {
    forall|i: int, j: int| 0 <= i < j < v.len() ==> repo_before(v[i], v[j])
}

/// Inserts `e` at its place in a sorted list that lacks its name.
fn insert_sorted(out: &mut Vec<(String, RepoEntry)>, e: (String, RepoEntry))
    requires
        sorted_repos(old(out)@),
        forall|y: (String, RepoEntry)| #[trigger] old(out)@.contains(y) ==> y.0@ != e.0@,
    ensures
        sorted_repos(final(out)@),
        forall|x: (String, RepoEntry)| #[trigger] final(out)@.contains(x) <==> (old(out)@.contains(x)
            || x == e),
{
    let p = e.1.priority_or(100);
    let ea = crate::text::chars_of(e.0.as_str());
    let mut pos: usize = 0;
    while pos < out.len() && (out[pos].1.priority_or(100) < p || (out[pos].1.priority_or(100) == p
        && crate::version::text_order_exec(&crate::text::chars_of(out[pos].0.as_str()), &ea) < 0))
        invariant
            pos <= out@.len(),
            ea@ == e.0@,
            p == (match e.1.priority {
                Some(x) => x,
                None => 100i64,
            }),
            forall|i: int| 0 <= i < pos ==> repo_before(out@[i], e),
        decreases out@.len() - pos,
    {
        pos = pos + 1;
    }
    let ghost before = out@;
    proof {
        if pos < before.len() {
            assert(before.contains(before[pos as int]));
            lemma_before_total(before[pos as int], e);
        }
        assert forall|j: int| pos <= j < before.len() implies repo_before(e, #[trigger] before[j]) by {
            if j > pos {
                assert(repo_before(before[pos as int], before[j]));
                lemma_before_trans(e, before[pos as int], before[j]);
            }
        }
    }
    out.insert(pos, e);
    proof {
        assert forall|i: int, j: int| 0 <= i < j < out@.len() implies repo_before(out@[i], out@[j]) by {
            if j < pos {
                assert(out@[i] == before[i] && out@[j] == before[j]);
            } else if j == pos {
                assert(out@[i] == before[i]);
            } else if i == pos {
                assert(out@[j] == before[j - 1]);
            } else if i < pos {
                assert(out@[i] == before[i] && out@[j] == before[j - 1]);
                lemma_before_trans(before[i], e, before[j - 1]);
            } else {
                assert(out@[i] == before[i - 1] && out@[j] == before[j - 1]);
            }
        }
        assert forall|x: (String, RepoEntry)| #[trigger] out@.contains(x) <==> (before.contains(x)
            || x == e) by {
            if out@.contains(x) {
                let m = choose|m: int| 0 <= m < out@.len() && out@[m] == x;
                if m < pos {
                    assert(before[m] == x);
                } else if m > pos {
                    assert(before[m - 1] == x);
                }
            }
            if before.contains(x) {
                let m = choose|m: int| 0 <= m < before.len() && before[m] == x;
                if m < pos {
                    assert(out@[m] == x);
                } else {
                    assert(out@[m + 1] == x);
                }
            }
            if x == e {
                assert(out@[pos as int] == x);
            }
        }
    }
}

/// Two entries with different names are ordered one way or the other.
proof fn lemma_before_total(a: (String, RepoEntry), b: (String, RepoEntry))
    requires
        a.0@ != b.0@,
    ensures
        repo_before(a, b) || repo_before(b, a),
{
    lemma_text_order_zero(a.0@, b.0@);
    lemma_text_order_antisym(a.0@, b.0@);
}

proof fn lemma_before_trans(a: (String, RepoEntry), b: (String, RepoEntry), c: (String, RepoEntry))
    requires
        repo_before(a, b),
        repo_before(b, c),
    ensures
        repo_before(a, c),
{
    if text_order(a.0@, b.0@) < 0 && text_order(b.0@, c.0@) < 0 {
        lemma_text_order_trans(a.0@, b.0@, c.0@);
    }
}

} // verus!
