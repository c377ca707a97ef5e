//! Soname pins: which provider version served each shared library a
//! source-built package links against, recorded at install time, and the
//! advisory drift check on upgrade (a rebuild is suggested, never forced).
//!
//! Data comes from `xbps-query -S --property=...` on the local package
//! database, through a [`PropertyQuery`].
use vstd::prelude::*;
use crate::metadata::strs_view;
use crate::sorting::{lemma_push_contains, sorted_unique, strictly_sorted};
use crate::text::{chars_of, first_match_from, lemma_first_match_from, push_str, trim, trim_vec};
use crate::version::{lemma_text_order_zero, text_order};

verus! {

/// Shared library name to the `pkgver` of the provider that served it
/// (`libcurl.so.4` -> `libcurl-8.22.0_1`), keys ascending.
#[derive(Debug)]
pub struct SonamePins {
    pub entries: Vec<(String, String)>,
}

pub open spec fn pin_keys(v: Seq<(String, String)>) -> Seq<Seq<char>> {
    v.map_values(|e: (String, String)| e.0@)
}

/// The map a list of `(key, value)` entries with distinct keys stands for.
pub open spec fn entries_map(v: Seq<(String, String)>) -> Map<Seq<char>, Seq<char>>
    decreases v.len(),
{
    if v.len() == 0 {
        Map::empty()
    } else {
        entries_map(v.drop_last()).insert(v.last().0@, v.last().1@)
    }
}

proof fn lemma_entries_map(v: Seq<(String, String)>, k: Seq<char>)
    requires
        strictly_sorted(pin_keys(v)),
    ensures
        entries_map(v).contains_key(k) <==> pin_keys(v).contains(k),
        forall|i: int| 0 <= i < v.len() && v[i].0@ == k ==> entries_map(v)[k] == v[i].1@,
    decreases v.len(),
{
    if v.len() > 0 {
        let w = v.drop_last();
        assert(pin_keys(w) =~= pin_keys(v).drop_last());
        lemma_entries_map(w, k);
        if pin_keys(v).contains(k) && k != v.last().0@ {
            let i = choose|i: int| 0 <= i < pin_keys(v).len() && pin_keys(v)[i] == k;
            assert(pin_keys(w)[i] == k);
        }
        if pin_keys(w).contains(k) {
            let i = choose|i: int| 0 <= i < pin_keys(w).len() && pin_keys(w)[i] == k;
            assert(pin_keys(v)[i] == k);
        }
        if k == v.last().0@ {
            assert(pin_keys(v)[v.len() - 1] == k);
        }
        assert forall|i: int| 0 <= i < v.len() && v[i].0@ == k implies entries_map(v)[k] == v[i].1@ by {
            if i < v.len() - 1 {
                assert(pin_keys(v)[i] == k);
                assert(text_order(pin_keys(v)[i], pin_keys(v)[v.len() - 1]) < 0);
                lemma_text_order_zero(pin_keys(v)[i], pin_keys(v)[v.len() - 1]);
                assert(w[i] == v[i]);
            }
        }
    }
}

impl SonamePins {
    pub open spec fn wf(&self) -> bool {
        strictly_sorted(pin_keys(self.entries@))
    }

    /// The pins as a map.
    pub open spec fn view_map(&self) -> Map<Seq<char>, Seq<char>> {
        entries_map(self.entries@)
    }

    pub fn new() -> (r: Self)
        ensures
            r.wf(),
            r.entries@.len() == 0,
            r.view_map() == Map::<Seq<char>, Seq<char>>::empty(),
    {
        let r = SonamePins { entries: Vec::new() };
        assert(pin_keys(r.entries@) =~= Seq::<Seq<char>>::empty());
        r
    }

    pub fn len(&self) -> (r: usize)
        requires
            self.wf(),
        ensures
            r == self.view_map().dom().len(),
    {
        proof {
            self.lemma_len();
        }
        self.entries.len()
    }

    proof fn lemma_len(&self)
        requires
            self.wf(),
        ensures
            self.view_map().dom().finite(),
            self.view_map().dom().len() == self.entries@.len(),
    {
        lemma_entries_len(self.entries@);
    }

    pub fn is_empty(&self) -> (r: bool)
        requires
            self.wf(),
        ensures
            r == (self.view_map().dom().len() == 0),
    {
        proof {
            self.lemma_len();
        }
        self.entries.len() == 0
    }

    /// The pin for `key`.
    pub fn get(&self, key: &str) -> (r: Option<&String>)
        requires
            self.wf(),
        ensures
            r matches Some(v) ==> self.view_map().contains_key(key@) && self.view_map()[key@] == v@,
            r is None ==> !self.view_map().contains_key(key@),
    {
        let k = key.to_owned();
        let mut i: usize = 0;
        while i < self.entries.len()
            invariant
                i <= self.entries@.len(),
                self.wf(),
                k@ == key@,
                forall|j: int| 0 <= j < i ==> self.entries@[j].0@ != key@,
            decreases self.entries@.len() - i,
        {
            if self.entries[i].0 == k {
                proof {
                    lemma_entries_map(self.entries@, key@);
                    assert(pin_keys(self.entries@)[i as int] == key@);
                }
                return Some(&self.entries[i].1);
            }
            i = i + 1;
        }
        proof {
            lemma_entries_map(self.entries@, key@);
            if pin_keys(self.entries@).contains(key@) {
                let j = choose|j: int| 0 <= j < pin_keys(self.entries@).len() && pin_keys(self.entries@)[j]
                    == key@;
                assert(self.entries@[j].0@ == key@);
            }
        }
        None
    }

    pub fn contains_key(&self, key: &str) -> (r: bool)
        requires
            self.wf(),
        ensures
            r == self.view_map().contains_key(key@),
    {
        self.get(key).is_some()
    }
}

proof fn lemma_entries_len(v: Seq<(String, String)>)
    requires
        strictly_sorted(pin_keys(v)),
    ensures
        entries_map(v).dom().finite(),
        entries_map(v).dom().len() == v.len(),
    decreases v.len(),
{
    if v.len() > 0 {
        let w = v.drop_last();
        assert(pin_keys(w) =~= pin_keys(v).drop_last());
        lemma_entries_len(w);
        lemma_entries_map(w, v.last().0@);
        if pin_keys(w).contains(v.last().0@) {
            let i = choose|i: int| 0 <= i < pin_keys(w).len() && pin_keys(w)[i] == v.last().0@;
            assert(text_order(pin_keys(v)[i], pin_keys(v)[v.len() - 1]) < 0);
            lemma_text_order_zero(pin_keys(v)[i], pin_keys(v)[v.len() - 1]);
        }
    }
}

/// A drift between the pinned baseline and the current state.
#[derive(Debug, PartialEq)]
pub enum SonameDrift {
    /// The provider changed version but still provides the soname: a
    /// different ABI is suspected, a rebuild is suggested.
    Bumped { shlib: String, from: String, to: String },
    /// The soname is still required but nothing installed provides it.
    Orphaned { shlib: String, pinned: String },
}

/// Characters that end the package part of a run dependency.
pub open spec fn rundep_cut() -> spec_fn(char) -> bool {
    |c: char| c == '<' || c == '>' || c == '='
}

/// Package part of a run dependency (`libcurl>=8.22.0_1` -> `libcurl`),
/// trimmed.
pub open spec fn rundep_name(dep: Seq<char>) -> Seq<char> {
    trim(dep.take(first_match_from(dep, rundep_cut(), 0)))
}

pub fn rundep_base(dep: &str) -> (r: String)
    ensures
        r@ == rundep_name(dep@),
{
    let cs = chars_of(dep);
    let mut i: usize = 0;
    while i < cs.len() && !(cs[i] == '<' || cs[i] == '>' || cs[i] == '=')
        invariant
            i <= cs@.len(),
            cs@ == dep@,
            first_match_from(dep@, rundep_cut(), 0) == first_match_from(dep@, rundep_cut(), i as int),
        decreases cs@.len() - i,
    {
        i = i + 1;
    }
    proof {
        lemma_first_match_from(dep@, rundep_cut(), i as int);
    }
    let head = crate::text::slice_vec(&cs, 0, i);
    assert(head@ =~= dep@.take(i as int));
    let t = trim_vec(&head);
    crate::text::string_from(&t)
}

/// Answers `xbps-query -S --property=<prop> <pkg>` on the local package
/// database, one line per value (nothing when the query fails).
pub trait PropertyQuery {
    spec fn spec_query(&self, pkg: Seq<char>, prop: Seq<char>) -> Seq<Seq<char>>;

    fn query(&self, pkg: &str, prop: &str) -> (r: Vec<String>)
        ensures
            strs_view(r@) == self.spec_query(pkg@, prop@),
    ;
}

/// A fixed table of answers, keyed by `(package, property)`.
pub struct QueryTable {
    pub rows: Vec<((String, String), Vec<String>)>,
}

impl PropertyQuery for QueryTable {
    open spec fn spec_query(&self, pkg: Seq<char>, prop: Seq<char>) -> Seq<Seq<char>> {
        let i = table_row(self.rows@, pkg, prop, 0);
        if i < self.rows@.len() {
            strs_view(self.rows@[i].1@)
        } else {
            Seq::empty()
        }
    }

    fn query(&self, pkg: &str, prop: &str) -> (r: Vec<String>) {
        let p = pkg.to_owned();
        let q = prop.to_owned();
        let mut i: usize = 0;
        while i < self.rows.len()
            invariant
                i <= self.rows@.len(),
                p@ == pkg@,
                q@ == prop@,
                table_row(self.rows@, pkg@, prop@, 0) == table_row(self.rows@, pkg@, prop@, i as int),
            decreases self.rows@.len() - i,
        {
            if self.rows[i].0.0 == p && self.rows[i].0.1 == q {
                return crate::metadata::clone_strings(&self.rows[i].1);
            }
            i = i + 1;
        }
        let r: Vec<String> = Vec::new();
        assert(strs_view(r@) =~= Seq::<Seq<char>>::empty());
        r
    }
}

/// First row at or after `i` keyed `(pkg, prop)`.
pub open spec fn table_row(
    rows: Seq<((String, String), Vec<String>)>,
    pkg: Seq<char>,
    prop: Seq<char>,
    i: int,
) -> int
    decreases rows.len() - i,
{
    if i < 0 || i >= rows.len() {
        rows.len() as int
    } else if rows[i].0.0@ == pkg && rows[i].0.1@ == prop {
        i
    } else {
        table_row(rows, pkg, prop, i + 1)
    }
}

/// The trimmed, non-empty lines of an answer.
pub open spec fn clean_lines(ls: Seq<Seq<char>>) -> Seq<Seq<char>> {
    ls.map_values(|l: Seq<char>| trim(l)).filter(|l: Seq<char>| l.len() > 0)
}

fn clean(ls: Vec<String>) -> (r: Vec<String>)
    ensures
        strs_view(r@) == clean_lines(strs_view(ls@)),
{
    let ghost src = strs_view(ls@).map_values(|l: Seq<char>| trim(l));
    let ghost pred = |l: Seq<char>| l.len() > 0;
    let mut out: Vec<String> = Vec::new();
    let mut i: usize = 0;
    proof {
        src.take(0).filter_lemma(pred);
        assert(src.take(0).filter(pred) =~= Seq::<Seq<char>>::empty());
        assert(strs_view(out@) =~= Seq::<Seq<char>>::empty());
    }
    while i < ls.len()
        invariant
            i <= ls@.len(),
            src == strs_view(ls@).map_values(|l: Seq<char>| trim(l)),
            pred == (|l: Seq<char>| l.len() > 0),
            strs_view(out@) == src.take(i as int).filter(pred),
        decreases ls@.len() - i,
    {
        proof {
            assert(src.take(i as int + 1) =~= src.take(i as int).push(src[i as int]));
            src.take(i as int).lemma_filter_push(src[i as int], pred);
        }
        let t = crate::text::trim_string(ls[i].as_str());
        if !t.as_str().is_empty() {
            let ghost before = strs_view(out@);
            out.push(t);
            proof {
                assert(strs_view(out@) =~= before.push(src[i as int]));
            }
        }
        i = i + 1;
    }
    proof {
        assert(src.take(ls@.len() as int) =~= src);
        assert(clean_lines(strs_view(ls@)) == src.filter(pred));
    }
    out
}

/// Whether `dep` (a package name) is a usable provider: it provides
/// sonames and reports a `pkgver`.
pub open spec fn provider_ok<Q: PropertyQuery>(q: Q, dep: Seq<char>) -> bool {
    &&& dep.len() > 0
    &&& clean_lines(q.spec_query(dep, "shlib-provides"@)).len() > 0
    &&& clean_lines(q.spec_query(dep, "pkgver"@)).len() > 0
}

/// The version of the first usable run dependency (from index `k` on)
/// that provides `shlib`.
pub open spec fn first_provider<Q: PropertyQuery>(
    q: Q,
    deps: Seq<Seq<char>>,
    shlib: Seq<char>,
    k: int,
) -> Option<Seq<char>>
    decreases deps.len() - k,
{
    if k < 0 || k >= deps.len() {
        None
    } else if provider_ok(q, deps[k]) && clean_lines(q.spec_query(deps[k], "shlib-provides"@)).contains(
        shlib,
    ) {
        Some(clean_lines(q.spec_query(deps[k], "pkgver"@))[0])
    } else {
        first_provider(q, deps, shlib, k + 1)
    }
}

/// The run dependencies of `pkg`, as package names.
pub open spec fn run_dep_names<Q: PropertyQuery>(q: Q, pkg: Seq<char>) -> Seq<Seq<char>> {
    q.spec_query(pkg, "run_depends"@).map_values(|l: Seq<char>| rundep_name(l))
}

/// The pins of an installed package: each soname it requires that a run
/// dependency provides, pinned to the version of the first such
/// dependency (in `run_depends` order).
pub open spec fn expected_pins<Q: PropertyQuery>(q: Q, pkg: Seq<char>) -> Map<Seq<char>, Seq<char>> {
    let reqs = clean_lines(q.spec_query(pkg, "shlib-requires"@));
    let deps = run_dep_names(q, pkg);
    Map::new(
        |s: Seq<char>| reqs.contains(s) && first_provider(q, deps, s, 0) is Some,
        |s: Seq<char>| first_provider(q, deps, s, 0)->0,
    )
}

/// Current `shlib -> provider pkgver` of an installed package.
pub fn snapshot<Q: PropertyQuery>(query: &Q, pkg: &str) -> (r: SonamePins)
    ensures
        r.wf(),
        r.view_map() == expected_pins(*query, pkg@),
{
    let reqs_raw = clean(query.query(pkg, "shlib-requires"));
    let reqs = sorted_unique(&reqs_raw);
    let mut out = SonamePins::new();
    if reqs.len() == 0 {
        proof {
            assert(out.view_map() =~= expected_pins(*query, pkg@)) by {
                assert forall|s: Seq<char>| !(#[trigger] clean_lines(query.spec_query(pkg@, "shlib-requires"@)).contains(s)) by {
                    if strs_view(reqs_raw@).contains(s) {
                        assert(strs_view(reqs@).contains(s));
                    }
                }
            }
        }
        return out;
    }
    let lines = query.query(pkg, "run_depends");
    let mut deps: Vec<String> = Vec::new();
    let mut k: usize = 0;
    while k < lines.len()
        invariant
            k <= lines@.len(),
            strs_view(lines@) == query.spec_query(pkg@, "run_depends"@),
            strs_view(deps@) == run_dep_names(*query, pkg@).take(k as int),
        decreases lines@.len() - k,
    {
        let d = rundep_base(lines[k].as_str());
        proof {
            assert(strs_view(lines@)[k as int] == lines@[k as int]@);
            assert(d@ == run_dep_names(*query, pkg@)[k as int]);
        }
        let ghost before = strs_view(deps@);
        deps.push(d);
        proof {
            assert(strs_view(deps@) =~= before.push(d@));
            assert(strs_view(deps@) =~= run_dep_names(*query, pkg@).take(k as int + 1));
        }
        k = k + 1;
    }
    proof {
        assert(run_dep_names(*query, pkg@).take(lines@.len() as int) =~= run_dep_names(*query, pkg@));
    }
    let ghost dv = run_dep_names(*query, pkg@);
    let ghost rv = strs_view(reqs@);
    let ghost fp = |s: Seq<char>| first_provider(*query, dv, s, 0);
    let ghost mut src: Seq<int> = Seq::empty();
    let mut i: usize = 0;
    proof {
        assert(out.view_map() =~= partial_pins(rv, fp, 0));
    }
    while i < reqs.len()
        invariant
            i <= reqs@.len(),
            dv == run_dep_names(*query, pkg@),
            rv == strs_view(reqs@),
            fp == (|s: Seq<char>| first_provider(*query, dv, s, 0)),
            strs_view(deps@) == dv,
            strictly_sorted(rv),
            out.wf(),
            src.len() == out.entries@.len(),
            forall|x: int| 0 <= x < src.len() ==> 0 <= #[trigger] src[x] < i && rv[src[x]]
                == out.entries@[x].0@,
            forall|x: int, y: int| 0 <= x < y < src.len() ==> #[trigger] src[x] < #[trigger] src[y],
            out.view_map() == partial_pins(rv, fp, i as int),
        decreases reqs@.len() - i,
    {
        let found = find_provider(query, &deps, reqs[i].as_str());
        proof {
            assert(rv[i as int] == reqs@[i as int]@);
        }
        match found {
            Some(v) => {
                let ghost before = out.entries@;
                out.entries.push((reqs[i].clone(), v));
                proof {
                    src = src.push(i as int);
                    assert(out.entries@.drop_last() == before);
                    assert(rv.take(i as int + 1) =~= rv.take(i as int).push(rv[i as int]));
                    assert forall|s: Seq<char>| #[trigger] rv.take(i as int + 1).contains(s) <==> (rv.take(
                        i as int,
                    ).contains(s) || s == rv[i as int]) by {
                        lemma_push_contains(rv.take(i as int), rv[i as int], s);
                    }
                    assert(out.view_map() =~= partial_pins(rv, fp, i as int + 1));
                }
            },
            None => {
                proof {
                    assert(rv.take(i as int + 1) =~= rv.take(i as int).push(rv[i as int]));
                    assert forall|s: Seq<char>| #[trigger] rv.take(i as int + 1).contains(s) <==> (rv.take(
                        i as int,
                    ).contains(s) || s == rv[i as int]) by {
                        lemma_push_contains(rv.take(i as int), rv[i as int], s);
                    }
                    assert(out.view_map() =~= partial_pins(rv, fp, i as int + 1));
                }
            },
        }
        proof {
            assert(pin_keys(out.entries@).len() == src.len());
            assert forall|a: int, b: int| 0 <= a < b < pin_keys(out.entries@).len() implies text_order(
                pin_keys(out.entries@)[a],
                pin_keys(out.entries@)[b],
            ) < 0 by {
                assert(src[a] < src[b]);
                assert(rv[src[a]] == pin_keys(out.entries@)[a]);
                assert(rv[src[b]] == pin_keys(out.entries@)[b]);
            }
        }
        i = i + 1;
    }
    proof {
        assert(rv.take(reqs@.len() as int) =~= rv);
        assert(out.view_map() =~= expected_pins(*query, pkg@)) by {
            assert forall|s: Seq<char>| #[trigger] rv.contains(s) <==> clean_lines(
                query.spec_query(pkg@, "shlib-requires"@),
            ).contains(s) by {
                assert(strs_view(reqs_raw@).contains(s) == rv.contains(s));
            }
        }
    }
    out
}

/// Pins for the first `i` required sonames.
pub open spec fn partial_pins(
    reqs: Seq<Seq<char>>,
    fp: spec_fn(Seq<char>) -> Option<Seq<char>>,
    i: int,
) -> Map<Seq<char>, Seq<char>> {
    Map::new(|s: Seq<char>| reqs.take(i).contains(s) && fp(s) is Some, |s: Seq<char>| fp(s)->0)
}

/// The version of the first usable provider of `shlib` among `deps`.
fn find_provider<Q: PropertyQuery>(query: &Q, deps: &Vec<String>, shlib: &str) -> (r: Option<String>)
    ensures
        match r {
            Some(v) => first_provider(*query, strs_view(deps@), shlib@, 0) == Some(v@),
            None => first_provider(*query, strs_view(deps@), shlib@, 0) is None,
        },
{
    let target = shlib.to_owned();
    let mut k: usize = 0;
    while k < deps.len()
        invariant
            k <= deps@.len(),
            target@ == shlib@,
            first_provider(*query, strs_view(deps@), shlib@, 0) == first_provider(
                *query,
                strs_view(deps@),
                shlib@,
                k as int,
            ),
        decreases deps@.len() - k,
    {
        let dep = deps[k].as_str();
        proof {
            assert(strs_view(deps@)[k as int] == dep@);
        }
        if !dep.is_empty() {
            let provides = clean(query.query(dep, "shlib-provides"));
            if provides.len() > 0 {
                let vers = clean(query.query(dep, "pkgver"));
                if vers.len() > 0 {
                    let mut j: usize = 0;
                    let mut hit = false;
                    while j < provides.len()
                        invariant
                            j <= provides@.len(),
                            hit == strs_view(provides@).take(j as int).contains(shlib@),
                            target@ == shlib@,
                        decreases provides@.len() - j,
                    {
                        proof {
                            assert(strs_view(provides@).take(j as int + 1) =~= strs_view(provides@).take(
                                j as int,
                            ).push(provides@[j as int]@));
                            lemma_push_contains(strs_view(provides@).take(j as int), provides@[j as int]@, shlib@);
                        }
                        if provides[j] == target {
                            hit = true;
                        }
                        j = j + 1;
                    }
                    proof {
                        assert(strs_view(provides@).take(provides@.len() as int) =~= strs_view(provides@));
                    }
                    if hit {
                        assert(strs_view(vers@)[0] == vers@[0]@);
                        return Some(vers[0].clone());
                    }
                }
            }
        }
        k = k + 1;
    }
    None
}

/// A [`SonameDrift`] as mathematical values.
pub ghost enum DriftView {
    Bumped(Seq<char>, Seq<char>, Seq<char>),
    Orphaned(Seq<char>, Seq<char>),
}

impl View for SonameDrift {
    type V = DriftView;

    open spec fn view(&self) -> DriftView {
        match self {
            SonameDrift::Bumped { shlib, from, to } => DriftView::Bumped(shlib@, from@, to@),
            SonameDrift::Orphaned { shlib, pinned } => DriftView::Orphaned(shlib@, pinned@),
        }
    }
}

/// The drifts of the pins `pinned` (in key order) against the current
/// pins `fresh` and the sonames the package still requires: a changed
/// provider version is `Bumped`; a pin with no current provider is
/// `Orphaned` while the soname is still required.
pub open spec fn drifts(
    pinned: Seq<(String, String)>,
    fresh: Map<Seq<char>, Seq<char>>,
    required: Seq<Seq<char>>,
) -> Seq<DriftView>
    decreases pinned.len(),
{
    if pinned.len() == 0 {
        Seq::empty()
    } else {
        let rest = drifts(pinned.drop_last(), fresh, required);
        let s = pinned.last().0@;
        let old = pinned.last().1@;
        if fresh.contains_key(s) {
            if fresh[s] != old {
                rest.push(DriftView::Bumped(s, old, fresh[s]))
            } else {
                rest
            }
        } else if required.contains(s) {
            rest.push(DriftView::Orphaned(s, old))
        } else {
            rest
        }
    }
}

pub open spec fn drift_views(v: Seq<SonameDrift>) -> Seq<DriftView> {
    v.map_values(|d: SonameDrift| d@)
}

/// Compares the pinned baseline with the current pins.
pub fn detect(pinned: &SonamePins, fresh: &SonamePins, still_required: &Vec<String>) -> (r: Vec<
    SonameDrift,
>)
    requires
        fresh.wf(),
    ensures
        drift_views(r@) == drifts(pinned.entries@, fresh.view_map(), strs_view(still_required@)),
{
    let mut out: Vec<SonameDrift> = Vec::new();
    let mut i: usize = 0;
    assert(drift_views(out@) =~= Seq::<DriftView>::empty());
    assert(pinned.entries@.take(0) =~= Seq::<(String, String)>::empty());
    while i < pinned.entries.len()
        invariant
            i <= pinned.entries@.len(),
            fresh.wf(),
            drift_views(out@) == drifts(
                pinned.entries@.take(i as int),
                fresh.view_map(),
                strs_view(still_required@),
            ),
        decreases pinned.entries@.len() - i,
    {
        let shlib = &pinned.entries[i].0;
        let old = &pinned.entries[i].1;
        proof {
            assert(pinned.entries@.take(i as int + 1).drop_last() =~= pinned.entries@.take(i as int));
        }
        let ghost before = drift_views(out@);
        match fresh.get(shlib.as_str()) {
            Some(now) => {
                if *now != *old {
                    out.push(SonameDrift::Bumped { shlib: shlib.clone(), from: old.clone(), to: now.clone() });
                    assert(drift_views(out@) =~= before.push(out@.last()@));
                }
            },
            None => {
                let mut required = false;
                let mut k: usize = 0;
                while k < still_required.len()
                    invariant
                        k <= still_required@.len(),
                        required == strs_view(still_required@).take(k as int).contains(shlib@),
                    decreases still_required@.len() - k,
                {
                    proof {
                        assert(strs_view(still_required@).take(k as int + 1) =~= strs_view(still_required@).take(
                            k as int,
                        ).push(still_required@[k as int]@));
                        lemma_push_contains(strs_view(still_required@).take(k as int), still_required@[k as int]@, shlib@);
                    }
                    if still_required[k] == *shlib {
                        required = true;
                    }
                    k = k + 1;
                }
                proof {
                    assert(strs_view(still_required@).take(still_required@.len() as int) =~= strs_view(still_required@));
                }
                if required {
                    out.push(SonameDrift::Orphaned { shlib: shlib.clone(), pinned: old.clone() });
                    assert(drift_views(out@) =~= before.push(out@.last()@));
                }
            },
        }
        i = i + 1;
    }
    assert(pinned.entries@.take(pinned.entries@.len() as int) =~= pinned.entries@);
    out
}

/// The notice for one drift.
pub fn format_drift(pkg: &str, drift: &SonameDrift) -> (r: String)
    ensures
        drift@ matches DriftView::Bumped(shlib, from, to) ==> r@ == pkg@ + ": el proveedor de "@ + shlib
            + " cambió ("@ + from + " → "@ + to
            + "); el binario se compiló contra la versión anterior — considera recompilar con `vary -S "@
            + pkg@ + "`"@,
        drift@ matches DriftView::Orphaned(shlib, pinned) ==> r@ == pkg@ + ": "@ + shlib
            + " (pineado de "@ + pinned
            + ") ya no lo provee ningún paquete instalado — probable bump de soname mayor; recompila con `vary -S "@
            + pkg@ + "`"@,
{
    let mut s = pkg.to_owned();
    match drift {
        SonameDrift::Bumped { shlib, from, to } => {
            push_str(&mut s, ": el proveedor de ");
            push_str(&mut s, shlib.as_str());
            push_str(&mut s, " cambió (");
            push_str(&mut s, from.as_str());
            push_str(&mut s, " → ");
            push_str(&mut s, to.as_str());
            push_str(
                &mut s,
                "); el binario se compiló contra la versión anterior — considera recompilar con `vary -S ",
            );
            push_str(&mut s, pkg);
            push_str(&mut s, "`");
        },
        SonameDrift::Orphaned { shlib, pinned } => {
            push_str(&mut s, ": ");
            push_str(&mut s, shlib.as_str());
            push_str(&mut s, " (pineado de ");
            push_str(&mut s, pinned.as_str());
            push_str(
                &mut s,
                ") ya no lo provee ningún paquete instalado — probable bump de soname mayor; recompila con `vary -S ",
            );
            push_str(&mut s, pkg);
            push_str(&mut s, "`");
        },
    }
    s
}

/// Pins of an installed package, from the local package database.
pub fn capture<Q: PropertyQuery>(pkg: &str, query: &Q) -> (r: SonamePins)
    ensures
        r.wf(),
        r.view_map() == expected_pins(*query, pkg@),
{
    snapshot(query, pkg)
}

/// Full check of one database entry: current pins, then drift detection.
/// No pins, no check.
pub fn check_db_entry<Q: PropertyQuery>(pkg: &str, pinned: &SonamePins, query: &Q) -> (r: Vec<
    SonameDrift,
>)
    ensures
        pinned.entries@.len() == 0 ==> r@.len() == 0,
        pinned.entries@.len() > 0 ==> drift_views(r@) == drifts(
            pinned.entries@,
            expected_pins(*query, pkg@),
            clean_lines(query.spec_query(pkg@, "shlib-requires"@)),
        ),
{
    if pinned.entries.len() == 0 {
        return Vec::new();
    }
    let fresh = snapshot(query, pkg);
    let required = clean(query.query(pkg, "shlib-requires"));
    detect(pinned, &fresh, &required)
}

} // verus!
