//! Dependency resolution.
//!
//! Turns a list of requested package names into a [`Plan`]: which packages
//! to install as binaries and which to build from VUR templates, builds in
//! dependency order. All data comes from a [`PackageSource`]; nothing here
//! performs I/O.
//!
//! For each name (requested or pulled in as a dependency):
//! 1. An official package wins and is a leaf (xbps resolves its own
//!    dependencies), unless the order is `PreferSource`.
//! 2. Otherwise a VUR candidate is looked up (by name, then by `provides`),
//!    keeping only candidates built for the current arch; with an explicit
//!    order all candidates compete by class, version, repo priority and
//!    repo name.
//! 3. A VUR candidate is installed from a signed binary when allowed and
//!    available, and built otherwise. Only builds pull in dependencies
//!    (`hostmakedepends`, `makedepends`, `depends`, constraints cut off).
//! 4. A name appears once in the plan; a dependency chain that comes back
//!    to a package still being expanded is a cycle and an error.
use vstd::prelude::*;
use crate::depgraph::{
    graph_add_edge, graph_add_node, graph_edges, graph_new, graph_nodes, graph_toposort,
    is_topological, lemma_ranked_acyclic,
};
use crate::metadata::{arch_ok, arch_supports, strs_view, VurInfo, VurInfoView};
use crate::text::{
    chars_eq, chars_of, first_match_from, lemma_first_match_from, push_str, slice_vec, string_from,
};
use crate::version::{version_order, version_order_exec};
use petgraph::graphmap::GraphMap;
use petgraph::Directed;
use std::collections::hash_map::RandomState;

verus! {

/// Where a binary comes from.
#[derive(Debug, PartialEq)]
pub enum BinarySource {
    /// The official Void Linux repositories.
    Official,
    /// A signed binary published by a VUR repository.
    VulBinary { repo: String },
}

/// What is done with a package of the plan.
#[derive(Debug, PartialEq)]
pub enum Action {
    Install(BinarySource),
    Build,
}

/// An [`Action`] as a mathematical value.
pub ghost enum ActionView {
    Official,
    VulBinary(Seq<char>),
    Build,
}

impl View for Action {
    type V = ActionView;

    open spec fn view(&self) -> ActionView {
        match self {
            Action::Install(BinarySource::Official) => ActionView::Official,
            Action::Install(BinarySource::VulBinary { repo }) => ActionView::VulBinary(repo@),
            Action::Build => ActionView::Build,
        }
    }
}

impl Clone for BinarySource {
    fn clone(&self) -> (r: Self)
        ensures
            r == *self,
    {
        match self {
            BinarySource::Official => BinarySource::Official,
            BinarySource::VulBinary { repo } => BinarySource::VulBinary { repo: repo.clone() },
        }
    }
}

impl Clone for Action {
    fn clone(&self) -> (r: Self)
        ensures
            r == *self,
    {
        match self {
            Action::Install(b) => Action::Install(b.clone()),
            Action::Build => Action::Build,
        }
    }
}

/// One package of the plan with what to do about it.
#[derive(Debug)]
pub struct PlanItem {
    /// The name it was asked for by (a target, or a dependency with its
    /// constraint cut off); may be a virtual name.
    pub name: String,
    pub info: VurInfo,
    pub action: Action,
}

/// A [`PlanItem`] as a mathematical value.
pub ghost struct PlanItemView {
    pub name: Seq<char>,
    pub info: VurInfoView,
    pub action: ActionView,
}

impl View for PlanItem {
    type V = PlanItemView;

    open spec fn view(&self) -> PlanItemView {
        PlanItemView { name: self.name@, info: self.info@, action: self.action@ }
    }
}

impl Clone for PlanItem {
    fn clone(&self) -> (r: Self)
        ensures
            r@ == self@,
    {
        PlanItem { name: self.name.clone(), info: self.info.clone(), action: self.action.clone() }
    }
}

/// The outcome of a resolution.
#[derive(Debug)]
pub struct Plan {
    /// Official packages first, then VUR binaries.
    pub installs: Vec<PlanItem>,
    /// Builds, every one after the builds it depends on.
    pub builds: Vec<PlanItem>,
    /// Non-fatal notices (a source preference that could not apply).
    pub warnings: Vec<String>,
}

/// Order among the candidates of several VUR repositories.
#[derive(Debug, Clone, Copy, PartialEq, Eq)]
pub enum CandidateOrder {
    /// No explicit preference: official first, the single merged VUR
    /// candidate otherwise.
    Legacy,
    /// Candidates with a signed binary first.
    PreferBinary,
    /// Candidates that build from source first.
    PreferSource,
}

impl Default for CandidateOrder {
    fn default() -> (r: Self)
        ensures
            r == CandidateOrder::Legacy,
    {
        CandidateOrder::Legacy
    }
}

/// Resolution options.
#[derive(Debug, Clone, Copy)]
pub struct ResolveOptions {
    /// Install a signed binary when one is available.
    pub prefer_binary: bool,
    /// Always build from source.
    pub force_build: bool,
    /// Order among candidates of several repositories.
    pub order: CandidateOrder,
}

impl Default for ResolveOptions {
    fn default() -> (r: Self)
        ensures
            r.prefer_binary,
            !r.force_build,
            r.order == CandidateOrder::Legacy,
    {
        ResolveOptions { prefer_binary: true, force_build: false, order: CandidateOrder::Legacy }
    }
}

/// A looked-up candidate as mathematical values: `(repo, info)`.
pub open spec fn cand_view(p: (String, VurInfo)) -> (Seq<char>, VurInfoView) {
    (p.0@, p.1@)
}

pub open spec fn opt_cand_view(p: Option<(String, VurInfo)>) -> Option<(Seq<char>, VurInfoView)> {
    match p {
        Some(c) => Some(cand_view(c)),
        None => None,
    }
}

pub open spec fn cands_view(v: Seq<(String, VurInfo)>) -> Seq<(Seq<char>, VurInfoView)> {
    v.map_values(|p: (String, VurInfo)| cand_view(p))
}

/// Where package data comes from: official repositories, VUR indexes and
/// the binaries they publish. Each query is a function of its arguments,
/// given by the matching `spec_*` function.
pub trait PackageSource {
    /// Whether the official repositories have the package.
    spec fn spec_official_exists(&self, name: Seq<char>) -> bool;

    /// The VUR candidate for a name, built for the current arch.
    spec fn spec_vur_lookup(&self, name: Seq<char>) -> Option<(Seq<char>, VurInfoView)>;

    /// The VUR candidate for a name, whatever its arch.
    spec fn spec_vur_lookup_any_arch(&self, name: Seq<char>) -> Option<(
        Seq<char>,
        VurInfoView,
    )>;

    /// The best VUR candidate providing a virtual name.
    spec fn spec_vur_lookup_provides(&self, name: Seq<char>) -> Option<(Seq<char>, VurInfoView)>;

    /// Whether a signed binary of `info` is published by `repo` for `arch`.
    spec fn spec_vul_binary_available(
        &self,
        repo: Seq<char>,
        info: VurInfoView,
        arch: Seq<char>,
    ) -> bool;

    /// Every VUR candidate for a name, over all repositories and arches.
    spec fn spec_vur_lookup_all(&self, name: Seq<char>) -> Seq<(Seq<char>, VurInfoView)>;

    /// Priority of a repository (lower is preferred).
    spec fn spec_repo_priority(&self, repo: Seq<char>) -> i64;

    /// The current architecture.
    spec fn spec_arch(&self) -> Seq<char>;

    fn official_exists(&self, name: &str) -> (r: bool)
        ensures
            r == self.spec_official_exists(name@),
    ;

    fn vur_lookup(&self, name: &str) -> (r: Option<(String, VurInfo)>)
        ensures
            opt_cand_view(r) == self.spec_vur_lookup(name@),
    ;

    fn vur_lookup_any_arch(&self, name: &str) -> (r: Option<(String, VurInfo)>)
        ensures
            opt_cand_view(r) == self.spec_vur_lookup_any_arch(name@),
    ;

    fn vur_lookup_provides(&self, virtual_name: &str) -> (r: Option<(String, VurInfo)>)
        ensures
            opt_cand_view(r) == self.spec_vur_lookup_provides(virtual_name@),
    ;

    fn vul_binary_available(&self, repo: &str, info: &VurInfo, arch: &str) -> (r: bool)
        ensures
            r == self.spec_vul_binary_available(repo@, info@, arch@),
    ;

    fn vur_lookup_all(&self, name: &str) -> (r: Vec<(String, VurInfo)>)
        ensures
            cands_view(r@) == self.spec_vur_lookup_all(name@),
    ;

    fn repo_priority(&self, repo: &str) -> (r: i64)
        ensures
            r == self.spec_repo_priority(repo@),
    ;

    fn arch(&self) -> (r: String)
        ensures
            r@ == self.spec_arch(),
    ;
}

// ------------------------------------------------------------------
// What resolution decides for one name
// ------------------------------------------------------------------

/// Characters that end the package part of a dependency string.
pub open spec fn dep_cut() -> spec_fn(char) -> bool {
    |c: char| c == '<' || c == '>' || c == '=' || c == ' '
}

/// The package part of a dependency string: everything before the first
/// `<`, `>`, `=` or space (`"pkg>=1.2"` -> `"pkg"`).
pub open spec fn dep_base(dep: Seq<char>) -> Seq<char> {
    dep.take(first_match_from(dep, dep_cut(), 0))
}

/// Cuts the version constraint off a dependency string.
pub fn dep_name(dep: &str) -> (r: String)
    ensures
        r@ == dep_base(dep@),
{
    let cs = chars_of(dep);
    let mut i: usize = 0;
    while i < cs.len() && !(cs[i] == '<' || cs[i] == '>' || cs[i] == '=' || cs[i] == ' ')
        invariant
            i <= cs.len(),
            cs@ == dep@,
            first_match_from(dep@, dep_cut(), 0) == first_match_from(dep@, dep_cut(), i as int),
        decreases cs.len() - i,
    {
        i = i + 1;
    }
    proof {
        lemma_first_match_from(dep@, dep_cut(), i as int);
    }
    let head = slice_vec(&cs, 0, i);
    assert(head@ =~= dep@.take(i as int));
    string_from(&head)
}

/// The placeholder metadata of an official package: only its name matters.
pub open spec fn official_info(name: Seq<char>, arch: Seq<char>) -> VurInfoView {
    VurInfoView {
        format_version: 0,
        pkgname: name,
        version: Seq::empty(),
        revision: 0,
        archs: seq![arch],
        subpackages: Seq::empty(),
        depends: Seq::empty(),
        hostmakedepends: Seq::empty(),
        makedepends: Seq::empty(),
        checkdepends: Seq::empty(),
        build_style: None,
        distfiles: Seq::empty(),
        checksum: Seq::empty(),
        provides: Seq::empty(),
        replaces: Seq::empty(),
        restricted: false,
        maintainer: None,
    }
}

/// Class of a candidate under `order`: 0 is preferred.
pub open spec fn class_rank<S: PackageSource>(
    src: S,
    order: CandidateOrder,
    c: (Seq<char>, VurInfoView),
) -> int {
    let has_binary = src.spec_vul_binary_available(c.0, c.1, src.spec_arch());
    match order {
        CandidateOrder::Legacy => 0,
        CandidateOrder::PreferBinary => if has_binary {
            0
        } else {
            1
        },
        CandidateOrder::PreferSource => if has_binary {
            1
        } else {
            0
        },
    }
}

/// How `a` compares to `b` among candidates (-1: `a` first): by class,
/// then newer version, then lower repo priority, then repo name.
pub open spec fn cand_order<S: PackageSource>(
    src: S,
    order: CandidateOrder,
    a: (Seq<char>, VurInfoView),
    b: (Seq<char>, VurInfoView),
) -> int {
    let ca = class_rank(src, order, a);
    let cb = class_rank(src, order, b);
    let v = version_order(b.1.version, b.1.revision, a.1.version, a.1.revision);
    let pa = src.spec_repo_priority(a.0);
    let pb = src.spec_repo_priority(b.0);
    if ca != cb {
        if ca < cb {
            -1
        } else {
            1
        }
    } else if v != 0 {
        v
    } else if pa != pb {
        if pa < pb {
            -1
        } else {
            1
        }
    } else {
        crate::version::text_order(a.0, b.0)
    }
}

/// The winner among `cands`: the first candidate that no later one beats.
pub open spec fn pick<S: PackageSource>(
    src: S,
    order: CandidateOrder,
    cands: Seq<(Seq<char>, VurInfoView)>,
) -> Option<(Seq<char>, VurInfoView)>
    decreases cands.len(),
{
    if cands.len() == 0 {
        None
    } else {
        let last = cands.last();
        match pick(src, order, cands.drop_last()) {
            None => Some(last),
            Some(best) => if cand_order(src, order, last, best) < 0 {
                Some(last)
            } else {
                Some(best)
            },
        }
    }
}

/// The candidates of `cands` built for `arch`, in order.
pub open spec fn for_arch(
    cands: Seq<(Seq<char>, VurInfoView)>,
    arch: Seq<char>,
) -> Seq<(Seq<char>, VurInfoView)>
    decreases cands.len(),
{
    if cands.len() == 0 {
        Seq::empty()
    } else {
        let rest = for_arch(cands.drop_last(), arch);
        if arch_ok(cands.last().1.archs, arch) {
            rest.push(cands.last())
        } else {
            rest
        }
    }
}

/// The VUR candidate chosen for `name`, if any.
pub open spec fn vur_candidate<S: PackageSource>(
    src: S,
    order: CandidateOrder,
    name: Seq<char>,
) -> Option<(Seq<char>, VurInfoView)> {
    let arch = src.spec_arch();
    if order == CandidateOrder::Legacy {
        let by_name = src.spec_vur_lookup(name);
        let by_provides = src.spec_vur_lookup_provides(name);
        if by_name matches Some(c) && arch_ok(c.1.archs, arch) {
            by_name
        } else if by_provides matches Some(c) && arch_ok(c.1.archs, arch) {
            by_provides
        } else {
            None
        }
    } else {
        let all = src.spec_vur_lookup_all(name);
        let cands = if all.len() == 0 {
            match src.spec_vur_lookup_provides(name) {
                Some(c) => seq![c],
                None => Seq::empty(),
            }
        } else {
            all
        };
        pick(src, order, for_arch(cands, arch))
    }
}

/// What resolution does with a name.
pub ghost enum Choice {
    /// Install the official binary.
    Official,
    /// Install the official binary although the source was preferred
    /// (there is no VUR template): a warning goes with it.
    OfficialFallback,
    /// Use this VUR candidate `(repo, info)`.
    Vur(Seq<char>, VurInfoView),
    /// Only candidates for other arches exist; the repo of one is given.
    WrongArch(Seq<char>),
    /// Nothing provides the name.
    Missing,
}

pub open spec fn choice<S: PackageSource>(src: S, opts: ResolveOptions, name: Seq<char>) -> Choice {
    if src.spec_official_exists(name) && opts.order != CandidateOrder::PreferSource {
        Choice::Official
    } else {
        match vur_candidate(src, opts.order, name) {
            Some(c) => Choice::Vur(c.0, c.1),
            None => match src.spec_vur_lookup_any_arch(name) {
                Some(c) => Choice::WrongArch(c.0),
                None => if src.spec_official_exists(name) {
                    Choice::OfficialFallback
                } else {
                    Choice::Missing
                },
            },
        }
    }
}

/// Binary from `repo` when allowed and published, else a build.
pub open spec fn vur_action<S: PackageSource>(
    src: S,
    opts: ResolveOptions,
    repo: Seq<char>,
    info: VurInfoView,
) -> ActionView {
    if !opts.force_build && opts.prefer_binary && src.spec_vul_binary_available(
        repo,
        info,
        src.spec_arch(),
    ) {
        ActionView::VulBinary(repo)
    } else {
        ActionView::Build
    }
}

/// The plan entry for `name`, when it can be planned.
pub open spec fn planned<S: PackageSource>(src: S, opts: ResolveOptions, name: Seq<char>) -> Option<
    PlanItemView,
> {
    match choice(src, opts, name) {
        Choice::Official | Choice::OfficialFallback => Some(
            PlanItemView {
                name,
                info: official_info(name, src.spec_arch()),
                action: ActionView::Official,
            },
        ),
        Choice::Vur(repo, info) => Some(
            PlanItemView { name, info, action: vur_action(src, opts, repo, info) },
        ),
        _ => None,
    }
}

/// The dependency names a build pulls in, constraints cut off.
pub open spec fn build_deps(info: VurInfoView) -> Seq<Seq<char>> {
    (info.hostmakedepends + info.makedepends + info.depends).map_values(
        |d: Seq<char>| dep_base(d),
    )
}

/// `parent` is built and needs `child`.
pub open spec fn needs<S: PackageSource>(
    src: S,
    opts: ResolveOptions,
    parent: Seq<char>,
    child: Seq<char>,
) -> bool {
    &&& planned(src, opts, parent) matches Some(it)
    &&& it.action == ActionView::Build
    &&& build_deps(it.info).contains(child)
}

/// A chain of names from a target, each needed by the one before.
pub open spec fn is_chain<S: PackageSource>(
    src: S,
    opts: ResolveOptions,
    targets: Seq<Seq<char>>,
    p: Seq<Seq<char>>,
) -> bool {
    &&& p.len() > 0
    &&& targets.contains(p[0])
    &&& forall|k: int| 0 <= k < p.len() - 1 ==> #[trigger] needs(src, opts, p[k], p[k + 1])
}

/// `name` is a target or a dependency of a build reachable from one.
pub open spec fn reachable<S: PackageSource>(
    src: S,
    opts: ResolveOptions,
    targets: Seq<Seq<char>>,
    name: Seq<char>,
) -> bool {
    exists|p: Seq<Seq<char>>| is_chain(src, opts, targets, p) && p.last() == name
}

// ------------------------------------------------------------------
// Errors
// ------------------------------------------------------------------

/// Why a resolution fails.
#[derive(Debug)]
pub enum ResolveError {
    /// A dependency chain comes back to a package still being expanded;
    /// `path` runs from that package back to itself.
    Cycle { path: Vec<String> },
    /// The package exists in a VUR only for other architectures.
    WrongArch { name: String, repo: String, arch: String },
    /// Neither the official repositories nor any VUR has the package.
    NotFound { name: String },
    /// More packages than the dependency graph can number.
    TooLarge,
}

/// What a failure shows: a reachable name that cannot be planned, or a
/// chain of needs that closes on itself.
/// The cycle a depth-first expansion meets: `st` is the chain of builds
/// being expanded, from a target, each needing the next and none twice; the
/// last of them needs `st[pos]` again, and the cycle reported runs from
/// `st[pos]` along the chain back to it.
pub open spec fn dfs_cycle<S: PackageSource>(
    src: S,
    opts: ResolveOptions,
    targets: Seq<Seq<char>>,
    st: Seq<Seq<char>>,
    pos: int,
    path: Seq<Seq<char>>,
) -> bool {
    &&& is_chain(src, opts, targets, st)
    &&& st.no_duplicates()
    &&& 0 <= pos < st.len()
    &&& needs(src, opts, st.last(), st[pos])
    &&& path == st.subrange(pos, st.len() as int).push(st[pos])
}

pub open spec fn explains<S: PackageSource>(
    src: S,
    opts: ResolveOptions,
    targets: Seq<Seq<char>>,
    e: ResolveError,
) -> bool {
    match e {
        ResolveError::Cycle { path } => {
            &&& exists|st: Seq<Seq<char>>, pos: int| #[trigger] dfs_cycle(src, opts, targets, st, pos, strs_view(path@))
            &&& path@.len() >= 2
            &&& path@[0]@ == path@.last()@
            &&& reachable(src, opts, targets, path@[0]@)
            &&& forall|k: int|
                0 <= k < path@.len() - 1 ==> #[trigger] needs(
                    src,
                    opts,
                    path@[k]@,
                    path@[k + 1]@,
                )
        },
        ResolveError::WrongArch { name, repo, arch } => {
            &&& choice(src, opts, name@) == Choice::WrongArch(repo@)
            &&& arch@ == src.spec_arch()
            &&& reachable(src, opts, targets, name@)
        },
        ResolveError::NotFound { name } => {
            &&& choice(src, opts, name@) == Choice::Missing
            &&& reachable(src, opts, targets, name@)
        },
        ResolveError::TooLarge => many_reachable(src, opts, targets),
    }
}

/// At least `0xffff_fffe` distinct names are reachable from the targets:
/// more packages than the dependency graph can number.
pub open spec fn many_reachable<S: PackageSource>(src: S, opts: ResolveOptions, targets: Seq<Seq<char>>) -> bool {
    exists|names: Seq<Seq<char>>|
        {
            &&& names.len() >= 0xffff_fffe
            &&& names.no_duplicates()
            &&& forall|k: int| 0 <= k < names.len() ==> #[trigger] reachable(src, opts, targets, names[k])
        }
}

impl ResolveError {
    /// The error message.
    pub fn message(&self) -> (r: String)
        ensures
            self matches ResolveError::Cycle { path } ==> r@ == "ciclo de dependencias detectado: "@
                + crate::text::join(crate::text::string_views(path@), " -> "@),
            self matches ResolveError::WrongArch { name, repo, arch } ==> r@ == "el paquete '"@ + name@
                + "' existe en VUR(s) "@ + repo@ + " pero no está disponible para tu arquitectura '"@ + arch@
                + "'"@,
            self matches ResolveError::NotFound { name } ==> r@
                == "paquete no encontrado en repos oficiales ni VURs: "@ + name@,
            self is TooLarge ==> r@ == "demasiados paquetes para el grafo de dependencias"@,
    {
        match self {
            ResolveError::Cycle { path } => {
                let j = crate::text::join_strings(path, " -> ");
                crate::text::concat("ciclo de dependencias detectado: ", j.as_str())
            },
            ResolveError::WrongArch { name, repo, arch } => {
                let mut s = String::new();
                push_str(&mut s, "el paquete '");
                push_str(&mut s, name.as_str());
                push_str(&mut s, "' existe en VUR(s) ");
                push_str(&mut s, repo.as_str());
                push_str(&mut s, " pero no está disponible para tu arquitectura '");
                push_str(&mut s, arch.as_str());
                push_str(&mut s, "'");
                s
            },
            ResolveError::NotFound { name } => {
                let mut s = String::new();
                push_str(&mut s, "paquete no encontrado en repos oficiales ni VURs: ");
                push_str(&mut s, name.as_str());
                s
            },
            ResolveError::TooLarge => "demasiados paquetes para el grafo de dependencias".to_string(),
        }
    }
}

// ------------------------------------------------------------------
// Resolution state
// ------------------------------------------------------------------

/// The state of one resolution.
struct Ctx {
    arch: String,
    /// Every planned package, in the order first reached.
    items: Vec<PlanItem>,
    /// Edges run from a dependency to the build that needs it; node ids
    /// are indices into `items`.
    graph: GraphMap<u32, (), Directed, RandomState>,
    /// Names of the builds being expanded, outermost first.
    stack: Vec<String>,
    /// Item index of each stack entry.
    stack_idx: Ghost<Seq<int>>,
    /// Stack position of each item still being expanded.
    spos: Ghost<Seq<int>>,
    /// Whether each item is finished (its dependencies planned).
    done: Ghost<Seq<bool>>,
    /// Order in which items finished.
    rank: Ghost<Seq<int>>,
    counter: Ghost<int>,
    /// The item that first needed each item, or -1 for a target.
    parent: Ghost<Seq<int>>,
    /// Name to item index.
    index: Ghost<Map<Seq<char>, int>>,
}

impl Ctx {
    spec fn n(&self) -> int {
        self.items@.len() as int
    }

    spec fn nm(&self, i: int) -> Seq<char> {
        self.items@[i].name@
    }

    spec fn edges(&self) -> Set<(u32, u32)> {
        graph_edges(self.graph)
    }

    spec fn wf<S: PackageSource>(&self, src: S, opts: ResolveOptions, targets: Seq<Seq<char>>) -> bool {
        let n = self.n();
        &&& self.arch@ == src.spec_arch()
        &&& n < u32::MAX
        &&& forall|x: u32| #[trigger] graph_nodes(self.graph).contains(x) <==> x < n
        &&& self.done@.len() == n
        &&& self.rank@.len() == n
        &&& self.parent@.len() == n
        &&& self.spos@.len() == n
        // names are unique and indexed
        &&& forall|i: int| 0 <= i < n ==> #[trigger] self.index@.contains_key(self.nm(i))
            && self.index@[self.nm(i)] == i
        &&& forall|k: Seq<char>| #[trigger] self.index@.contains_key(k) ==> 0 <= self.index@[k] < n
            && self.nm(self.index@[k]) == k
        // every item is what the source decides for its name
        &&& forall|i: int| 0 <= i < n ==> planned(src, opts, #[trigger] self.nm(i)) == Some(
            self.items@[i]@,
        )
        // the stack: unfinished builds, a chain from a target
        &&& self.stack_idx@.len() == self.stack@.len()
        &&& forall|k: int|
            0 <= k < self.stack@.len() ==> 0 <= #[trigger] self.stack_idx@[k] < n && self.nm(
                self.stack_idx@[k],
            ) == self.stack@[k]@ && !self.done@[self.stack_idx@[k]] && self.spos@[self.stack_idx@[k]]
                == k
        &&& forall|i: int|
            0 <= i < n && !#[trigger] self.done@[i] ==> 0 <= self.spos@[i] < self.stack@.len()
                && self.stack_idx@[self.spos@[i]] == i && self.items@[i]@.action
                == ActionView::Build
        &&& self.stack@.len() > 0 ==> targets.contains(self.stack@[0]@)
        &&& forall|k: int|
            0 <= k < self.stack@.len() - 1 ==> #[trigger] needs(
                src,
                opts,
                self.stack@[k]@,
                self.stack@[k + 1]@,
            )
        // edges: a dependency finishes before the build needing it
        &&& forall|a: u32, b: u32|
            #[trigger] self.edges().contains((a, b)) ==> {
                &&& a < n
                &&& b < n
                &&& needs(src, opts, self.nm(b as int), self.nm(a as int))
                &&& self.done@[a as int] || (!self.done@[b as int] && self.spos@[a as int]
                    > self.spos@[b as int])
                &&& self.done@[b as int] ==> self.done@[a as int] && self.rank@[a as int]
                    < self.rank@[b as int]
            }
        // a finished build has an edge from each of its dependencies
        &&& forall|i: int, d: Seq<char>|
            0 <= i < n && self.done@[i] && self.items@[i]@.action == ActionView::Build
                && #[trigger] build_deps(self.items@[i]@.info).contains(d) ==> {
                &&& self.index@.contains_key(d)
                &&& self.edges().contains(((self.index@[d]) as u32, i as u32))
            }
        &&& forall|i: int| 0 <= i < n && self.done@[i] ==> #[trigger] self.rank@[i] < self.counter@
        // every item is a target or needed by another item
        &&& forall|i: int|
            0 <= i < n ==> {
                let p = #[trigger] self.parent@[i];
                &&& p == -1 ==> targets.contains(self.nm(i))
                &&& p != -1 ==> 0 <= p < i && needs(src, opts, self.nm(p), self.nm(i))
            }
    }
}

impl Ctx {
    /// `later` extends `self`: same stack, items and edges kept, finished
    /// items stay finished with their rank.
    spec fn grows_to(&self, later: &Ctx) -> bool {
        &&& self.n() <= later.n()
        &&& forall|i: int| 0 <= i < self.n() ==> #[trigger] later.items@[i]@ == self.items@[i]@
        &&& later.stack@ == self.stack@
        &&& later.stack_idx@ == self.stack_idx@
        &&& forall|i: int|
            0 <= i < self.n() && #[trigger] self.done@[i] ==> later.done@[i] && later.rank@[i]
                == self.rank@[i]
        &&& self.counter@ <= later.counter@
        &&& forall|e: (u32, u32)| #[trigger] self.edges().contains(e) ==> later.edges().contains(e)
    }

    proof fn lemma_grows_trans(&self, b: &Ctx, c: &Ctx)
        requires
            self.grows_to(b),
            b.grows_to(c),
        ensures
            self.grows_to(c),
    {
        assert forall|i: int| 0 <= i < self.n() implies #[trigger] c.items@[i]@ == self.items@[i]@ by {
            assert(b.items@[i]@ == self.items@[i]@);
        }
        assert forall|i: int| 0 <= i < self.n() && #[trigger] self.done@[i] implies c.done@[i]
            && c.rank@[i] == self.rank@[i] by {
            assert(b.done@[i]);
        }
    }

    fn new<S: PackageSource>(
        src: &S,
        Ghost(opts): Ghost<ResolveOptions>,
        Ghost(targets): Ghost<Seq<Seq<char>>>,
    ) -> (c: Ctx)
        ensures
            c.wf(*src, opts, targets),
            c.n() == 0,
            c.stack@.len() == 0,
    {
        let arch = src.arch();
        Ctx {
            arch,
            items: Vec::new(),
            graph: graph_new(),
            stack: Vec::new(),
            stack_idx: Ghost(Seq::empty()),
            spos: Ghost(Seq::empty()),
            done: Ghost(Seq::empty()),
            rank: Ghost(Seq::empty()),
            counter: Ghost(0),
            parent: Ghost(Seq::empty()),
            index: Ghost(Map::empty()),
        }
    }

    /// Index of the item named `name`.
    fn find_item<S: PackageSource>(
        &self,
        name: &String,
        Ghost(src): Ghost<S>,
        Ghost(opts): Ghost<ResolveOptions>,
        Ghost(targets): Ghost<Seq<Seq<char>>>,
    ) -> (r: Option<usize>)
        requires
            self.wf(src, opts, targets),
        ensures
            r matches Some(i) ==> i < self.n() && self.nm(i as int) == name@,
            r is None ==> !self.index@.contains_key(name@),
    {
        let mut i: usize = 0;
        while i < self.items.len()
            invariant
                i <= self.items@.len(),
                self.wf(src, opts, targets),
                forall|j: int| 0 <= j < i ==> self.nm(j) != name@,
            decreases self.items@.len() - i,
        {
            if self.items[i].name == *name {
                return Some(i);
            }
            i = i + 1;
        }
        proof {
            if self.index@.contains_key(name@) {
                let j = self.index@[name@];
                assert(self.nm(j) == name@);
            }
        }
        None
    }

    /// First stack position holding `name`.
    fn stack_position(&self, name: &String) -> (r: Option<usize>)
        ensures
            r matches Some(k) ==> k < self.stack@.len() && self.stack@[k as int]@ == name@,
            r is None ==> forall|k: int| 0 <= k < self.stack@.len() ==> self.stack@[k]@ != name@,
    {
        let mut k: usize = 0;
        while k < self.stack.len()
            invariant
                k <= self.stack@.len(),
                forall|j: int| 0 <= j < k ==> self.stack@[j]@ != name@,
            decreases self.stack@.len() - k,
        {
            if self.stack[k] == *name {
                return Some(k);
            }
            k = k + 1;
        }
        None
    }
}

impl Ctx {
    /// What a new item needs from the caller: it is planned as the source
    /// decides, not planned yet, and needed by the build on top of the
    /// stack (or a target when the stack is empty).
    spec fn may_add<S: PackageSource>(
        &self,
        src: S,
        opts: ResolveOptions,
        targets: Seq<Seq<char>>,
        name: Seq<char>,
        dependent: Option<u32>,
    ) -> bool {
        match dependent {
            Some(p) => {
                &&& self.stack@.len() > 0
                &&& self.stack_idx@.last() == p as int
                &&& needs(src, opts, self.nm(p as int), name)
            },
            None => self.stack@.len() == 0 && targets.contains(name),
        }
    }

    /// Adds an item: a node, the edge to the build needing it, and, for a
    /// build, a stack entry while its dependencies are expanded.
    fn register<S: PackageSource>(
        &mut self,
        item: PlanItem,
        dependent: Option<u32>,
        Ghost(src): Ghost<S>,
        Ghost(opts): Ghost<ResolveOptions>,
        Ghost(targets): Ghost<Seq<Seq<char>>>,
    ) -> (r: Result<u32, ResolveError>)
        requires
            old(self).wf(src, opts, targets),
            !old(self).index@.contains_key(item.name@),
            planned(src, opts, item.name@) == Some(item@),
            old(self).may_add(src, opts, targets, item.name@, dependent),
        ensures
            r matches Err(e) ==> e is TooLarge && many_reachable(src, opts, targets),
            r matches Ok(idx) ==> {
                &&& idx == old(self).n()
                &&& final(self).n() == old(self).n() + 1
                &&& final(self).wf(src, opts, targets)
                &&& final(self).items@[idx as int]@ == item@
                &&& forall|i: int| 0 <= i < old(self).n() ==> #[trigger] final(self).items@[i]@
                    == old(self).items@[i]@
                &&& forall|i: int|
                    0 <= i < old(self).n() && #[trigger] old(self).done@[i] ==> final(self).done@[i] && final(self).rank@[i] == old(self).rank@[i]
                &&& old(self).counter@ <= final(self).counter@
                &&& forall|e: (u32, u32)| #[trigger] old(self).edges().contains(e) ==> final(self).edges().contains(e)
                &&& dependent matches Some(p) ==> final(self).edges().contains((idx, p))
                &&& item@.action == ActionView::Build ==> {
                    &&& final(self).stack@ == old(self).stack@.push(item.name)
                    &&& final(self).stack_idx@ == old(self).stack_idx@.push(idx as int)
                }
                &&& item@.action != ActionView::Build ==> {
                    &&& final(self).stack@ == old(self).stack@
                    &&& final(self).stack_idx@ == old(self).stack_idx@
                    &&& final(self).done@[idx as int]
                }
            },
    {
        let n = self.items.len();
        if n >= 0xffff_fffeusize {
            proof {
                self.lemma_many_items(src, opts, targets);
            }
            return Err(ResolveError::TooLarge);
        }
        let idx: u32 = n as u32;
        let is_build = match item.action {
            Action::Build => true,
            _ => false,
        };
        let name = item.name.clone();
        let ghost old_self = *self;
        let ghost g_parent: int = match dependent {
            Some(p) => p as int,
            None => -1,
        };
        self.items.push(item);
        graph_add_node(&mut self.graph, idx);
        match dependent {
            Some(p) => {
                graph_add_edge(&mut self.graph, idx, p);
            },
            None => {},
        }
        proof {
            self.parent@ = self.parent@.push(g_parent);
            self.index@ = self.index@.insert(name@, n as int);
            if is_build {
                self.done@ = self.done@.push(false);
                self.rank@ = self.rank@.push(0);
                self.spos@ = self.spos@.push(old_self.stack@.len() as int);
            } else {
                self.done@ = self.done@.push(true);
                self.rank@ = self.rank@.push(self.counter@);
                self.spos@ = self.spos@.push(0);
                self.counter@ = self.counter@ + 1;
            }
        }
        if is_build {
            self.stack.push(name);
            proof {
                self.stack_idx@ = self.stack_idx@.push(n as int);
            }
        }
        proof {
            assert(self.nm(n as int) == name@);
            assert forall|i: int| 0 <= i < old_self.n() implies #[trigger] self.items@[i]@
                == old_self.items@[i]@ && self.nm(i) == old_self.nm(i) by {}
            assert forall|a: u32, b: u32| #[trigger] self.edges().contains((a, b)) implies {
                &&& a < self.n()
                &&& b < self.n()
                &&& needs(src, opts, self.nm(b as int), self.nm(a as int))
                &&& self.done@[a as int] || (!self.done@[b as int] && self.spos@[a as int]
                    > self.spos@[b as int])
                &&& self.done@[b as int] ==> self.done@[a as int] && self.rank@[a as int]
                    < self.rank@[b as int]
            } by {
                if old_self.edges().contains((a, b)) {
                } else {
                    let p = dependent->0;
                    assert(a == idx && b == p);
                    assert(old_self.stack_idx@[old_self.stack@.len() - 1] == p as int);
                }
            }
            assert forall|i: int, d: Seq<char>|
                0 <= i < self.n() && self.done@[i] && self.items@[i]@.action == ActionView::Build
                    && #[trigger] build_deps(self.items@[i]@.info).contains(d) implies {
                &&& self.index@.contains_key(d)
                &&& self.edges().contains(((self.index@[d]) as u32, i as u32))
            } by {
                assert(i < old_self.n());
                assert(old_self.index@.contains_key(d));
            }
            assert forall|k: Seq<char>| #[trigger] self.index@.contains_key(k) implies 0
                <= self.index@[k] < self.n() && self.nm(self.index@[k]) == k by {
                if k != name@ {
                    assert(old_self.index@.contains_key(k));
                }
            }
            assert forall|i: int| 0 <= i < self.n() implies #[trigger] self.index@.contains_key(
                self.nm(i),
            ) && self.index@[self.nm(i)] == i by {
                if i < old_self.n() {
                    assert(old_self.index@.contains_key(old_self.nm(i)));
                    assert(old_self.nm(i) != name@);
                }
            }
            assert forall|k: int|
                0 <= k < self.stack@.len() - 1 implies #[trigger] needs(
                src,
                opts,
                self.stack@[k]@,
                self.stack@[k + 1]@,
            ) by {
                if is_build && k == self.stack@.len() - 2 {
                    let p = dependent->0;
                    assert(old_self.stack_idx@[old_self.stack@.len() - 1] == p as int);
                } else {
                    assert(needs(src, opts, old_self.stack@[k]@, old_self.stack@[k + 1]@));
                }
            }
            assert forall|i: int|
                0 <= i < self.n() && !#[trigger] self.done@[i] implies 0 <= self.spos@[i]
                < self.stack@.len() && self.stack_idx@[self.spos@[i]] == i && self.items@[i]@.action
                == ActionView::Build by {
                if i < old_self.n() {
                    assert(!old_self.done@[i]);
                }
            }
            assert forall|i: int| 0 <= i < self.n() implies {
                let p = #[trigger] self.parent@[i];
                &&& p == -1 ==> targets.contains(self.nm(i))
                &&& p != -1 ==> 0 <= p < i && needs(src, opts, self.nm(p), self.nm(i))
            } by {
                if i < old_self.n() {
                    assert(old_self.parent@[i] == self.parent@[i]);
                }
            }
        }
        Ok(idx)
    }
}

impl Ctx {
    /// Records that the build `p` needs the finished item `idx`.
    fn link<S: PackageSource>(
        &mut self,
        idx: u32,
        p: u32,
        Ghost(src): Ghost<S>,
        Ghost(opts): Ghost<ResolveOptions>,
        Ghost(targets): Ghost<Seq<Seq<char>>>,
    )
        requires
            old(self).wf(src, opts, targets),
            idx < old(self).n(),
            old(self).done@[idx as int],
            old(self).may_add(src, opts, targets, old(self).nm(idx as int), Some(p)),
        ensures
            final(self).wf(src, opts, targets),
            old(self).grows_to(final(self)),
            final(self).n() == old(self).n(),
            final(self).done@ == old(self).done@,
            final(self).edges().contains((idx, p)),
    {
        let ghost old_self = *self;
        graph_add_edge(&mut self.graph, idx, p);
        proof {
            assert(old_self.stack_idx@[old_self.stack@.len() - 1] == p as int);
            assert forall|i: int| 0 <= i < self.n() implies #[trigger] self.nm(i) == old_self.nm(i)
                && self.items@[i]@ == old_self.items@[i]@ by {}
            assert forall|a: u32, b: u32| #[trigger] self.edges().contains((a, b)) implies {
                &&& a < self.n()
                &&& b < self.n()
                &&& needs(src, opts, self.nm(b as int), self.nm(a as int))
                &&& self.done@[a as int] || (!self.done@[b as int] && self.spos@[a as int]
                    > self.spos@[b as int])
                &&& self.done@[b as int] ==> self.done@[a as int] && self.rank@[a as int]
                    < self.rank@[b as int]
            } by {
                if old_self.edges().contains((a, b)) {
                } else {
                    assert(a == idx && b == p);
                }
            }
            assert forall|i: int, d: Seq<char>|
                0 <= i < self.n() && self.done@[i] && self.items@[i]@.action == ActionView::Build
                    && #[trigger] build_deps(self.items@[i]@.info).contains(d) implies {
                &&& self.index@.contains_key(d)
                &&& self.edges().contains(((self.index@[d]) as u32, i as u32))
            } by {
                assert(old_self.index@.contains_key(d));
            }
        }
    }

    /// The build on top of the stack has all its dependencies planned:
    /// it is finished and leaves the stack.
    fn finish_build<S: PackageSource>(
        &mut self,
        Ghost(src): Ghost<S>,
        Ghost(opts): Ghost<ResolveOptions>,
        Ghost(targets): Ghost<Seq<Seq<char>>>,
    )
        requires
            old(self).wf(src, opts, targets),
            old(self).stack@.len() > 0,
            ({
                let top = old(self).stack_idx@.last();
                forall|d: Seq<char>|
                    #[trigger] build_deps(old(self).items@[top]@.info).contains(d) ==> {
                        &&& old(self).index@.contains_key(d)
                        &&& old(self).edges().contains(
                            ((old(self).index@[d]) as u32, top as u32),
                        )
                    }
            }),
        ensures
            final(self).wf(src, opts, targets),
            final(self).n() == old(self).n(),
            final(self).stack@ == old(self).stack@.drop_last(),
            final(self).stack_idx@ == old(self).stack_idx@.drop_last(),
            final(self).done@[old(self).stack_idx@.last()],
            forall|i: int| 0 <= i < old(self).n() ==> #[trigger] final(self).items@[i]@
                == old(self).items@[i]@,
            forall|i: int|
                0 <= i < old(self).n() && #[trigger] old(self).done@[i] ==> final(self).done@[i]
                    && final(self).rank@[i] == old(self).rank@[i],
            old(self).counter@ <= final(self).counter@,
            final(self).edges() == old(self).edges(),
    {
        let ghost old_self = *self;
        let ghost top = self.stack_idx@.last();
        self.stack.pop();
        proof {
            assert forall|i: int| 0 <= i < self.n() implies #[trigger] self.index@.contains_key(
                self.nm(i),
            ) && self.index@[self.nm(i)] == i by {
                assert(old_self.index@.contains_key(old_self.nm(i)));
            }
            assert forall|i: int| 0 <= i < self.n() implies planned(src, opts, #[trigger] self.nm(i))
                == Some(self.items@[i]@) by {
                assert(planned(src, opts, old_self.nm(i)) == Some(old_self.items@[i]@));
            }
            assert(old_self.spos@[top] == old_self.stack@.len() - 1);
            self.stack_idx@ = self.stack_idx@.drop_last();
            self.done@ = self.done@.update(top, true);
            self.rank@ = self.rank@.update(top, self.counter@);
            self.counter@ = self.counter@ + 1;
            assert forall|a: u32, b: u32| #[trigger] self.edges().contains((a, b)) implies {
                &&& a < self.n()
                &&& b < self.n()
                &&& needs(src, opts, self.nm(b as int), self.nm(a as int))
                &&& self.done@[a as int] || (!self.done@[b as int] && self.spos@[a as int]
                    > self.spos@[b as int])
                &&& self.done@[b as int] ==> self.done@[a as int] && self.rank@[a as int]
                    < self.rank@[b as int]
            } by {
                assert(old_self.edges().contains((a, b)));
                if a as int == top {
                    if !old_self.done@[b as int] {
                        assert(old_self.spos@[a as int] > old_self.spos@[b as int]);
                        assert(old_self.spos@[b as int] < old_self.stack@.len());
                        assert(old_self.stack_idx@[old_self.spos@[b as int]] == b as int);
                    }
                }
                if b as int == top {
                    if !old_self.done@[a as int] {
                        assert(old_self.spos@[a as int] < old_self.stack@.len());
                    }
                }
            }
            assert forall|k: int|
                0 <= k < self.stack@.len() implies 0 <= #[trigger] self.stack_idx@[k] < self.n()
                && self.nm(self.stack_idx@[k]) == self.stack@[k]@ && !self.done@[self.stack_idx@[k]]
                && self.spos@[self.stack_idx@[k]] == k by {
                assert(old_self.stack_idx@[k] != top) by {
                    assert(old_self.spos@[old_self.stack_idx@[k]] == k);
                }
            }
            assert forall|i: int|
                0 <= i < self.n() && !#[trigger] self.done@[i] implies 0 <= self.spos@[i]
                < self.stack@.len() && self.stack_idx@[self.spos@[i]] == i && self.items@[i]@.action
                == ActionView::Build by {
                assert(!old_self.done@[i]);
                assert(i != top);
                if old_self.spos@[i] == old_self.stack@.len() - 1 {
                    assert(old_self.stack_idx@[old_self.spos@[i]] == i);
                }
            }
            assert forall|k: int|
                0 <= k < self.stack@.len() - 1 implies #[trigger] needs(
                src,
                opts,
                self.stack@[k]@,
                self.stack@[k + 1]@,
            ) by {
                assert(needs(src, opts, old_self.stack@[k]@, old_self.stack@[k + 1]@));
            }
            assert forall|i: int| 0 <= i < self.n() implies #[trigger] self.index@.contains_key(
                self.nm(i),
            ) && self.index@[self.nm(i)] == i by {
                assert(old_self.index@.contains_key(old_self.nm(i)));
            }
            assert forall|i: int| 0 <= i < self.n() implies planned(src, opts, #[trigger] self.nm(i))
                == Some(self.items@[i]@) by {
                assert(planned(src, opts, old_self.nm(i)) == Some(old_self.items@[i]@));
            }
            assert(self.wf(src, opts, targets));
        }
    }
}

// ------------------------------------------------------------------
// Choosing a candidate
// ------------------------------------------------------------------

fn clone_cand(c: &(String, VurInfo)) -> (r: (String, VurInfo))
    ensures
        cand_view(r) == cand_view(*c),
{
    (c.0.clone(), c.1.clone())
}

/// The official entry for `name`.
fn official_item(name: &str, arch: &str) -> (r: PlanItem)
    ensures
        r@ == (PlanItemView {
            name: name@,
            info: official_info(name@, arch@),
            action: ActionView::Official,
        }),
{
    let info = VurInfo {
        format_version: 0,
        pkgname: name.to_owned(),
        version: String::new(),
        revision: 0,
        archs: vec![arch.to_owned()],
        subpackages: Vec::new(),
        depends: Vec::new(),
        hostmakedepends: Vec::new(),
        makedepends: Vec::new(),
        checkdepends: Vec::new(),
        build_style: None,
        distfiles: Vec::new(),
        checksum: Vec::new(),
        provides: Vec::new(),
        replaces: Vec::new(),
        restricted: false,
        maintainer: None,
    };
    proof {
        assert(strs_view(info.archs@) =~= seq![arch@]);
        assert(info.subpackages@.map_values(|s: crate::metadata::Subpackage| s@) =~= Seq::empty());
        assert(strs_view(info.depends@) =~= Seq::empty());
        assert(strs_view(info.hostmakedepends@) =~= Seq::empty());
        assert(strs_view(info.makedepends@) =~= Seq::empty());
        assert(strs_view(info.checkdepends@) =~= Seq::empty());
        assert(strs_view(info.distfiles@) =~= Seq::empty());
        assert(strs_view(info.checksum@) =~= Seq::empty());
        assert(strs_view(info.provides@) =~= Seq::empty());
        assert(strs_view(info.replaces@) =~= Seq::empty());
    }
    PlanItem { name: name.to_owned(), info, action: Action::Install(BinarySource::Official) }
}

/// The candidates built for `arch`, in order.
fn supported_for_arch(cands: &Vec<(String, VurInfo)>, arch: &str) -> (r: Vec<(String, VurInfo)>)
    ensures
        cands_view(r@) == for_arch(cands_view(cands@), arch@),
{
    let mut r: Vec<(String, VurInfo)> = Vec::new();
    let mut i: usize = 0;
    while i < cands.len()
        invariant
            i <= cands@.len(),
            cands_view(r@) == for_arch(cands_view(cands@).take(i as int), arch@),
        decreases cands@.len() - i,
    {
        proof {
            let t = cands_view(cands@).take(i as int + 1);
            assert(t.drop_last() =~= cands_view(cands@).take(i as int));
            assert(t.last() == cand_view(cands@[i as int]));
        }
        if arch_supports(&cands[i].1.archs, arch) {
            let c = clone_cand(&cands[i]);
            let ghost old_r = r@;
            r.push(c);
            assert(cands_view(r@) =~= cands_view(old_r).push(cand_view(c)));
        }
        i = i + 1;
    }
    assert(cands_view(cands@).take(cands@.len() as int) =~= cands_view(cands@));
    r
}

/// How candidate `a` compares to `b` (-1: `a` first).
fn cand_order_exec<S: PackageSource>(
    src: &S,
    order: CandidateOrder,
    arch: &str,
    a: &(String, VurInfo),
    b: &(String, VurInfo),
) -> (r: i8)
    requires
        arch@ == src.spec_arch(),
    ensures
        r == cand_order(*src, order, cand_view(*a), cand_view(*b)),
{
    let ba = src.vul_binary_available(a.0.as_str(), &a.1, arch);
    let bb = src.vul_binary_available(b.0.as_str(), &b.1, arch);
    let (ca, cb): (u8, u8) = match order {
        CandidateOrder::Legacy => (0, 0),
        CandidateOrder::PreferBinary => (if ba {
            0
        } else {
            1
        }, if bb {
            0
        } else {
            1
        }),
        CandidateOrder::PreferSource => (if ba {
            1
        } else {
            0
        }, if bb {
            1
        } else {
            0
        }),
    };
    if ca != cb {
        return if ca < cb {
            -1
        } else {
            1
        };
    }
    let v = version_order_exec(b.1.version.as_str(), b.1.revision, a.1.version.as_str(), a.1.revision);
    if v != 0 {
        return v;
    }
    let pa = src.repo_priority(a.0.as_str());
    let pb = src.repo_priority(b.0.as_str());
    if pa != pb {
        return if pa < pb {
            -1
        } else {
            1
        };
    }
    let ra = chars_of(a.0.as_str());
    let rb = chars_of(b.0.as_str());
    crate::version::text_order_exec(&ra, &rb)
}

/// The winner among `cands` (see [`pick`]).
fn pick_ordered<S: PackageSource>(
    src: &S,
    order: CandidateOrder,
    arch: &str,
    cands: &Vec<(String, VurInfo)>,
) -> (r: Option<(String, VurInfo)>)
    requires
        arch@ == src.spec_arch(),
    ensures
        opt_cand_view(r) == pick(*src, order, cands_view(cands@)),
{
    let mut best: Option<usize> = None;
    let mut i: usize = 0;
    while i < cands.len()
        invariant
            i <= cands@.len(),
            arch@ == src.spec_arch(),
            best matches Some(b) ==> b < i,
            (match best {
                Some(b) => Some(cand_view(cands@[b as int])),
                None => None,
            }) == pick(*src, order, cands_view(cands@).take(i as int)),
        decreases cands@.len() - i,
    {
        proof {
            let t = cands_view(cands@).take(i as int + 1);
            assert(t.drop_last() =~= cands_view(cands@).take(i as int));
            assert(t.last() == cand_view(cands@[i as int]));
        }
        match best {
            None => {
                best = Some(i);
            },
            Some(b) => {
                if cand_order_exec(src, order, arch, &cands[i], &cands[b]) < 0 {
                    best = Some(i);
                }
            },
        }
        i = i + 1;
    }
    assert(cands_view(cands@).take(cands@.len() as int) =~= cands_view(cands@));
    match best {
        Some(b) => Some(clone_cand(&cands[b])),
        None => None,
    }
}

/// The VUR candidate for `name` (see [`vur_candidate`]).
fn lookup_candidate<S: PackageSource>(
    src: &S,
    order: CandidateOrder,
    arch: &str,
    name: &str,
) -> (r: Option<(String, VurInfo)>)
    requires
        arch@ == src.spec_arch(),
    ensures
        opt_cand_view(r) == vur_candidate(*src, order, name@),
{
    match order {
        CandidateOrder::Legacy => {
            match src.vur_lookup(name) {
                Some(found) => {
                    if arch_supports(&found.1.archs, arch) {
                        return Some(found);
                    }
                },
                None => {},
            }
            match src.vur_lookup_provides(name) {
                Some(found) => {
                    if arch_supports(&found.1.archs, arch) {
                        return Some(found);
                    }
                },
                None => {},
            }
            None
        },
        _ => {
            let mut cands = src.vur_lookup_all(name);
            if cands.len() == 0 {
                match src.vur_lookup_provides(name) {
                    Some(found) => {
                        cands = vec![found];
                        proof {
                            assert(cands_view(cands@) =~= seq![cand_view(found)]);
                        }
                    },
                    None => {
                        proof {
                            assert(cands_view(cands@) =~= Seq::empty());
                        }
                    },
                }
            }
            let supported = supported_for_arch(&cands, arch);
            pick_ordered(src, order, arch, &supported)
        },
    }
}

// ------------------------------------------------------------------
// Expansion
// ------------------------------------------------------------------

/// The raw dependency strings a build pulls in, in declaration order.
pub open spec fn raw_deps(info: VurInfoView) -> Seq<Seq<char>> {
    info.hostmakedepends + info.makedepends + info.depends
}

/// Appends the strings of `list` not yet in `out`.
fn add_unique(out: &mut Vec<String>, list: &Vec<String>)
    requires
        strs_view(old(out)@).no_duplicates(),
    ensures
        strs_view(final(out)@).no_duplicates(),
        forall|x: Seq<char>| #[trigger] strs_view(final(out)@).contains(x) <==> (strs_view(
            old(out)@,
        ).contains(x) || strs_view(list@).contains(x)),
{
    let ghost start = strs_view(out@);
    let mut i: usize = 0;
    while i < list.len()
        invariant
            i <= list@.len(),
            strs_view(out@).no_duplicates(),
            forall|x: Seq<char>| #[trigger] strs_view(out@).contains(x) <==> (start.contains(x)
                || strs_view(list@).take(i as int).contains(x)),
        decreases list@.len() - i,
    {
        let mut j: usize = 0;
        let mut seen = false;
        while j < out.len()
            invariant
                i < list@.len(),
                j <= out@.len(),
                seen ==> strs_view(out@).contains(list@[i as int]@),
                !seen ==> forall|q: int| 0 <= q < j ==> out@[q]@ != list@[i as int]@,
            decreases out@.len() - j,
        {
            if out[j] == list[i] {
                seen = true;
                assert(strs_view(out@)[j as int] == list@[i as int]@);
            }
            j = j + 1;
        }
        proof {
            assert(strs_view(list@).take(i as int + 1) =~= strs_view(list@).take(i as int).push(
                list@[i as int]@,
            ));
        }
        let ghost before = strs_view(out@);
        let ghost item = list@[i as int]@;
        let ghost prev = strs_view(list@).take(i as int);
        if !seen {
            out.push(list[i].clone());
            proof {
                assert(strs_view(out@) =~= before.push(item));
                assert(!before.contains(item)) by {
                    if before.contains(item) {
                        let q = choose|q: int| 0 <= q < before.len() && before[q] == item;
                        assert(out@[q]@ == before[q]);
                    }
                }
                assert forall|x: Seq<char>| #[trigger] strs_view(out@).contains(x) <==> (start.contains(x)
                    || prev.push(item).contains(x)) by {
                    if strs_view(out@).contains(x) && x != item {
                        let q = choose|q: int| 0 <= q < strs_view(out@).len() && strs_view(out@)[q] == x;
                        assert(before[q] == x);
                    }
                    if prev.push(item).contains(x) && x != item {
                        let q = choose|q: int| 0 <= q < prev.push(item).len() && prev.push(item)[q] == x;
                        assert(prev[q] == x);
                    }
                    if before.contains(x) {
                        let q = choose|q: int| 0 <= q < before.len() && before[q] == x;
                        assert(strs_view(out@)[q] == x);
                    }
                    if prev.contains(x) {
                        let q = choose|q: int| 0 <= q < prev.len() && prev[q] == x;
                        assert(prev.push(item)[q] == x);
                    }
                    if x == item {
                        assert(strs_view(out@)[before.len() as int] == x);
                        assert(prev.push(item)[prev.len() as int] == x);
                    }
                }
            }
        } else {
            proof {
                assert forall|x: Seq<char>| #[trigger] strs_view(out@).contains(x) <==> (start.contains(x)
                    || prev.push(item).contains(x)) by {
                    if prev.push(item).contains(x) && x != item {
                        let q = choose|q: int| 0 <= q < prev.push(item).len() && prev.push(item)[q] == x;
                        assert(prev[q] == x);
                    }
                    if prev.contains(x) {
                        let q = choose|q: int| 0 <= q < prev.len() && prev[q] == x;
                        assert(prev.push(item)[q] == x);
                    }
                    if x == item {
                        assert(prev.push(item)[prev.len() as int] == x);
                    }
                }
            }
        }
        i = i + 1;
    }
    proof {
        assert(strs_view(list@).take(list@.len() as int) =~= strs_view(list@));
    }
}

/// The dependency strings of a build, duplicates dropped.
fn collect_deps(info: &VurInfo) -> (r: Vec<String>)
    ensures
        forall|x: Seq<char>| #[trigger] strs_view(r@).contains(x) <==> raw_deps(info@).contains(x),
{
    let mut r: Vec<String> = Vec::new();
    assert(strs_view(r@) =~= Seq::empty());
    add_unique(&mut r, &info.hostmakedepends);
    add_unique(&mut r, &info.makedepends);
    add_unique(&mut r, &info.depends);
    proof {
        let a = info@.hostmakedepends;
        let b = info@.makedepends;
        let c = info@.depends;
        assert forall|x: Seq<char>| #[trigger] (a + b + c).contains(x) <==> (a.contains(x)
            || b.contains(x) || c.contains(x)) by {
            if (a + b + c).contains(x) {
                let q = choose|q: int| 0 <= q < (a + b + c).len() && (a + b + c)[q] == x;
                if q < a.len() {
                    assert(a[q] == x);
                } else if q < a.len() + b.len() {
                    assert(b[q - a.len()] == x);
                } else {
                    assert(c[q - a.len() - b.len()] == x);
                }
            }
            if a.contains(x) {
                let q = choose|q: int| 0 <= q < a.len() && a[q] == x;
                assert((a + b + c)[q] == x);
            }
            if b.contains(x) {
                let q = choose|q: int| 0 <= q < b.len() && b[q] == x;
                assert((a + b + c)[a.len() + q] == x);
            }
            if c.contains(x) {
                let q = choose|q: int| 0 <= q < c.len() && c[q] == x;
                assert((a + b + c)[a.len() + b.len() + q] == x);
            }
        }
    }
    r
}

impl Ctx {
    /// Every planned item is reachable from a target.
    proof fn lemma_item_reachable<S: PackageSource>(
        &self,
        src: S,
        opts: ResolveOptions,
        targets: Seq<Seq<char>>,
        i: int,
    )
        requires
            self.wf(src, opts, targets),
            0 <= i < self.n(),
        ensures
            reachable(src, opts, targets, self.nm(i)),
        decreases i,
    {
        let p = self.parent@[i];
        if p == -1 {
            let c = seq![self.nm(i)];
            assert(is_chain(src, opts, targets, c));
            assert(c.last() == self.nm(i));
        } else {
            self.lemma_item_reachable(src, opts, targets, p);
            let c = choose|c: Seq<Seq<char>>| is_chain(src, opts, targets, c) && c.last() == self.nm(p);
            let c2 = c.push(self.nm(i));
            assert forall|k: int| 0 <= k < c2.len() - 1 implies #[trigger] needs(src, opts, c2[k], c2[k + 1]) by {
                if k < c.len() - 1 {
                    assert(c2[k] == c[k] && c2[k + 1] == c[k + 1]);
                    assert(needs(src, opts, c[k], c[k + 1]));
                }
            }
            assert(is_chain(src, opts, targets, c2));
            assert(c2.last() == self.nm(i));
        }
    }

    /// The items' names are distinct and reachable, so with `n` items at
    /// least `n` names are reachable.
    proof fn lemma_many_items<S: PackageSource>(&self, src: S, opts: ResolveOptions, targets: Seq<Seq<char>>)
        requires
            self.wf(src, opts, targets),
            self.n() >= 0xffff_fffe,
        ensures
            many_reachable(src, opts, targets),
    {
        let names = Seq::new(self.n() as nat, |i: int| self.nm(i));
        assert forall|a: int, b: int| 0 <= a < names.len() && 0 <= b < names.len() && a != b implies names[a]
            != names[b] by {
            assert(self.index@.contains_key(self.nm(a)));
            assert(self.index@.contains_key(self.nm(b)));
            assert(self.index@[self.nm(a)] == a);
            assert(self.index@[self.nm(b)] == b);
        }
        assert(names.no_duplicates());
        assert forall|k: int| 0 <= k < names.len() implies #[trigger] reachable(src, opts, targets, names[k]) by {
            self.lemma_item_reachable(src, opts, targets, k);
        }
        assert(names.len() >= 0xffff_fffe);
    }

    /// The names on the stack.
    spec fn stack_names(&self) -> Seq<Seq<char>> {
        strs_view(self.stack@)
    }

    /// A name that may be added is reachable from a target.
    proof fn lemma_reachable<S: PackageSource>(
        &self,
        src: S,
        opts: ResolveOptions,
        targets: Seq<Seq<char>>,
        name: Seq<char>,
        dependent: Option<u32>,
    )
        requires
            self.wf(src, opts, targets),
            self.may_add(src, opts, targets, name, dependent),
        ensures
            reachable(src, opts, targets, name),
    {
        let p = self.stack_names().push(name);
        let m = self.stack@.len() as int;
        if m > 0 {
            assert(p[0] == self.stack@[0]@);
            assert(self.nm(self.stack_idx@[m - 1]) == self.stack@[m - 1]@);
        }
        assert forall|k: int| 0 <= k < p.len() - 1 implies #[trigger] needs(
            src,
            opts,
            p[k],
            p[k + 1],
        ) by {
            if k < m - 1 {
                assert(needs(src, opts, self.stack@[k]@, self.stack@[k + 1]@));
            } else {
                assert(self.nm(self.stack_idx@[m - 1]) == self.stack@[m - 1]@);
            }
        }
        assert(is_chain(src, opts, targets, p));
        assert(p.last() == name);
    }

    /// The stack from position `pos` on, closed by `name`.
    fn cycle_path(&self, pos: usize, name: &String) -> (r: Vec<String>)
        requires
            pos < self.stack@.len(),
        ensures
            strs_view(r@) == self.stack_names().subrange(pos as int, self.stack@.len() as int).push(
                name@,
            ),
    {
        let mut r: Vec<String> = Vec::new();
        let mut k = pos;
        while k < self.stack.len()
            invariant
                pos <= k <= self.stack@.len(),
                strs_view(r@) == self.stack_names().subrange(pos as int, k as int),
            decreases self.stack@.len() - k,
        {
            let ghost before = r@;
            r.push(self.stack[k].clone());
            assert(strs_view(r@) =~= strs_view(before).push(self.stack@[k as int]@));
            assert(strs_view(r@) =~= self.stack_names().subrange(pos as int, k as int + 1));
            k = k + 1;
        }
        let ghost before = r@;
        r.push(name.clone());
        assert(strs_view(r@) =~= strs_view(before).push(name@));
        r
    }

    proof fn lemma_cycle<S: PackageSource>(
        &self,
        src: S,
        opts: ResolveOptions,
        targets: Seq<Seq<char>>,
        name: Seq<char>,
        dependent: Option<u32>,
        pos: int,
        path: Seq<Seq<char>>,
    )
        requires
            self.wf(src, opts, targets),
            self.may_add(src, opts, targets, name, dependent),
            0 <= pos < self.stack@.len(),
            self.stack@[pos]@ == name,
            path == self.stack_names().subrange(pos, self.stack@.len() as int).push(name),
        ensures
            path.len() >= 2,
            path[0] == path.last(),
            reachable(src, opts, targets, path[0]),
            forall|k: int| 0 <= k < path.len() - 1 ==> #[trigger] needs(src, opts, path[k], path[k + 1]),
            dfs_cycle(src, opts, targets, self.stack_names(), pos, path),
    {
        let m = self.stack@.len() as int;
        let st = self.stack_names();
        assert forall|a: int, b: int| 0 <= a < st.len() && 0 <= b < st.len() && a != b implies st[a] != st[b] by {
            let ia = self.stack_idx@[a];
            let ib = self.stack_idx@[b];
            assert(st[a] == self.stack@[a]@);
            assert(st[b] == self.stack@[b]@);
            assert(0 <= ia < self.n() && 0 <= ib < self.n());
            assert(self.nm(ia) == self.stack@[a]@ && self.nm(ib) == self.stack@[b]@);
            if st[a] == st[b] {
                assert(self.index@.contains_key(self.nm(ia)));
                assert(self.index@.contains_key(self.nm(ib)));
                assert(self.index@[self.nm(ia)] == ia);
                assert(self.index@[self.nm(ib)] == ib);
                assert(self.spos@[ia] == a);
                assert(self.spos@[ib] == b);
            }
        }
        assert(st[0] == self.stack@[0]@);
        assert forall|k: int| 0 <= k < st.len() - 1 implies #[trigger] needs(src, opts, st[k], st[k + 1]) by {
            assert(needs(src, opts, self.stack@[k]@, self.stack@[k + 1]@));
        }
        assert(is_chain(src, opts, targets, st));
        match dependent {
            Some(p) => {
                assert(self.nm(self.stack_idx@[m - 1]) == self.stack@[m - 1]@);
                assert(st.last() == self.stack@[m - 1]@);
            },
            None => {},
        }
        assert(st[pos] == name);
        let c = self.stack_names().take(pos + 1);
        assert(c[0] == self.stack@[0]@);
        assert forall|k: int| 0 <= k < c.len() - 1 implies #[trigger] needs(src, opts, c[k], c[k + 1]) by {
            assert(needs(src, opts, self.stack@[k]@, self.stack@[k + 1]@));
        }
        assert(is_chain(src, opts, targets, c));
        assert(c.last() == path[0]);
        assert forall|k: int| 0 <= k < path.len() - 1 implies #[trigger] needs(
            src,
            opts,
            path[k],
            path[k + 1],
        ) by {
            if pos + k < m - 1 {
                assert(needs(src, opts, self.stack@[pos + k]@, self.stack@[pos + k + 1]@));
            } else {
                assert(self.nm(self.stack_idx@[m - 1]) == self.stack@[m - 1]@);
            }
        }
    }
}

impl Ctx {
    /// What a successful `resolve_name`/`push_vur` leaves behind.
    spec fn resolved<S: PackageSource>(
        &self,
        before: &Ctx,
        src: S,
        opts: ResolveOptions,
        targets: Seq<Seq<char>>,
        name: Seq<char>,
        dependent: Option<u32>,
        idx: u32,
    ) -> bool {
        &&& self.wf(src, opts, targets)
        &&& before.grows_to(self)
        &&& idx < self.n()
        &&& self.nm(idx as int) == name
        &&& self.done@[idx as int]
        &&& dependent matches Some(p) ==> self.edges().contains((idx, p))
    }

    /// Plans `name` and, for a build, everything it needs.
    fn resolve_name<S: PackageSource>(
        &mut self,
        src: &S,
        opts: &ResolveOptions,
        name: &str,
        dependent: Option<u32>,
        warnings: &mut Vec<String>,
        Ghost(targets): Ghost<Seq<Seq<char>>>,
    ) -> (r: Result<u32, ResolveError>)
        requires
            old(self).wf(*src, *opts, targets),
            old(self).may_add(*src, *opts, targets, name@, dependent),
        ensures
            r matches Ok(idx) ==> final(self).resolved(
                old(self),
                *src,
                *opts,
                targets,
                name@,
                dependent,
                idx,
            ),
            r matches Err(e) ==> explains(*src, *opts, targets, e),
        decreases u32::MAX - old(self).items@.len(), 1int,
    {
        let ghost g_src = *src;
        let ghost g_opts = *opts;
        let name_s = name.to_owned();
        match self.stack_position(&name_s) {
            Some(pos) => {
                let path = self.cycle_path(pos, &name_s);
                proof {
                    self.lemma_cycle(g_src, g_opts, targets, name@, dependent, pos as int, strs_view(path@));
                    assert(dfs_cycle(g_src, g_opts, targets, self.stack_names(), pos as int, strs_view(path@)));
                    assert(path@[0]@ == strs_view(path@)[0]);
                    assert(path@.last()@ == strs_view(path@).last());
                    assert forall|k: int| 0 <= k < path@.len() - 1 implies #[trigger] needs(
                        g_src,
                        g_opts,
                        path@[k]@,
                        path@[k + 1]@,
                    ) by {
                        assert(needs(g_src, g_opts, strs_view(path@)[k], strs_view(path@)[k + 1]));
                    }
                }
                return Err(ResolveError::Cycle { path });
            },
            None => {},
        }
        match self.find_item::<S>(&name_s, Ghost(g_src), Ghost(g_opts), Ghost(targets)) {
            Some(i) => {
                proof {
                    if !self.done@[i as int] {
                        let k = self.spos@[i as int];
                        assert(self.stack@[k]@ == name@);
                    }
                }
                let idx = i as u32;
                match dependent {
                    Some(p) => {
                        self.link::<S>(idx, p, Ghost(g_src), Ghost(g_opts), Ghost(targets));
                    },
                    None => {},
                }
                return Ok(idx);
            },
            None => {},
        }
        proof {
            self.lemma_reachable(g_src, g_opts, targets, name@, dependent);
        }
        let prefer_source = match opts.order {
            CandidateOrder::PreferSource => true,
            _ => false,
        };
        if src.official_exists(name) && !prefer_source {
            let item = official_item(name, self.arch.as_str());
            let ghost before = *self;
            let r = self.register::<S>(item, dependent, Ghost(g_src), Ghost(g_opts), Ghost(targets));
            proof {
                if r is Ok {
                    assert(before.grows_to(self));
                }
            }
            return r;
        }
        let found = lookup_candidate(src, opts.order, self.arch.as_str(), name);
        match found {
            Some((repo, info)) => {
                self.push_vur(src, opts, name, repo, info, dependent, warnings, Ghost(targets))
            },
            None => {
                match src.vur_lookup_any_arch(name) {
                    Some((mrepo, _)) => {
                        return Err(
                            ResolveError::WrongArch {
                                name: name_s,
                                repo: mrepo,
                                arch: self.arch.clone(),
                            },
                        );
                    },
                    None => {},
                }
                if src.official_exists(name) {
                    let item = official_item(name, self.arch.as_str());
                    let ghost before = *self;
                    let r = self.register::<S>(item, dependent, Ghost(g_src), Ghost(g_opts), Ghost(targets));
                    if r.is_ok() {
                        let mut w = String::new();
                        push_str(&mut w, "--force-build/--no-prefer-binary sin efecto sobre '");
                        push_str(&mut w, name);
                        push_str(&mut w, "': solo existe como binario oficial");
                        warnings.push(w);
                    }
                    proof {
                        if r is Ok {
                            assert(before.grows_to(self));
                        }
                    }
                    return r;
                }
                Err(ResolveError::NotFound { name: name_s })
            },
        }
    }

    /// Plans the VUR candidate `(repo, info)` for `name`: a binary when
    /// allowed and published, else a build whose dependencies are planned.
    fn push_vur<S: PackageSource>(
        &mut self,
        src: &S,
        opts: &ResolveOptions,
        name: &str,
        repo: String,
        info: VurInfo,
        dependent: Option<u32>,
        warnings: &mut Vec<String>,
        Ghost(targets): Ghost<Seq<Seq<char>>>,
    ) -> (r: Result<u32, ResolveError>)
        requires
            old(self).wf(*src, *opts, targets),
            old(self).may_add(*src, *opts, targets, name@, dependent),
            !old(self).index@.contains_key(name@),
            choice(*src, *opts, name@) == Choice::Vur(repo@, info@),
        ensures
            r matches Ok(idx) ==> final(self).resolved(
                old(self),
                *src,
                *opts,
                targets,
                name@,
                dependent,
                idx,
            ),
            r matches Err(e) ==> explains(*src, *opts, targets, e),
        decreases u32::MAX - old(self).items@.len(), 0int,
    {
        let ghost g_src = *src;
        let ghost g_opts = *opts;
        let action = if !opts.force_build && opts.prefer_binary && src.vul_binary_available(
            repo.as_str(),
            &info,
            self.arch.as_str(),
        ) {
            Action::Install(BinarySource::VulBinary { repo })
        } else {
            Action::Build
        };
        let is_build = match action {
            Action::Build => true,
            _ => false,
        };
        let item = PlanItem { name: name.to_owned(), info, action };
        let ghost before = *self;
        let idx = match self.register::<S>(item, dependent, Ghost(g_src), Ghost(g_opts), Ghost(targets)) {
            Ok(i) => i,
            Err(e) => {
                return Err(e);
            },
        };
        if !is_build {
            proof {
                assert(before.grows_to(self));
            }
            return Ok(idx);
        }
        let ghost mid = *self;
        let deps = collect_deps(&self.items[idx as usize].info);
        let mut k: usize = 0;
        while k < deps.len()
            invariant
                self.wf(g_src, g_opts, targets),
                g_src == *src,
                g_opts == *opts,
                mid.grows_to(self),
                idx < mid.n(),
                mid.stack@.len() > 0,
                mid.stack_idx@.last() == idx as int,
                mid.items@[idx as int]@.action == ActionView::Build,
                planned(g_src, g_opts, mid.nm(idx as int)) == Some(mid.items@[idx as int]@),
                mid.n() == before.n() + 1,
                mid.n() == old(self).items@.len() + 1,
                k <= deps@.len(),
                forall|x: Seq<char>| #[trigger] strs_view(deps@).contains(x) <==> raw_deps(
                    mid.items@[idx as int]@.info,
                ).contains(x),
                forall|j: int|
                    0 <= j < k ==> {
                        let d = dep_base(#[trigger] deps@[j]@);
                        &&& self.index@.contains_key(d)
                        &&& self.edges().contains(((self.index@[d]) as u32, idx))
                    },
            decreases deps@.len() - k,
        {
            let d = dep_name(deps[k].as_str());
            proof {
                let info_v = mid.items@[idx as int]@.info;
                assert(strs_view(deps@)[k as int] == deps@[k as int]@);
                assert(strs_view(deps@).contains(deps@[k as int]@));
                assert(raw_deps(info_v).contains(deps@[k as int]@));
                let m = choose|m: int| 0 <= m < raw_deps(info_v).len() && raw_deps(info_v)[m] == deps@[k as int]@;
                assert(build_deps(info_v)[m] == d@);
                assert(build_deps(info_v).contains(d@));
                assert(self.items@[idx as int]@ == mid.items@[idx as int]@);
            }
            let ghost before_call = *self;
            match self.resolve_name(src, opts, d.as_str(), Some(idx), warnings, Ghost(targets)) {
                Ok(j) => {
                    proof {
                        mid.lemma_grows_trans(&before_call, &*self);
                        assert(self.nm(j as int) == d@);
                        assert(self.index@.contains_key(self.nm(j as int)));
                        assert(self.index@[d@] == j as int);
                        assert forall|q: int| 0 <= q < k + 1 implies {
                            let dd = dep_base(#[trigger] deps@[q]@);
                            &&& self.index@.contains_key(dd)
                            &&& self.edges().contains(((self.index@[dd]) as u32, idx))
                        } by {
                            if q < k {
                                let dd = dep_base(deps@[q]@);
                                assert(before_call.index@.contains_key(dd));
                                let t = before_call.index@[dd];
                                assert(self.nm(t) == before_call.nm(t));
                                assert(self.index@.contains_key(self.nm(t)));
                                assert(self.index@[dd] == t);
                                assert(before_call.edges().contains((t as u32, idx)));
                            }
                        }
                    }
                },
                Err(e) => {
                    return Err(e);
                },
            }
            k = k + 1;
        }
        proof {
            let top = self.stack_idx@.last();
            assert(top == idx as int);
            assert forall|d: Seq<char>|
                #[trigger] build_deps(self.items@[top]@.info).contains(d) implies {
                &&& self.index@.contains_key(d)
                &&& self.edges().contains(((self.index@[d]) as u32, top as u32))
            } by {
                let info_v = mid.items@[idx as int]@.info;
                assert(self.items@[top]@ == mid.items@[idx as int]@);
                let m = choose|m: int| 0 <= m < build_deps(info_v).len() && build_deps(info_v)[m] == d;
                assert(raw_deps(info_v).contains(raw_deps(info_v)[m]));
                assert(strs_view(deps@).contains(raw_deps(info_v)[m]));
                let j = choose|j: int| 0 <= j < strs_view(deps@).len() && strs_view(deps@)[j] == raw_deps(info_v)[m];
                assert(deps@[j]@ == raw_deps(info_v)[m]);
            }
        }
        let ghost before_finish = *self;
        self.finish_build::<S>(Ghost(g_src), Ghost(g_opts), Ghost(targets));
        proof {
            assert(self.stack@ =~= before.stack@);
            assert(self.stack_idx@ =~= before.stack_idx@);
            assert forall|i: int| 0 <= i < before.n() implies #[trigger] self.items@[i]@
                == before.items@[i]@ by {
                assert(mid.items@[i]@ == before.items@[i]@);
                assert(before_finish.items@[i]@ == mid.items@[i]@);
            }
            assert forall|i: int| 0 <= i < before.n() && #[trigger] before.done@[i] implies self.done@[i]
                && self.rank@[i] == before.rank@[i] by {
                assert(mid.done@[i] && mid.rank@[i] == before.rank@[i]);
                assert(before_finish.done@[i]);
            }
            assert forall|e: (u32, u32)| #[trigger] before.edges().contains(e) implies self.edges().contains(e) by {
                assert(mid.edges().contains(e));
            }
            assert(self.items@[idx as int]@ == mid.items@[idx as int]@);
            if dependent is Some {
                assert(mid.edges().contains((idx, dependent->0)));
            }
        }
        Ok(idx)
    }
}

// ------------------------------------------------------------------
// The plan
// ------------------------------------------------------------------

pub open spec fn items_view(v: Seq<PlanItem>) -> Seq<PlanItemView> {
    v.map_values(|x: PlanItem| x@)
}

pub open spec fn names_of(v: Seq<PlanItemView>) -> Seq<Seq<char>> {
    v.map_values(|x: PlanItemView| x.name)
}

/// What a plan for `targets` must be: every target planned, each name
/// once, each entry as the source decides, installs holding the binaries
/// (official first) and builds the builds, every dependency of a build
/// planned before it (or installed), and nothing planned that no target
/// pulls in.
pub open spec fn valid_plan<S: PackageSource>(
    src: S,
    opts: ResolveOptions,
    targets: Seq<Seq<char>>,
    installs: Seq<PlanItemView>,
    builds: Seq<PlanItemView>,
) -> bool {
    let all = installs + builds;
    &&& forall|k: int| 0 <= k < targets.len() ==> #[trigger] names_of(all).contains(targets[k])
    &&& names_of(all).no_duplicates()
    &&& forall|i: int| 0 <= i < all.len() ==> planned(src, opts, #[trigger] all[i].name) == Some(
        all[i],
    )
    &&& forall|i: int| 0 <= i < installs.len() ==> (#[trigger] installs[i]).action != ActionView::Build
    &&& forall|i: int| 0 <= i < builds.len() ==> (#[trigger] builds[i]).action == ActionView::Build
    &&& forall|i: int, j: int|
        0 <= i < j < installs.len() && (#[trigger] installs[j]).action == ActionView::Official
            ==> (#[trigger] installs[i]).action == ActionView::Official
    &&& forall|q: int, d: Seq<char>|
        0 <= q < builds.len() && #[trigger] build_deps(builds[q].info).contains(d) ==> names_of(
            installs,
        ).contains(d) || names_of(builds.take(q)).contains(d)
    &&& forall|i: int|
        0 <= i < all.len() ==> targets.contains(#[trigger] all[i].name) || exists|q: int|
            0 <= q < builds.len() && #[trigger] build_deps(builds[q].info).contains(all[i].name)
}

/// `items` at positions `src_idx`, without repeats, with `loc` giving
/// back the position of each item index it holds.
pub open spec fn picks(
    out: Seq<PlanItem>,
    items: Seq<PlanItem>,
    src_idx: Seq<int>,
    loc: Seq<int>,
) -> bool {
    &&& out.len() == src_idx.len()
    &&& loc.len() == items.len()
    &&& forall|x: int|
        0 <= x < out.len() ==> 0 <= #[trigger] src_idx[x] < items.len() && out[x]@ == items[src_idx[x]]@
            && loc[src_idx[x]] == x
}

fn is_official(a: &Action) -> (r: bool)
    ensures
        r == (a@ == ActionView::Official),
{
    match a {
        Action::Install(BinarySource::Official) => true,
        _ => false,
    }
}

fn is_vul_binary(a: &Action) -> (r: bool)
    ensures
        r == (a@ is VulBinary),
{
    match a {
        Action::Install(BinarySource::VulBinary { .. }) => true,
        _ => false,
    }
}

fn is_build_action(a: &Action) -> (r: bool)
    ensures
        r == (a@ == ActionView::Build),
{
    match a {
        Action::Build => true,
        _ => false,
    }
}

/// The installs of `items`: official ones first, then VUR binaries, each
/// group in item order.
fn collect_installs(items: &Vec<PlanItem>) -> (r: (Vec<PlanItem>, Ghost<Seq<int>>, Ghost<Seq<int>>))
    ensures
        picks(r.0@, items@, r.1@, r.2@),
        forall|i: int|
            0 <= i < items@.len() && items@[i]@.action != ActionView::Build ==> 0 <= #[trigger] r.2@[i]
                < r.0@.len() && r.1@[r.2@[i]] == i,
        forall|x: int| 0 <= x < r.0@.len() ==> (#[trigger] r.0@[x])@.action != ActionView::Build,
        forall|x: int, y: int|
            0 <= x < y < r.0@.len() && (#[trigger] r.0@[y])@.action == ActionView::Official ==> (
            #[trigger] r.0@[x])@.action == ActionView::Official,
{
    let mut out: Vec<PlanItem> = Vec::new();
    let ghost mut src_idx: Seq<int> = Seq::empty();
    let ghost mut loc: Seq<int> = Seq::new(items@.len(), |i: int| -1int);
    let mut i: usize = 0;
    while i < items.len()
        invariant
            i <= items@.len(),
            picks(out@, items@, src_idx, loc),
            forall|j: int|
                0 <= j < i && items@[j]@.action == ActionView::Official ==> 0 <= #[trigger] loc[j]
                    < out@.len() && src_idx[loc[j]] == j,
            forall|x: int| 0 <= x < out@.len() ==> (#[trigger] out@[x])@.action == ActionView::Official,
            forall|x: int| 0 <= x < out@.len() ==> #[trigger] src_idx[x] < i,
        decreases items@.len() - i,
    {
        if is_official(&items[i].action) {
            proof {
                loc = loc.update(i as int, out@.len() as int);
                src_idx = src_idx.push(i as int);
            }
            out.push(items[i].clone());
            proof {
                assert forall|x: int|
                    0 <= x < out@.len() implies 0 <= #[trigger] src_idx[x] < items@.len()
                    && out@[x]@ == items@[src_idx[x]]@ && loc[src_idx[x]] == x by {
                    if x < out@.len() - 1 {
                        assert(src_idx[x] < i);
                    }
                }
            }
        }
        i = i + 1;
    }
    let ghost n_off = out@.len();
    i = 0;
    while i < items.len()
        invariant
            i <= items@.len(),
            n_off <= out@.len(),
            picks(out@, items@, src_idx, loc),
            forall|j: int|
                0 <= j < items@.len() && items@[j]@.action == ActionView::Official ==> 0
                    <= #[trigger] loc[j] < out@.len() && src_idx[loc[j]] == j,
            forall|j: int|
                0 <= j < i && items@[j]@.action is VulBinary ==> 0 <= #[trigger] loc[j]
                    < out@.len() && src_idx[loc[j]] == j,
            forall|x: int| 0 <= x < n_off ==> (#[trigger] out@[x])@.action == ActionView::Official,
            forall|x: int| n_off <= x < out@.len() ==> (#[trigger] out@[x])@.action is VulBinary,
            forall|x: int| n_off <= x < out@.len() ==> #[trigger] src_idx[x] < i,
        decreases items@.len() - i,
    {
        if is_vul_binary(&items[i].action) {
            proof {
                loc = loc.update(i as int, out@.len() as int);
                src_idx = src_idx.push(i as int);
            }
            out.push(items[i].clone());
            proof {
                assert forall|x: int|
                    0 <= x < out@.len() implies 0 <= #[trigger] src_idx[x] < items@.len()
                    && out@[x]@ == items@[src_idx[x]]@ && loc[src_idx[x]] == x by {
                    if x < out@.len() - 1 {
                        if x < n_off {
                            assert(items@[src_idx[x]]@.action == ActionView::Official);
                        } else {
                            assert(src_idx[x] < i);
                        }
                    }
                }
            }
        }
        i = i + 1;
    }
    (out, Ghost(src_idx), Ghost(loc))
}

/// The builds of `items`, in the order `order` lists their indices.
fn collect_builds(
    items: &Vec<PlanItem>,
    order: &Vec<u32>,
) -> (r: (Vec<PlanItem>, Ghost<Seq<int>>, Ghost<Seq<int>>, Ghost<Seq<int>>))
    requires
        items@.len() < u32::MAX,
        order@.no_duplicates(),
        forall|m: int| 0 <= m < order@.len() ==> (#[trigger] order@[m]) < items@.len(),
        forall|i: int| 0 <= i < items@.len() ==> #[trigger] order@.contains(i as u32),
    ensures
        picks(r.0@, items@, r.1@, r.2@),
        r.3@.len() == r.0@.len(),
        forall|i: int|
            0 <= i < items@.len() && items@[i]@.action == ActionView::Build ==> 0 <= #[trigger] r.2@[i]
                < r.0@.len() && r.1@[r.2@[i]] == i,
        forall|x: int| 0 <= x < r.0@.len() ==> (#[trigger] r.0@[x])@.action == ActionView::Build,
        forall|x: int|
            0 <= x < r.0@.len() ==> 0 <= #[trigger] r.3@[x] < order@.len() && order@[r.3@[x]] as int
                == r.1@[x],
        forall|x: int, y: int| 0 <= x < y < r.0@.len() ==> #[trigger] r.3@[x] < #[trigger] r.3@[y],
{
    let mut out: Vec<PlanItem> = Vec::new();
    let ghost mut src_idx: Seq<int> = Seq::empty();
    let ghost mut loc: Seq<int> = Seq::new(items@.len(), |i: int| -1int);
    let ghost mut bpos: Seq<int> = Seq::empty();
    let mut m: usize = 0;
    while m < order.len()
        invariant
            m <= order@.len(),
            order@.no_duplicates(),
            forall|q: int| 0 <= q < order@.len() ==> (#[trigger] order@[q]) < items@.len(),
            picks(out@, items@, src_idx, loc),
            bpos.len() == out@.len(),
            forall|q: int|
                0 <= q < m && items@[order@[q] as int]@.action == ActionView::Build ==> 0
                    <= #[trigger] loc[order@[q] as int] < out@.len() && src_idx[loc[order@[q] as int]]
                    == order@[q] as int,
            forall|x: int| 0 <= x < out@.len() ==> (#[trigger] out@[x])@.action == ActionView::Build,
            forall|x: int|
                0 <= x < out@.len() ==> 0 <= #[trigger] bpos[x] < m && order@[bpos[x]] as int
                    == src_idx[x],
            forall|x: int, y: int| 0 <= x < y < out@.len() ==> #[trigger] bpos[x] < #[trigger] bpos[y],
        decreases order@.len() - m,
    {
        let idx = order[m] as usize;
        if is_build_action(&items[idx].action) {
            proof {
                loc = loc.update(idx as int, out@.len() as int);
                src_idx = src_idx.push(idx as int);
                bpos = bpos.push(m as int);
            }
            out.push(items[idx].clone());
            proof {
                assert forall|x: int|
                    0 <= x < out@.len() implies 0 <= #[trigger] src_idx[x] < items@.len()
                    && out@[x]@ == items@[src_idx[x]]@ && loc[src_idx[x]] == x by {
                    if x < out@.len() - 1 {
                        assert(order@[bpos[x]] as int == src_idx[x]);
                        assert(bpos[x] < m);
                        if src_idx[x] == idx as int {
                            assert(order@[bpos[x]] == order@[m as int]);
                        }
                    }
                }
            }
        }
        m = m + 1;
    }
    proof {
        assert forall|i: int|
            0 <= i < items@.len() && items@[i]@.action == ActionView::Build implies 0
            <= #[trigger] loc[i] < out@.len() && src_idx[loc[i]] == i by {
            assert(order@.contains(i as u32));
            let q = choose|q: int| 0 <= q < order@.len() && order@[q] == i as u32;
            assert((i as u32) as int == i);
            assert(order@[q] as int == i);
        }
    }
    (out, Ghost(src_idx), Ghost(loc), Ghost(bpos))
}

impl Ctx {
    /// Once every target is planned and the stack is empty, the installs
    /// and builds gathered from the items form a valid plan.
    proof fn lemma_plan_valid<S: PackageSource>(
        &self,
        src: S,
        opts: ResolveOptions,
        targets: Seq<Seq<char>>,
        order: Seq<u32>,
        installs: Seq<PlanItem>,
        isrc: Seq<int>,
        iloc: Seq<int>,
        builds: Seq<PlanItem>,
        bsrc: Seq<int>,
        bloc: Seq<int>,
        bpos: Seq<int>,
    )
        requires
            self.wf(src, opts, targets),
            self.stack@.len() == 0,
            forall|k: int| 0 <= k < targets.len() ==> #[trigger] self.index@.contains_key(targets[k]),
            is_topological(graph_nodes(self.graph), self.edges(), order),
            picks(installs, self.items@, isrc, iloc),
            forall|i: int|
                0 <= i < self.n() && self.items@[i]@.action != ActionView::Build ==> 0
                    <= #[trigger] iloc[i] < installs.len() && isrc[iloc[i]] == i,
            forall|x: int| 0 <= x < installs.len() ==> (#[trigger] installs[x])@.action != ActionView::Build,
            forall|x: int, y: int|
                0 <= x < y < installs.len() && (#[trigger] installs[y])@.action == ActionView::Official
                    ==> (#[trigger] installs[x])@.action == ActionView::Official,
            picks(builds, self.items@, bsrc, bloc),
            bpos.len() == builds.len(),
            forall|i: int|
                0 <= i < self.n() && self.items@[i]@.action == ActionView::Build ==> 0
                    <= #[trigger] bloc[i] < builds.len() && bsrc[bloc[i]] == i,
            forall|x: int| 0 <= x < builds.len() ==> (#[trigger] builds[x])@.action == ActionView::Build,
            forall|x: int|
                0 <= x < builds.len() ==> 0 <= #[trigger] bpos[x] < order.len() && order[bpos[x]] as int
                    == bsrc[x],
            forall|x: int, y: int| 0 <= x < y < builds.len() ==> #[trigger] bpos[x] < #[trigger] bpos[y],
        ensures
            valid_plan(src, opts, targets, items_view(installs), items_view(builds)),
    {
        let iv = items_view(installs);
        let bv = items_view(builds);
        let all = iv + bv;
        let n = self.n();
        let ni = installs.len() as int;
        // the item behind each plan position
        let srcs = isrc + bsrc;
        assert forall|u: int| 0 <= u < all.len() implies 0 <= #[trigger] srcs[u] < n && all[u]
            == self.items@[srcs[u]]@ by {
            if u < ni {
                assert(all[u] == installs[u]@);
            } else {
                assert(all[u] == builds[u - ni]@);
            }
        }
        // every done item
        assert forall|i: int| 0 <= i < n implies #[trigger] self.done@[i] by {
            if !self.done@[i] {
                assert(0 <= self.spos@[i] < self.stack@.len());
            }
        }
        // where each item sits in the plan
        assert forall|i: int| 0 <= i < n implies #[trigger] names_of(all).contains(self.nm(i)) && (
        self.items@[i]@.action == ActionView::Build ==> bv[bloc[i]] == self.items@[i]@) by {
            if self.items@[i]@.action == ActionView::Build {
                let q = bloc[i];
                assert(bv[q] == builds[q]@);
                assert(all[ni + q] == bv[q]);
                assert(names_of(all)[ni + q] == self.nm(i));
            } else {
                let x = iloc[i];
                assert(all[x] == iv[x]);
                assert(names_of(all)[x] == self.nm(i));
            }
        }
        // targets
        assert forall|k: int| 0 <= k < targets.len() implies #[trigger] names_of(all).contains(
            targets[k],
        ) by {
            assert(self.index@.contains_key(targets[k]));
            let i = self.index@[targets[k]];
            assert(self.nm(i) == targets[k]);
            assert(names_of(all).contains(self.nm(i)));
        }
        // each name once
        assert forall|u: int, v: int|
            0 <= u < all.len() && 0 <= v < all.len() && u != v implies names_of(all)[u]
            != names_of(all)[v] by {
            let su = srcs[u];
            let sv = srcs[v];
            if names_of(all)[u] == names_of(all)[v] {
                assert(self.index@.contains_key(self.nm(su)));
                assert(self.index@.contains_key(self.nm(sv)));
                assert(su == sv);
                if u < ni && v < ni {
                    assert(iloc[isrc[u]] == u);
                    assert(iloc[isrc[v]] == v);
                } else if u >= ni && v >= ni {
                    assert(bloc[bsrc[u - ni]] == u - ni);
                    assert(bloc[bsrc[v - ni]] == v - ni);
                } else if u < ni {
                    assert(installs[u]@.action != ActionView::Build);
                    assert(builds[v - ni]@.action == ActionView::Build);
                } else {
                    assert(installs[v]@.action != ActionView::Build);
                    assert(builds[u - ni]@.action == ActionView::Build);
                }
            }
        }
        assert(names_of(all).no_duplicates());
        // as the source decides
        assert forall|u: int| 0 <= u < all.len() implies planned(src, opts, #[trigger] all[u].name)
            == Some(all[u]) by {
            assert(planned(src, opts, self.nm(srcs[u])) == Some(self.items@[srcs[u]]@));
        }
        assert forall|x: int| 0 <= x < iv.len() implies (#[trigger] iv[x]).action != ActionView::Build by {
            assert(iv[x] == installs[x]@);
        }
        assert forall|x: int| 0 <= x < bv.len() implies (#[trigger] bv[x]).action == ActionView::Build by {
            assert(bv[x] == builds[x]@);
        }
        assert forall|x: int, y: int|
            0 <= x < y < iv.len() && (#[trigger] iv[y]).action == ActionView::Official implies (
            #[trigger] iv[x]).action == ActionView::Official by {
            assert(iv[y] == installs[y]@);
            assert(iv[x] == installs[x]@);
        }
        // builds after what they need
        assert forall|q: int, d: Seq<char>|
            0 <= q < bv.len() && #[trigger] build_deps(bv[q].info).contains(d) implies names_of(
            iv,
        ).contains(d) || names_of(bv.take(q)).contains(d) by {
            let s = bsrc[q];
            assert(bv[q] == builds[q]@);
            assert(self.items@[s]@.action == ActionView::Build);
            assert(build_deps(self.items@[s]@.info).contains(d));
            let j = self.index@[d];
            assert(self.edges().contains((j as u32, s as u32)));
            assert(graph_nodes(self.graph).contains(j as u32));
            assert(order.contains(j as u32));
            let mj = choose|mj: int| 0 <= mj < order.len() && order[mj] == j as u32;
            let ms = bpos[q];
            assert(order[ms] as int == s);
            assert((s as u32) as int == s);
            assert(order[ms] == s as u32);
            assert(self.edges().contains((order[mj], order[ms])));
            assert(mj < ms);
            assert(self.nm(j) == d);
            if self.items@[j]@.action == ActionView::Build {
                let q2 = bloc[j];
                assert(bsrc[q2] == j);
                assert(order[bpos[q2]] == order[mj]);
                assert(bpos[q2] == mj);
                if q2 >= q {
                    if q2 > q {
                        assert(bpos[q] < bpos[q2]);
                    }
                }
                assert(q2 < q);
                assert(bv.take(q)[q2] == builds[q2]@);
                assert(names_of(bv.take(q))[q2] == d);
            } else {
                let x = iloc[j];
                assert(iv[x] == installs[x]@);
                assert(names_of(iv)[x] == d);
            }
        }
        // nothing unasked for
        assert forall|u: int| 0 <= u < all.len() implies targets.contains(#[trigger] all[u].name)
            || exists|q: int| 0 <= q < bv.len() && #[trigger] build_deps(bv[q].info).contains(
            all[u].name,
        ) by {
            let s = srcs[u];
            let p = self.parent@[s];
            if p != -1 {
                assert(needs(src, opts, self.nm(p), self.nm(s)));
                assert(planned(src, opts, self.nm(p)) == Some(self.items@[p]@));
                assert(self.items@[p]@.action == ActionView::Build);
                let q = bloc[p];
                assert(bv[q] == self.items@[p]@);
                assert(build_deps(bv[q].info).contains(all[u].name));
            }
        }
    }
}

impl Ctx {
    /// Orders the builds topologically and splits off the installs.
    fn finish<S: PackageSource>(
        self,
        Ghost(src): Ghost<S>,
        Ghost(opts): Ghost<ResolveOptions>,
        Ghost(targets): Ghost<Seq<Seq<char>>>,
        warnings: Vec<String>,
    ) -> (r: Plan)
        requires
            self.wf(src, opts, targets),
            self.stack@.len() == 0,
            forall|k: int| 0 <= k < targets.len() ==> #[trigger] self.index@.contains_key(targets[k]),
        ensures
            valid_plan(src, opts, targets, items_view(r.installs@), items_view(r.builds@)),
            r.warnings@ == warnings@,
    {
        proof {
            assert forall|i: int| 0 <= i < self.n() implies #[trigger] self.done@[i] by {
                if !self.done@[i] {
                    assert(0 <= self.spos@[i] < self.stack@.len());
                }
            }
            let rk = |x: u32| self.rank@[x as int];
            assert forall|a: u32, b: u32| #[trigger] self.edges().contains((a, b)) implies rk(a) < rk(b) by {
                assert(self.done@[b as int]);
            }
            lemma_ranked_acyclic(self.edges(), rk);
        }
        let order = match graph_toposort(&self.graph) {
            Some(o) => o,
            None => {
                proof {
                    assert(false);
                }
                Vec::new()
            },
        };
        proof {
            assert forall|m: int| 0 <= m < order@.len() implies (#[trigger] order@[m]) < self.items@.len() by {
                assert(order@.contains(order@[m]));
                assert(graph_nodes(self.graph).contains(order@[m]));
            }
            assert forall|i: int| 0 <= i < self.items@.len() implies #[trigger] order@.contains(i as u32) by {
                assert(graph_nodes(self.graph).contains(i as u32));
            }
        }
        let (builds, bsrc, bloc, bpos) = collect_builds(&self.items, &order);
        let (installs, isrc, iloc) = collect_installs(&self.items);
        proof {
            self.lemma_plan_valid(
                src,
                opts,
                targets,
                order@,
                installs@,
                isrc@,
                iloc@,
                builds@,
                bsrc@,
                bloc@,
                bpos@,
            );
        }
        Plan { installs, builds, warnings }
    }
}

/// Resolves `targets` against `source` into a [`Plan`]: every target and
/// every dependency of a planned build is planned once, as the source
/// decides, builds after what they need. A failure names a reachable
/// package that cannot be planned or a dependency cycle.
pub fn resolve<S: PackageSource>(targets: &[String], source: &S, opts: &ResolveOptions) -> (r: Result<
    Plan,
    ResolveError,
>)
    ensures
        r matches Ok(plan) ==> valid_plan(
            *source,
            *opts,
            strs_view(targets@),
            items_view(plan.installs@),
            items_view(plan.builds@),
        ),
        r matches Err(e) ==> explains(*source, *opts, strs_view(targets@), e),
{
    let ghost tv = strs_view(targets@);
    let mut ctx = Ctx::new(source, Ghost(*opts), Ghost(tv));
    let mut warnings: Vec<String> = Vec::new();
    let mut t: usize = 0;
    while t < targets.len()
        invariant
            t <= targets@.len(),
            tv == strs_view(targets@),
            ctx.wf(*source, *opts, tv),
            ctx.stack@.len() == 0,
            forall|k: int| 0 <= k < t ==> #[trigger] ctx.index@.contains_key(tv[k]),
        decreases targets@.len() - t,
    {
        proof {
            assert(tv[t as int] == targets@[t as int]@);
            assert(tv.contains(targets@[t as int]@));
        }
        let ghost before = ctx;
        match ctx.resolve_name(source, opts, targets[t].as_str(), None, &mut warnings, Ghost(tv)) {
            Ok(idx) => {
                proof {
                    assert forall|k: int| 0 <= k < t + 1 implies #[trigger] ctx.index@.contains_key(tv[k]) by {
                        if k < t {
                            assert(before.index@.contains_key(tv[k]));
                            let i = before.index@[tv[k]];
                            assert(ctx.nm(i) == before.nm(i));
                            assert(ctx.index@.contains_key(ctx.nm(i)));
                        } else {
                            assert(ctx.nm(idx as int) == tv[k]);
                            assert(ctx.index@.contains_key(ctx.nm(idx as int)));
                        }
                    }
                }
            },
            Err(e) => {
                return Err(e);
            },
        }
        t = t + 1;
    }
    Ok(ctx.finish::<S>(Ghost(*source), Ghost(*opts), Ghost(tv), warnings))
}

// ------------------------------------------------------------------
// Laws
// ------------------------------------------------------------------

/// A valid plan holds every name on a chain from a target.
pub proof fn lemma_plan_holds_chain<S: PackageSource>(
    src: S,
    opts: ResolveOptions,
    targets: Seq<Seq<char>>,
    installs: Seq<PlanItemView>,
    builds: Seq<PlanItemView>,
    p: Seq<Seq<char>>,
    k: int,
)
    requires
        valid_plan(src, opts, targets, installs, builds),
        is_chain(src, opts, targets, p),
        0 <= k < p.len(),
    ensures
        names_of(installs + builds).contains(p[k]),
    decreases k,
{
    let all = installs + builds;
    if k == 0 {
        let t = choose|t: int| 0 <= t < targets.len() && targets[t] == p[0];
        assert(names_of(all).contains(targets[t]));
    } else {
        lemma_plan_holds_chain(src, opts, targets, installs, builds, p, k - 1);
        let u = choose|u: int| 0 <= u < names_of(all).len() && names_of(all)[u] == p[k - 1];
        assert(planned(src, opts, all[u].name) == Some(all[u]));
        let j = k - 1;
        assert(needs(src, opts, p[j], p[j + 1]));
        let ni = installs.len() as int;
        if u < ni {
            assert(all[u] == installs[u]);
        }
        let q = u - ni;
        assert(all[u] == builds[q]);
        assert(build_deps(builds[q].info).contains(p[k]));
        if names_of(installs).contains(p[k]) {
            let x = choose|x: int| 0 <= x < names_of(installs).len() && names_of(installs)[x] == p[k];
            assert(names_of(all)[x] == p[k]);
        } else {
            assert(names_of(builds.take(q)).contains(p[k]));
            let x = choose|x: int| 0 <= x < names_of(builds.take(q)).len() && names_of(builds.take(q))[x] == p[k];
            assert(names_of(all)[ni + x] == p[k]);
        }
    }
}

/// Every name reachable from the targets is in a valid plan.
pub proof fn lemma_plan_holds_reachable<S: PackageSource>(
    src: S,
    opts: ResolveOptions,
    targets: Seq<Seq<char>>,
    installs: Seq<PlanItemView>,
    builds: Seq<PlanItemView>,
    name: Seq<char>,
)
    requires
        valid_plan(src, opts, targets, installs, builds),
        reachable(src, opts, targets, name),
    ensures
        names_of(installs + builds).contains(name),
{
    let p = choose|p: Seq<Seq<char>>| is_chain(src, opts, targets, p) && p.last() == name;
    lemma_plan_holds_chain(src, opts, targets, installs, builds, p, p.len() - 1);
}

/// Position in `builds` of a build that a valid plan holds by name.
proof fn lemma_build_position<S: PackageSource>(
    src: S,
    opts: ResolveOptions,
    targets: Seq<Seq<char>>,
    installs: Seq<PlanItemView>,
    builds: Seq<PlanItemView>,
    name: Seq<char>,
) -> (q: int)
    requires
        valid_plan(src, opts, targets, installs, builds),
        names_of(installs + builds).contains(name),
        planned(src, opts, name) matches Some(it) && it.action == ActionView::Build,
    ensures
        0 <= q < builds.len(),
        builds[q].name == name,
        forall|q2: int| 0 <= q2 < builds.len() && builds[q2].name == name ==> q2 == q,
{
    let all = installs + builds;
    let ni = installs.len() as int;
    let u = choose|u: int| 0 <= u < names_of(all).len() && names_of(all)[u] == name;
    assert(planned(src, opts, all[u].name) == Some(all[u]));
    if u < ni {
        assert(all[u] == installs[u]);
    }
    let q = u - ni;
    assert(all[u] == builds[q]);
    assert forall|q2: int| 0 <= q2 < builds.len() && builds[q2].name == name implies q2 == q by {
        assert(names_of(all)[ni + q2] == name);
    }
    q
}

/// A resolution failure other than `TooLarge` is genuine: no valid plan
/// exists for the same source, options and targets.
pub proof fn lemma_failure_is_genuine<S: PackageSource>(
    src: S,
    opts: ResolveOptions,
    targets: Seq<Seq<char>>,
    e: ResolveError,
    installs: Seq<PlanItemView>,
    builds: Seq<PlanItemView>,
)
    requires
        explains(src, opts, targets, e),
        !(e is TooLarge),
    ensures
        !valid_plan(src, opts, targets, installs, builds),
{
    if valid_plan(src, opts, targets, installs, builds) {
        let all = installs + builds;
        match e {
            ResolveError::WrongArch { name, repo, arch } => {
                lemma_plan_holds_reachable(src, opts, targets, installs, builds, name@);
                let u = choose|u: int| 0 <= u < names_of(all).len() && names_of(all)[u] == name@;
                assert(planned(src, opts, all[u].name) == Some(all[u]));
            },
            ResolveError::NotFound { name } => {
                lemma_plan_holds_reachable(src, opts, targets, installs, builds, name@);
                let u = choose|u: int| 0 <= u < names_of(all).len() && names_of(all)[u] == name@;
                assert(planned(src, opts, all[u].name) == Some(all[u]));
            },
            ResolveError::Cycle { path } => {
                let pv = strs_view(path@);
                let len = pv.len() as int;
                assert forall|k: int| 0 <= k < len - 1 implies #[trigger] needs(src, opts, pv[k], pv[k + 1]) by {
                    assert(needs(src, opts, path@[k]@, path@[k + 1]@));
                }
                // the cycle is reachable: a chain to its start, then the cycle
                let c = choose|c: Seq<Seq<char>>| is_chain(src, opts, targets, c) && c.last() == pv[0];
                let full = c + pv.subrange(1, len);
                assert forall|k: int| 0 <= k < full.len() - 1 implies #[trigger] needs(
                    src,
                    opts,
                    full[k],
                    full[k + 1],
                ) by {
                    let m = c.len() as int;
                    if k < m - 1 {
                        assert(needs(src, opts, c[k], c[k + 1]));
                    } else {
                        let j = k - m + 1;
                        assert(full[k] == pv[j]);
                        assert(full[k + 1] == pv[j + 1]);
                    }
                }
                assert(is_chain(src, opts, targets, full));
                let m = c.len() as int;
                // position in builds of each cycle name
                assert forall|k: int| 0 <= k < len implies #[trigger] names_of(all).contains(pv[k]) by {
                    lemma_plan_holds_chain(src, opts, targets, installs, builds, full, m - 1 + k);
                    if k == 0 {
                        assert(full[m - 1] == pv[0]);
                    } else {
                        assert(full[m - 1 + k] == pv[k]);
                    }
                }
                let pos = |k: int| {
                    choose|q: int| 0 <= q < builds.len() && builds[q].name == pv[k]
                };
                assert forall|k: int| 0 <= k < len - 1 implies 0 <= #[trigger] pos(k) < builds.len()
                    && builds[pos(k)].name == pv[k] && (k > 0 ==> pos(k) < pos(k - 1)) by {
                    assert(needs(src, opts, pv[k], pv[k + 1]));
                    let q = lemma_build_position(src, opts, targets, installs, builds, pv[k]);
                    if k > 0 {
                        let j = k - 1;
                        assert(needs(src, opts, pv[j], pv[j + 1]));
                        let qp = lemma_build_position(src, opts, targets, installs, builds, pv[j]);
                        assert(builds[qp].name == pv[j]);
                        assert(planned(src, opts, pv[j]) == Some(builds[qp])) by {
                            assert(all[installs.len() + qp] == builds[qp]);
                        }
                        assert(build_deps(builds[qp].info).contains(pv[k]));
                        if names_of(installs).contains(pv[k]) {
                            let x = choose|x: int| 0 <= x < names_of(installs).len()
                                && names_of(installs)[x] == pv[k];
                            assert(names_of(all)[x] == pv[k]);
                            assert(names_of(all)[installs.len() + q] == pv[k]);
                        } else {
                            assert(names_of(builds.take(qp)).contains(pv[k]));
                            let x = choose|x: int| 0 <= x < names_of(builds.take(qp)).len()
                                && names_of(builds.take(qp))[x] == pv[k];
                            assert(builds[x].name == pv[k]);
                            assert(x == q);
                        }
                    }
                }
                // the last step closes the cycle: pos(len-1) = pos(0) < pos(len-2)
                lemma_strictly_decreasing(pos, len - 1);
                let j = len - 2;
                assert(needs(src, opts, pv[j], pv[j + 1]));
                let qp = lemma_build_position(src, opts, targets, installs, builds, pv[j]);
                assert(needs(src, opts, pv[0], pv[0int + 1]));
                let q0 = lemma_build_position(src, opts, targets, installs, builds, pv[0]);
                assert(planned(src, opts, pv[j]) == Some(builds[qp])) by {
                    assert(all[installs.len() + qp] == builds[qp]);
                }
                assert(pv[j + 1] == pv[0]);
                assert(build_deps(builds[qp].info).contains(pv[0]));
                if names_of(installs).contains(pv[0]) {
                    let x = choose|x: int| 0 <= x < names_of(installs).len() && names_of(installs)[x] == pv[0];
                    assert(names_of(all)[x] == pv[0]);
                    assert(names_of(all)[installs.len() + q0] == pv[0]);
                } else {
                    let x = choose|x: int| 0 <= x < names_of(builds.take(qp)).len()
                        && names_of(builds.take(qp))[x] == pv[0];
                    assert(builds[x].name == pv[0]);
                    assert(x == q0);
                    assert(pos(0) == q0);
                    assert(pos(j) == qp);
                }
            },
            ResolveError::TooLarge => {},
        }
    }
}

proof fn lemma_strictly_decreasing(f: spec_fn(int) -> int, n: int)
    requires
        n >= 1,
        forall|k: int| 0 < k < n ==> #[trigger] f(k) < f(k - 1),
    ensures
        forall|k: int| 0 < k < n ==> #[trigger] f(k) < f(0),
    decreases n,
{
    if n > 1 {
        lemma_strictly_decreasing(f, n - 1);
        assert forall|k: int| 0 < k < n implies #[trigger] f(k) < f(0) by {
            if k == n - 1 && k > 1 {
                assert(f(k - 1) < f(0));
            }
        }
    }
}

} // verus!
