//! `vary -Ss`: matching packages of the official repositories and of the
//! VUR indexes against the search words, one row per name, the official
//! package winning over a VUR binary, which wins over a source build.
use vstd::prelude::*;
use crate::keyed::{as_map, keyed_wf, upsert_key};
use crate::metadata::{strs_view, VurInfo};
use crate::text::{chars_of, contains, lowercase, split_ws, string_views};
use crate::xbps::PkgInfo;

verus! {

/// Where a row comes from, best first.
#[derive(Debug, Clone, Copy, PartialEq, Eq)]
pub enum Rank {
    Official,
    VulBinary,
    Source,
}

pub open spec fn rank_num(r: Rank) -> nat {
    match r {
        Rank::Official => 0,
        Rank::VulBinary => 1,
        Rank::Source => 2,
    }
}

/// One search result.
#[derive(Debug)]
pub struct Row {
    pub name: String,
    pub pkgver: String,
    pub desc: String,
    pub rank: Rank,
    pub repo: String,
}

pub ghost struct RowView {
    pub name: Seq<char>,
    pub pkgver: Seq<char>,
    pub desc: Seq<char>,
    pub rank: Rank,
    pub repo: Seq<char>,
}

impl View for Row {
    type V = RowView;

    open spec fn view(&self) -> RowView {
        RowView { name: self.name@, pkgver: self.pkgver@, desc: self.desc@, rank: self.rank, repo: self.repo@ }
    }
}

/// The search words: the words of the pattern, lowercased (blank ones
/// dropped).
pub open spec fn search_words_of(pattern: Seq<char>) -> Seq<Seq<char>> {
    drop_blank(split_ws(pattern).map_values(|w: Seq<char>| lowercase(w)))
}

/// The non-empty words, in order.
pub open spec fn drop_blank(ws: Seq<Seq<char>>) -> Seq<Seq<char>>
    decreases ws.len(),
{
    if ws.len() == 0 {
        ws
    } else if ws.last().len() > 0 {
        drop_blank(ws.drop_last()).push(ws.last())
    } else {
        drop_blank(ws.drop_last())
    }
}

pub fn search_words(pattern: &str) -> (r: Vec<String>)
    ensures
        strs_view(r@) == search_words_of(pattern@),
{
    let cs = chars_of(pattern);
    let ws = crate::text::split_ws_of(cs.as_slice());
    let ghost lw = split_ws(pattern@).map_values(|w: Seq<char>| lowercase(w));
    let mut r: Vec<String> = Vec::new();
    let mut i: usize = 0;
    while i < ws.len()
        invariant
            i <= ws@.len(),
            crate::text::views(ws@) == split_ws(pattern@),
            lw == split_ws(pattern@).map_values(|w: Seq<char>| lowercase(w)),
            strs_view(r@) == drop_blank(lw.take(i as int)),
        decreases ws@.len() - i,
    {
        let w = crate::text::string_from(ws[i].as_slice());
        let l = crate::text::to_lower(w.as_str());
        proof {
            assert(lw[i as int] == l@);
            assert(lw.take(i as int + 1).drop_last() =~= lw.take(i as int));
            assert(lw.take(i as int + 1).last() == l@);
        }
        let ghost before = strs_view(r@);
        if !l.as_str().is_empty() {
            r.push(l);
            assert(strs_view(r@) =~= before.push(r@.last()@));
        }
        i = i + 1;
    }
    assert(lw.take(lw.len() as int) =~= lw);
    r
}

/// Whether every word occurs in the lowercased name or description (no
/// words match nothing).
pub open spec fn matches(words: Seq<Seq<char>>, name: Seq<char>, desc: Seq<char>) -> bool {
    words.len() > 0 && forall|i: int|
        0 <= i < words.len() ==> contains(lowercase(name), #[trigger] words[i]) || contains(lowercase(desc), words[i])
}

pub fn matches_words(words: &Vec<String>, name: &str, desc: &str) -> (r: bool)
    ensures
        r == matches(strs_view(words@), name@, desc@),
{
    if words.len() == 0 {
        return false;
    }
    let n = crate::text::to_lower(name);
    let d = crate::text::to_lower(desc);
    let nc = chars_of(n.as_str());
    let dc = chars_of(d.as_str());
    let mut i: usize = 0;
    while i < words.len()
        invariant
            i <= words@.len(),
            nc@ == lowercase(name@),
            dc@ == lowercase(desc@),
            forall|j: int|
                0 <= j < i ==> contains(lowercase(name@), #[trigger] strs_view(words@)[j]) || contains(
                    lowercase(desc@),
                    strs_view(words@)[j],
                ),
        decreases words@.len() - i,
    {
        let wc = chars_of(words[i].as_str());
        if !crate::text::contains_exec(nc.as_slice(), wc.as_slice()) && !crate::text::contains_exec(
            dc.as_slice(),
            wc.as_slice(),
        ) {
            assert(strs_view(words@)[i as int] == wc@);
            return false;
        }
        i = i + 1;
    }
    true
}

pub open spec fn opt_text(o: Option<String>) -> Seq<char> {
    match o {
        Some(s) => s@,
        None => Seq::empty(),
    }
}

/// Whether an official hit is shown: not from the local repository of
/// built packages (an absolute path or `hostdir/binpkgs`), and matching.
pub open spec fn official_shown(words: Seq<Seq<char>>, hit: PkgInfo) -> bool {
    let repo = opt_text(hit.repository);
    !contains(repo, "hostdir/binpkgs"@) && !(repo.len() > 0 && repo[0] == '/') && matches(
        words,
        hit.name@,
        opt_text(hit.short_desc),
    )
}

pub open spec fn official_row(hit: PkgInfo) -> RowView {
    let repo = opt_text(hit.repository);
    RowView {
        name: hit.name@,
        pkgver: hit.pkgver@,
        desc: opt_text(hit.short_desc),
        rank: Rank::Official,
        repo: if repo.len() == 0 {
            "official"@
        } else {
            repo
        },
    }
}

/// The rows of the official hits: the first hit for a name wins.
pub open spec fn official_rows(words: Seq<Seq<char>>, hits: Seq<PkgInfo>) -> Map<Seq<char>, RowView>
    decreases hits.len(),
{
    if hits.len() == 0 {
        Map::empty()
    } else {
        let m = official_rows(words, hits.drop_last());
        let h = hits.last();
        if official_shown(words, h) && !m.dom().contains(h.name@) {
            m.insert(h.name@, official_row(h))
        } else {
            m
        }
    }
}

/// A candidate of a VUR index: a package or subpackage name with its
/// description (the subpackage's own, else `<version> <build_style>`).
pub open spec fn vur_candidates(info: crate::metadata::VurInfoView) -> Seq<(Seq<char>, Seq<char>)> {
    let fallback = info.version + " "@ + match info.build_style {
        Some(b) => b,
        None => Seq::empty(),
    };
    seq![(info.pkgname, fallback)] + info.subpackages.map_values(
        |s: crate::metadata::SubpackageView|
            (
                s.pkgname,
                match s.short_desc {
                    Some(d) => d,
                    None => fallback,
                },
            ),
    )
}

/// Adds a VUR row unless a row at least as good is there.
pub open spec fn vur_step(m: Map<Seq<char>, RowView>, row: RowView) -> Map<Seq<char>, RowView> {
    if !m.dom().contains(row.name) || rank_num(row.rank) < rank_num(m[row.name].rank) {
        m.insert(row.name, row)
    } else {
        m
    }
}

pub open spec fn vur_row(repo: Seq<char>, has_binary: bool, info: crate::metadata::VurInfoView, c: (
    Seq<char>,
    Seq<char>,
)) -> RowView {
    RowView {
        name: c.0,
        pkgver: crate::upgrade::pkgver_of(info),
        desc: c.1,
        rank: if has_binary {
            Rank::VulBinary
        } else {
            Rank::Source
        },
        repo: if has_binary {
            "vur:"@ + repo
        } else {
            "vur-source:"@ + repo
        },
    }
}

/// Adds the matching candidates of one package, in order.
pub open spec fn cands_step(
    m: Map<Seq<char>, RowView>,
    words: Seq<Seq<char>>,
    repo: Seq<char>,
    has_binary: bool,
    info: crate::metadata::VurInfoView,
    cs: Seq<(Seq<char>, Seq<char>)>,
) -> Map<Seq<char>, RowView>
    decreases cs.len(),
{
    if cs.len() == 0 {
        m
    } else {
        let m1 = cands_step(m, words, repo, has_binary, info, cs.drop_last());
        let c = cs.last();
        if matches(words, c.0, c.1) {
            vur_step(m1, vur_row(repo, has_binary, info, c))
        } else {
            m1
        }
    }
}

/// Adds the packages of one repository, in order.
pub open spec fn infos_step(
    m: Map<Seq<char>, RowView>,
    words: Seq<Seq<char>>,
    repo: Seq<char>,
    has_binary: bool,
    infos: Seq<VurInfo>,
) -> Map<Seq<char>, RowView>
    decreases infos.len(),
{
    if infos.len() == 0 {
        m
    } else {
        let m1 = infos_step(m, words, repo, has_binary, infos.drop_last());
        cands_step(m1, words, repo, has_binary, infos.last()@, vur_candidates(infos.last()@))
    }
}

/// Adds the repositories (name, publishes binaries, packages), in
/// priority order.
pub open spec fn repos_step(
    m: Map<Seq<char>, RowView>,
    words: Seq<Seq<char>>,
    repos: Seq<(String, bool, Vec<VurInfo>)>,
) -> Map<Seq<char>, RowView>
    decreases repos.len(),
{
    if repos.len() == 0 {
        m
    } else {
        let m1 = repos_step(m, words, repos.drop_last());
        infos_step(m1, words, repos.last().0@, repos.last().1, repos.last().2@)
    }
}

/// The rows hold exactly the map `m`.
pub open spec fn rows_match(rows: Seq<(String, Row)>, m: Map<Seq<char>, RowView>) -> bool {
    &&& keyed_wf(rows)
    &&& as_map(rows).dom() == m.dom()
    &&& forall|k: Seq<char>| #[trigger] m.dom().contains(k) ==> as_map(rows)[k]@ == m[k]
}

/// Puts `row` under its name.
fn put_row(rows: &mut Vec<(String, Row)>, row: Row, Ghost(m): Ghost<Map<Seq<char>, RowView>>)
    requires
        rows_match(old(rows)@, m),
    ensures
        rows_match(final(rows)@, m.insert(row@.name, row@)),
{
    let ghost rv = row@;
    let key = row.name.clone();
    upsert_key(rows, key, row);
    proof {
        assert(as_map(rows@).dom() =~= m.insert(rv.name, rv).dom());
    }
}

fn opt_string(o: &Option<String>) -> (r: String)
    ensures
        r@ == opt_text(*o),
{
    match o {
        Some(s) => s.clone(),
        None => String::new(),
    }
}

/// Adds an official hit (the first hit for a name wins).
fn add_official(rows: &mut Vec<(String, Row)>, words: &Vec<String>, hit: &PkgInfo, Ghost(m): Ghost<
    Map<Seq<char>, RowView>,
>)
    requires
        rows_match(old(rows)@, m),
    ensures
        rows_match(
            final(rows)@,
            if official_shown(strs_view(words@), *hit) && !m.dom().contains(hit.name@) {
                m.insert(hit.name@, official_row(*hit))
            } else {
                m
            },
        ),
{
    let repo = opt_string(&hit.repository);
    let rc = chars_of(repo.as_str());
    if crate::text::str_contains(rc.as_slice(), "hostdir/binpkgs") || (rc.len() > 0 && rc[0] == '/') {
        return;
    }
    let desc = opt_string(&hit.short_desc);
    if !matches_words(words, hit.name.as_str(), desc.as_str()) {
        return;
    }
    match crate::keyed::get_key(rows, hit.name.as_str()) {
        Some(_) => {
            return;
        },
        None => {},
    }
    let label = if rc.len() == 0 {
        "official".to_string()
    } else {
        repo
    };
    let row = Row { name: hit.name.clone(), pkgver: hit.pkgver.clone(), desc, rank: Rank::Official, repo: label };
    put_row(rows, row, Ghost(m));
}

fn rank_value(r: Rank) -> (n: u8)
    ensures
        n as nat == rank_num(r),
{
    match r {
        Rank::Official => 0,
        Rank::VulBinary => 1,
        Rank::Source => 2,
    }
}

/// Adds a VUR row unless a row at least as good is there.
fn add_vur_row(rows: &mut Vec<(String, Row)>, row: Row, Ghost(m): Ghost<Map<Seq<char>, RowView>>)
    requires
        rows_match(old(rows)@, m),
    ensures
        rows_match(final(rows)@, vur_step(m, row@)),
{
    let better = match crate::keyed::get_key(rows, row.name.as_str()) {
        Some(existing) => rank_value(row.rank) < rank_value(existing.rank),
        None => true,
    };
    if better {
        put_row(rows, row, Ghost(m));
    }
}

/// The description of a candidate without one of its own.
fn fallback_desc(info: &VurInfo) -> (r: String)
    ensures
        r@ == info@.version + " "@ + match info@.build_style {
            Some(b) => b,
            None => Seq::<char>::empty(),
        },
{
    let mut d = info.version.clone();
    crate::text::push_str(&mut d, " ");
    let b = opt_string(&info.build_style);
    crate::text::push_str(&mut d, b.as_str());
    d
}

/// Adds the matching names of one VUR package.
fn add_vur_info(
    rows: &mut Vec<(String, Row)>,
    words: &Vec<String>,
    repo: &String,
    has_binary: bool,
    info: &VurInfo,
    Ghost(m): Ghost<Map<Seq<char>, RowView>>,
)
    requires
        rows_match(old(rows)@, m),
    ensures
        rows_match(
            final(rows)@,
            cands_step(m, strs_view(words@), repo@, has_binary, info@, vur_candidates(info@)),
        ),
{
    let ghost ws = strs_view(words@);
    let ghost cs = vur_candidates(info@);
    let fallback = fallback_desc(info);
    let pv = info.pkgver();
    let label = if has_binary {
        crate::text::concat("vur:", repo.as_str())
    } else {
        crate::text::concat("vur-source:", repo.as_str())
    };
    let rank = if has_binary {
        Rank::VulBinary
    } else {
        Rank::Source
    };
    proof {
        assert(cs.take(0) =~= Seq::<(Seq<char>, Seq<char>)>::empty());
        assert(cs.take(1).drop_last() =~= cs.take(0));
        assert(cs.take(1).last() == cs[0]);
        assert(cs[0] == (info@.pkgname, fallback@));
        assert(cands_step(m, ws, repo@, has_binary, info@, cs.take(0)) == m);
    }
    if matches_words(words, info.pkgname.as_str(), fallback.as_str()) {
        let row = Row { name: info.pkgname.clone(), pkgver: pv.clone(), desc: fallback.clone(), rank, repo: label.clone() };
        assert(row@ == vur_row(repo@, has_binary, info@, cs[0]));
        add_vur_row(rows, row, Ghost(m));
    }
    let mut k: usize = 0;
    while k < info.subpackages.len()
        invariant
            k <= info.subpackages@.len(),
            ws == strs_view(words@),
            cs == vur_candidates(info@),
            cs.len() == info.subpackages@.len() + 1,
            fallback@ == info@.version + " "@ + match info@.build_style {
                Some(b) => b,
                None => Seq::<char>::empty(),
            },
            pv@ == crate::upgrade::pkgver_of(info@),
            label@ == (if has_binary {
                "vur:"@ + repo@
            } else {
                "vur-source:"@ + repo@
            }),
            rank == (if has_binary {
                Rank::VulBinary
            } else {
                Rank::Source
            }),
            rows_match(rows@, cands_step(m, ws, repo@, has_binary, info@, cs.take(k as int + 1))),
        decreases info.subpackages@.len() - k,
    {
        let ghost mk = cands_step(m, ws, repo@, has_binary, info@, cs.take(k as int + 1));
        let sub = &info.subpackages[k];
        let desc = match &sub.short_desc {
            Some(x) => x.clone(),
            None => fallback.clone(),
        };
        let name = sub.pkgname.clone();
        proof {
            assert(cs[k as int + 1] == (name@, desc@));
            assert(cs.take(k as int + 2).drop_last() =~= cs.take(k as int + 1));
            assert(cs.take(k as int + 2).last() == cs[k as int + 1]);
        }
        if matches_words(words, name.as_str(), desc.as_str()) {
            let row = Row { name, pkgver: pv.clone(), desc, rank, repo: label.clone() };
            assert(row@ == vur_row(repo@, has_binary, info@, cs[k as int + 1]));
            add_vur_row(rows, row, Ghost(mk));
        }
        k = k + 1;
    }
    assert(cs.take(cs.len() as int) =~= cs);
}

/// The search: the pattern is the targets joined by spaces; official
/// hits first, then the VUR packages of each repository (name, whether it
/// publishes binaries, its packages), in priority order. The rows come
/// sorted by name; an empty pattern is refused.
pub fn search_rows(
    targets: &Vec<String>,
    official: &Vec<PkgInfo>,
    repos: &Vec<(String, bool, Vec<VurInfo>)>,
) -> (r: Result<Vec<(String, Row)>, String>)
    ensures
        ({
            let pattern = crate::text::join(string_views(targets@), " "@);
            let words = search_words_of(pattern);
            &&& r is Err <==> pattern.len() == 0
            &&& r matches Err(e) ==> e@ == "no search pattern specified"@
            &&& r matches Ok(rows) ==> rows_match(
                rows@,
                repos_step(official_rows(words, official@), words, repos@),
            )
        }),
{
    let pattern = crate::text::join_strings(targets, " ");
    if pattern.as_str().is_empty() {
        return Err("no search pattern specified".to_string());
    }
    let words = search_words(pattern.as_str());
    let ghost ws = strs_view(words@);
    let mut rows: Vec<(String, Row)> = Vec::new();
    proof {
        assert(as_map(rows@) =~= Map::<Seq<char>, Row>::empty());
        assert(keyed_wf(rows@)) by {
            assert(crate::keyed::keys_of(rows@) =~= Seq::<Seq<char>>::empty());
        }
        assert(official_rows(ws, official@.take(0)) =~= Map::<Seq<char>, RowView>::empty());
    }
    let mut i: usize = 0;
    while i < official.len()
        invariant
            i <= official@.len(),
            ws == strs_view(words@),
            rows_match(rows@, official_rows(ws, official@.take(i as int))),
        decreases official@.len() - i,
    {
        proof {
            assert(official@.take(i as int + 1).drop_last() =~= official@.take(i as int));
            assert(official@.take(i as int + 1).last() == official@[i as int]);
        }
        add_official(&mut rows, &words, &official[i], Ghost(official_rows(ws, official@.take(i as int))));
        i = i + 1;
    }
    assert(official@.take(official@.len() as int) =~= official@);
    let ghost m0 = official_rows(ws, official@);
    let mut j: usize = 0;
    while j < repos.len()
        invariant
            j <= repos@.len(),
            ws == strs_view(words@),
            rows_match(rows@, repos_step(m0, ws, repos@.take(j as int))),
        decreases repos@.len() - j,
    {
        let ghost mj = repos_step(m0, ws, repos@.take(j as int));
        let repo = &repos[j];
        let mut k: usize = 0;
        while k < repo.2.len()
            invariant
                k <= repo.2@.len(),
                ws == strs_view(words@),
                rows_match(rows@, infos_step(mj, ws, repo.0@, repo.1, repo.2@.take(k as int))),
            decreases repo.2@.len() - k,
        {
            proof {
                assert(repo.2@.take(k as int + 1).drop_last() =~= repo.2@.take(k as int));
                assert(repo.2@.take(k as int + 1).last() == repo.2@[k as int]);
            }
            add_vur_info(
                &mut rows,
                &words,
                &repo.0,
                repo.1,
                &repo.2[k],
                Ghost(infos_step(mj, ws, repo.0@, repo.1, repo.2@.take(k as int))),
            );
            k = k + 1;
        }
        proof {
            assert(repo.2@.take(repo.2@.len() as int) =~= repo.2@);
            assert(repos@.take(j as int + 1).drop_last() =~= repos@.take(j as int));
            assert(repos@.take(j as int + 1).last() == repos@[j as int]);
        }
        j = j + 1;
    }
    assert(repos@.take(repos@.len() as int) =~= repos@);
    Ok(rows)
}

proof fn lemma_cands_keep(
    m: Map<Seq<char>, RowView>,
    words: Seq<Seq<char>>,
    repo: Seq<char>,
    has_binary: bool,
    info: crate::metadata::VurInfoView,
    cs: Seq<(Seq<char>, Seq<char>)>,
    k: Seq<char>,
)
    requires
        m.dom().contains(k),
        m[k].rank == Rank::Official,
    ensures
        cands_step(m, words, repo, has_binary, info, cs).dom().contains(k),
        cands_step(m, words, repo, has_binary, info, cs)[k] == m[k],
    decreases cs.len(),
{
    if cs.len() > 0 {
        lemma_cands_keep(m, words, repo, has_binary, info, cs.drop_last(), k);
    }
}

proof fn lemma_infos_keep(
    m: Map<Seq<char>, RowView>,
    words: Seq<Seq<char>>,
    repo: Seq<char>,
    has_binary: bool,
    infos: Seq<VurInfo>,
    k: Seq<char>,
)
    requires
        m.dom().contains(k),
        m[k].rank == Rank::Official,
    ensures
        infos_step(m, words, repo, has_binary, infos).dom().contains(k),
        infos_step(m, words, repo, has_binary, infos)[k] == m[k],
    decreases infos.len(),
{
    if infos.len() > 0 {
        lemma_infos_keep(m, words, repo, has_binary, infos.drop_last(), k);
        let m1 = infos_step(m, words, repo, has_binary, infos.drop_last());
        lemma_cands_keep(m1, words, repo, has_binary, infos.last()@, vur_candidates(infos.last()@), k);
    }
}

/// An official package is never shadowed by a VUR package of the same
/// name: whatever the repositories hold, the row of a name that an
/// official hit matched is that official row.
pub proof fn lemma_official_wins(
    words: Seq<Seq<char>>,
    hits: Seq<PkgInfo>,
    repos: Seq<(String, bool, Vec<VurInfo>)>,
    k: Seq<char>,
)
    requires
        official_rows(words, hits).dom().contains(k),
    ensures
        repos_step(official_rows(words, hits), words, repos).dom().contains(k),
        repos_step(official_rows(words, hits), words, repos)[k] == official_rows(words, hits)[k],
        official_rows(words, hits)[k].rank == Rank::Official,
    decreases repos.len(),
{
    lemma_official_rank(words, hits, k);
    if repos.len() > 0 {
        lemma_official_wins(words, hits, repos.drop_last(), k);
        let m1 = repos_step(official_rows(words, hits), words, repos.drop_last());
        lemma_infos_keep(m1, words, repos.last().0@, repos.last().1, repos.last().2@, k);
    }
}

proof fn lemma_official_rank(words: Seq<Seq<char>>, hits: Seq<PkgInfo>, k: Seq<char>)
    requires
        official_rows(words, hits).dom().contains(k),
    ensures
        official_rows(words, hits)[k].rank == Rank::Official,
    decreases hits.len(),
{
    if hits.len() > 0 {
        let m = official_rows(words, hits.drop_last());
        if m.dom().contains(k) {
            lemma_official_rank(words, hits.drop_last(), k);
        }
    }
}

} // verus!
