//! Comparing a rebuilt package's file tree with the installed one.
//! Modes and mtimes are not compared (rebuild noise); contents (by hash)
//! and symlink targets are. Differences are reported, never enforced.
use vstd::prelude::*;
use crate::metadata::strs_view;
use crate::sorting::{sorted_unique, strictly_sorted};
use crate::text::{chars_of, decimal};
use crate::version::text_order;

verus! {

/// What a file holds: a content hash, or a symlink target.
#[derive(Debug)]
pub enum FileState {
    Content(String),
    Symlink(String),
}

/// A path of a tree and its state.
#[derive(Debug)]
pub struct TreeEntry {
    pub path: String,
    pub state: FileState,
}

#[derive(Debug, Clone, Copy, PartialEq, Eq, Structural)]
pub enum DivergenceKind {
    /// On disk but not in the artifact.
    Added,
    /// In the artifact but not on disk.
    Removed,
    /// In both, with other contents or another type.
    Changed,
}

/// A path where the rebuilt and the installed trees differ.
#[derive(Debug)]
pub struct Divergence {
    pub path: String,
    pub kind: DivergenceKind,
}

/// A state as a value: whether it is a symlink, and its text.
pub open spec fn state_view(s: FileState) -> (bool, Seq<char>) {
    match s {
        FileState::Content(h) => (false, h@),
        FileState::Symlink(t) => (true, t@),
    }
}

/// The state a tree gives `p` (the last entry for it counts).
pub open spec fn entry_state(es: Seq<TreeEntry>, p: Seq<char>) -> Option<(bool, Seq<char>)>
    decreases es.len(),
{
    if es.len() == 0 {
        None
    } else if es.last().path@ == p {
        Some(state_view(es.last().state))
    } else {
        entry_state(es.drop_last(), p)
    }
}

/// How `p` differs between the rebuilt and the installed tree.
pub open spec fn divergence_kind(built: Seq<TreeEntry>, installed: Seq<TreeEntry>, p: Seq<char>) -> Option<
    DivergenceKind,
> {
    match (entry_state(built, p), entry_state(installed, p)) {
        (Some(_), None) => Some(DivergenceKind::Removed),
        (Some(a), Some(b)) => if a != b {
            Some(DivergenceKind::Changed)
        } else {
            None
        },
        (None, Some(_)) => Some(DivergenceKind::Added),
        (None, None) => None,
    }
}

pub open spec fn divergence_paths(d: Seq<Divergence>) -> Seq<Seq<char>> {
    d.map_values(|x: Divergence| x.path@)
}

fn lookup_state(es: &[TreeEntry], p: &[char]) -> (r: Option<(bool, Vec<char>)>)
    ensures
        match entry_state(es@, p@) {
            Some((l, t)) => r matches Some((l2, t2)) && l2 == l && t2@ == t,
            None => r is None,
        },
{
    let mut i: usize = es.len();
    assert(es@.take(es@.len() as int) =~= es@);
    while i > 0
        invariant
            i <= es@.len(),
            entry_state(es@, p@) == entry_state(es@.take(i as int), p@),
        decreases i,
    {
        assert(es@.take(i as int).drop_last() =~= es@.take(i - 1));
        if crate::text::chars_eq(&chars_of(es[i - 1].path.as_str()), p) {
            return match &es[i - 1].state {
                FileState::Content(h) => Some((false, chars_of(h.as_str()))),
                FileState::Symlink(t) => Some((true, chars_of(t.as_str()))),
            };
        }
        i = i - 1;
    }
    None
}

/// Where the rebuilt tree and the installed one differ, one entry per path,
/// ascending by path.
pub fn compare_trees(built: &[TreeEntry], installed: &[TreeEntry]) -> (r: Vec<Divergence>)
    ensures
        strictly_sorted(divergence_paths(r@)),
        forall|i: int|
            0 <= i < r@.len() ==> divergence_kind(built@, installed@, #[trigger] r@[i].path@)
                == Some(r@[i].kind),
        forall|p: Seq<char>|
            #[trigger] divergence_kind(built@, installed@, p) is Some ==> divergence_paths(
                r@,
            ).contains(p),
{
    let mut all: Vec<String> = Vec::new();
    let mut i: usize = 0;
    while i < built.len()
        invariant
            i <= built@.len(),
            all@.len() == i,
            forall|m: int| 0 <= m < i ==> #[trigger] all@[m]@ == built@[m].path@,
        decreases built@.len() - i,
    {
        all.push(built[i].path.clone());
        i = i + 1;
    }
    let mut j: usize = 0;
    while j < installed.len()
        invariant
            j <= installed@.len(),
            all@.len() == built@.len() + j,
            forall|m: int| 0 <= m < built@.len() ==> #[trigger] all@[m]@ == built@[m].path@,
            forall|m: int|
                0 <= m < j ==> #[trigger] all@[built@.len() + m]@ == installed@[m].path@,
        decreases installed@.len() - j,
    {
        all.push(installed[j].path.clone());
        j = j + 1;
    }
    let paths = sorted_unique(&all);
    proof {
        assert forall|p: Seq<char>| #[trigger] divergence_kind(built@, installed@, p) is Some implies strs_view(paths@).contains(p) by {
            if entry_state(built@, p) is Some {
                let m = lemma_entry_state_some(built@, p);
                assert(strs_view(all@)[m] == p);
            } else {
                let m = lemma_entry_state_some(installed@, p);
                assert(strs_view(all@)[built@.len() + m] == p);
            }
        }
    }
    let mut out: Vec<Divergence> = Vec::new();
    let ghost mut idx: Seq<int> = Seq::empty();
    let mut k: usize = 0;
    while k < paths.len()
        invariant
            k <= paths@.len(),
            strictly_sorted(strs_view(paths@)),
            forall|p: Seq<char>|
                #[trigger] divergence_kind(built@, installed@, p) is Some ==> strs_view(
                    paths@,
                ).contains(p),
            idx.len() == out@.len(),
            forall|a: int| 0 <= a < out@.len() ==> 0 <= #[trigger] idx[a] < k && out@[a].path@ == paths@[idx[a]]@,
            forall|a: int, b: int| 0 <= a < b < out@.len() ==> idx[a] < idx[b],
            forall|i: int|
                0 <= i < out@.len() ==> divergence_kind(built@, installed@, #[trigger] out@[i].path@)
                    == Some(out@[i].kind),
            forall|m: int|
                0 <= m < k && #[trigger] divergence_kind(built@, installed@, paths@[m]@) is Some ==> exists|a: int|
                    0 <= a < out@.len() && idx[a] == m,
        decreases paths@.len() - k,
    {
        let p = chars_of(paths[k].as_str());
        let a = lookup_state(built, &p);
        let b = lookup_state(installed, &p);
        let kind = match (&a, &b) {
            (Some(_), None) => Some(DivergenceKind::Removed),
            (Some((la, ta)), Some((lb, tb))) => if *la != *lb || !crate::text::chars_eq(ta, tb) {
                Some(DivergenceKind::Changed)
            } else {
                None
            },
            (None, Some(_)) => Some(DivergenceKind::Added),
            (None, None) => None,
        };
        proof {
            assert(strs_view(paths@)[k as int] == paths@[k as int]@);
        }
        let ghost old_idx = idx;
        let ghost old_len = out@.len();
        match kind {
            Some(kd) => {
                proof {
                    idx = idx.push(k as int);
                }
                out.push(Divergence { path: paths[k].clone(), kind: kd });
            },
            None => {},
        }
        proof {
            assert(kind == divergence_kind(built@, installed@, paths@[k as int]@));
            assert forall|m: int|
                0 <= m < k + 1 && #[trigger] divergence_kind(built@, installed@, paths@[m]@) is Some implies exists|a: int|
                    0 <= a < out@.len() && idx[a] == m by {
                if m == k {
                    assert(idx[old_len as int] == m);
                } else {
                    let a = choose|a: int| 0 <= a < old_len && old_idx[a] == m;
                    assert(idx[a] == m);
                }
            }
        }
        k = k + 1;
    }
    proof {
        assert forall|a: int, b: int| 0 <= a < b < divergence_paths(out@).len() implies text_order(
            divergence_paths(out@)[a],
            divergence_paths(out@)[b],
        ) < 0 by {
            assert(strs_view(paths@)[idx[a]] == paths@[idx[a]]@);
            assert(strs_view(paths@)[idx[b]] == paths@[idx[b]]@);
        }
        assert forall|p: Seq<char>| #[trigger] divergence_kind(built@, installed@, p) is Some implies divergence_paths(out@).contains(p) by {
            let m = choose|m: int| 0 <= m < strs_view(paths@).len() && strs_view(paths@)[m] == p;
            assert(strs_view(paths@)[m] == paths@[m]@);
            let a = choose|a: int| 0 <= a < out@.len() && idx[a] == m;
            assert(divergence_paths(out@)[a] == p);
        }
    }
    out
}

/// An entry that gives `p` its state.
proof fn lemma_entry_state_some(es: Seq<TreeEntry>, p: Seq<char>) -> (m: int)
    requires
        entry_state(es, p) is Some,
    ensures
        0 <= m < es.len(),
        es[m].path@ == p,
    decreases es.len(),
{
    if es.last().path@ == p {
        es.len() - 1
    } else {
        let m = lemma_entry_state_some(es.drop_last(), p);
        assert(es.drop_last()[m] == es[m]);
        m
    }
}

// ------------------------------------------------------------------
// Reading the trees
// ------------------------------------------------------------------

/// Bytes as lowercase hexadecimal (`{:x}` of a digest).
pub open spec fn hex_string(bytes: Seq<u8>) -> Seq<char>
    decreases bytes.len(),
{
    if bytes.len() == 0 {
        Seq::empty()
    } else {
        hex_string(bytes.drop_last()) + crate::keys::hex_pair(bytes.last())
    }
}

/// The SHA-256 of `bytes` in lowercase hexadecimal.
pub fn sha256_hex(bytes: &[u8]) -> (r: String)
    ensures
        r@ == hex_string(crate::keys::sha256_digest(bytes@)),
{
    let d = crate::keys::sha256_of(bytes);
    let mut r = String::new();
    let mut i: usize = 0;
    while i < d.len()
        invariant
            i <= d@.len(),
            r@ == hex_string(d@.take(i as int)),
        decreases d@.len() - i,
    {
        let b = d[i];
        crate::text::push_char(&mut r, crate::keys::hex_digit_exec(b / 16));
        crate::text::push_char(&mut r, crate::keys::hex_digit_exec(b % 16));
        proof {
            assert(d@.take(i as int + 1).drop_last() =~= d@.take(i as int));
            assert(d@.take(i as int + 1).last() == b);
            assert(r@ =~= hex_string(d@.take(i as int + 1)));
        }
        i = i + 1;
    }
    assert(d@.take(d@.len() as int) =~= d@);
    r
}

/// What a member of an archive, or a listed path on disk, is.
#[derive(Debug, Clone, Copy, PartialEq, Eq, Structural)]
pub enum MemberKind {
    File,
    Symlink,
    Other,
}

/// `s` without the leading repetitions of `p`.
pub open spec fn strip_leading(s: Seq<char>, p: Seq<char>) -> Seq<char>
    decreases s.len(),
{
    if p.len() > 0 && crate::text::has_prefix(s, p) {
        strip_leading(s.subrange(p.len() as int, s.len() as int), p)
    } else {
        s
    }
}

/// An archive member's path as an absolute path: `./usr/x` and `usr/x`
/// both become `/usr/x`.
pub open spec fn member_path_of(raw: Seq<char>) -> Seq<char> {
    "/"@ + strip_leading(strip_leading(raw, "./"@), "/"@)
}

pub fn member_path(raw: &str) -> (r: String)
    ensures
        r@ == member_path_of(raw@),
{
    let cs = chars_of(raw);
    let dot = chars_of("./");
    let slash = chars_of("/");
    proof {
        reveal_strlit("./");
        reveal_strlit("/");
    }
    assert(cs@.subrange(0, cs@.len() as int) =~= raw@);
    let mut i: usize = 0;
    while cs.len() - i >= 2 && cs[i] == '.' && cs[i + 1] == '/'
        invariant
            i <= cs@.len(),
            dot@ == "./"@,
            strip_leading(cs@.subrange(i as int, cs@.len() as int), "./"@) == strip_leading(raw@, "./"@),
        decreases cs@.len() - i,
    {
        proof {
            reveal_strlit("./");
            let w = cs@.subrange(i as int, cs@.len() as int);
            assert(w.subrange(0, 2) =~= "./"@);
            assert(w.subrange(2, w.len() as int) =~= cs@.subrange(i as int + 2, cs@.len() as int));
        }
        i = i + 2;
    }
    proof {
        reveal_strlit("./");
        let w = cs@.subrange(i as int, cs@.len() as int);
        if crate::text::has_prefix(w, "./"@) {
            assert(w.subrange(0, 2) == "./"@);
            assert(w[0] == w.subrange(0, 2)[0] && w[1] == w.subrange(0, 2)[1]);
            assert("./"@[0] == '.' && "./"@[1] == '/');
            assert(w[0] == '.' && w[1] == '/');
            assert(cs@[i as int] == '.');
        }
        assert(cs@.subrange(0, cs@.len() as int) =~= raw@);
    }
    let mut j = i;
    while j < cs.len() && cs[j] == '/'
        invariant
            i <= j <= cs@.len(),
            strip_leading(cs@.subrange(j as int, cs@.len() as int), "/"@) == strip_leading(
                cs@.subrange(i as int, cs@.len() as int),
                "/"@,
            ),
        decreases cs@.len() - j,
    {
        proof {
            reveal_strlit("/");
            let w = cs@.subrange(j as int, cs@.len() as int);
            assert(w.subrange(0, 1) =~= "/"@);
            assert(w.subrange(1, w.len() as int) =~= cs@.subrange(j as int + 1, cs@.len() as int));
        }
        j = j + 1;
    }
    proof {
        reveal_strlit("/");
        reveal_strlit("./");
        let w = cs@.subrange(j as int, cs@.len() as int);
        if crate::text::has_prefix(w, "/"@) {
            assert(w.subrange(0, 1) == "/"@);
            assert(w[0] == w.subrange(0, 1)[0]);
            assert("/"@[0] == '/');
            assert(w[0] == '/');
        }
        assert(strip_leading(cs@.subrange(i as int, cs@.len() as int), "./"@) == cs@.subrange(i as int, cs@.len() as int));
    }
    let rest = crate::text::slice_vec(cs.as_slice(), j, cs.len());
    let mut r = "/".to_string();
    let t = crate::text::string_from(rest.as_slice());
    crate::text::push_str(&mut r, t.as_str());
    r
}

/// The members of a package archive that are its metadata, never
/// installed as files.
pub open spec fn is_meta_member(path: Seq<char>) -> bool {
    path == "/props.plist"@ || path == "/files.plist"@ || path == "/INSTALL"@ || path == "/REMOVE"@
}

/// The tree entry of an archive member: metadata members, directories and
/// special files have none; a file is known by the hash of its bytes, a
/// symlink by its target.
pub open spec fn built_entry_of(raw: Seq<char>, kind: MemberKind, link: Option<Seq<char>>, data: Seq<u8>) -> Option<
    (Seq<char>, (bool, Seq<char>)),
> {
    let path = member_path_of(raw);
    if is_meta_member(path) {
        None
    } else {
        match kind {
            MemberKind::Symlink => Some(
                (
                    path,
                    (
                        true,
                        match link {
                            Some(l) => l,
                            None => Seq::empty(),
                        },
                    ),
                ),
            ),
            MemberKind::File => Some((path, (false, hex_string(crate::keys::sha256_digest(data))))),
            MemberKind::Other => None,
        }
    }
}

pub open spec fn entry_view(e: TreeEntry) -> (Seq<char>, (bool, Seq<char>)) {
    (e.path@, state_view(e.state))
}

pub fn built_entry(raw: &str, kind: MemberKind, link: Option<&str>, data: &[u8]) -> (r: Option<TreeEntry>)
    ensures
        match r {
            Some(e) => built_entry_of(raw@, kind, crate::repo::opt_str(link), data@) == Some(entry_view(e)),
            None => built_entry_of(raw@, kind, crate::repo::opt_str(link), data@) is None,
        },
{
    let path = member_path(raw);
    let pc = chars_of(path.as_str());
    if crate::text::str_is(pc.as_slice(), "/props.plist") || crate::text::str_is(pc.as_slice(), "/files.plist")
        || crate::text::str_is(pc.as_slice(), "/INSTALL") || crate::text::str_is(pc.as_slice(), "/REMOVE") {
        return None;
    }
    match kind {
        MemberKind::Symlink => {
            let target = match link {
                Some(l) => l.to_owned(),
                None => String::new(),
            };
            Some(TreeEntry { path, state: FileState::Symlink(target) })
        },
        MemberKind::File => Some(TreeEntry { path, state: FileState::Content(sha256_hex(data)) }),
        MemberKind::Other => None,
    }
}

/// The tree entry of a path `xbps-query -f` lists: blank lines and paths
/// that are neither files nor symlinks, or could not be read, have none.
pub open spec fn installed_entry_of(line: Seq<char>, kind: MemberKind, link: Option<Seq<char>>, data: Option<Seq<u8>>) -> Option<
    (Seq<char>, (bool, Seq<char>)),
> {
    let p = crate::text::trim(line);
    if p.len() == 0 {
        None
    } else {
        match kind {
            MemberKind::Symlink => Some(
                (
                    p,
                    (
                        true,
                        match link {
                            Some(l) => l,
                            None => Seq::empty(),
                        },
                    ),
                ),
            ),
            MemberKind::File => match data {
                Some(d) => Some((p, (false, hex_string(crate::keys::sha256_digest(d))))),
                None => None,
            },
            MemberKind::Other => None,
        }
    }
}

pub fn installed_entry(line: &str, kind: MemberKind, link: Option<&str>, data: Option<&[u8]>) -> (r: Option<TreeEntry>)
    ensures
        match r {
            Some(e) => installed_entry_of(
                line@,
                kind,
                crate::repo::opt_str(link),
                match data {
                    Some(d) => Some(d@),
                    None => None,
                },
            ) == Some(entry_view(e)),
            None => installed_entry_of(
                line@,
                kind,
                crate::repo::opt_str(link),
                match data {
                    Some(d) => Some(d@),
                    None => None,
                },
            ) is None,
        },
{
    let p = crate::text::trim_string(line);
    if p.as_str().is_empty() {
        return None;
    }
    match kind {
        MemberKind::Symlink => {
            let target = match link {
                Some(l) => l.to_owned(),
                None => String::new(),
            };
            Some(TreeEntry { path: p, state: FileState::Symlink(target) })
        },
        MemberKind::File => match data {
            Some(d) => Some(TreeEntry { path: p, state: FileState::Content(sha256_hex(d)) }),
            None => None,
        },
        MemberKind::Other => None,
    }
}

// ------------------------------------------------------------------
// The command
// ------------------------------------------------------------------

/// Why `--challenge` refuses a package, if it does: it needs
/// `--experimental`, a package vary manages, built from source, whose
/// repository is configured.
pub open spec fn challenge_refusal(
    experimental: bool,
    pkg: Seq<char>,
    entry: Option<crate::db::Entry>,
    repo_configured: bool,
) -> Option<Seq<char>> {
    if !experimental {
        Some(
            "challenge requiere --experimental (P1-2 en validación: la comparación es informativa y el rebuild muta binpkgs)"@,
        )
    } else {
        match entry {
            None => Some("'"@ + pkg + "' no está gestionado por vary (sin entrada en installed.json)"@),
            Some(e) => if e.install_type != crate::db::InstallType::Source {
                Some(
                    "challenge solo aplica a paquetes compilados desde fuente (esto es "@ + crate::why::install_type_name(
                        e.install_type,
                    ) + ")"@,
                )
            } else if !repo_configured {
                Some("repo '"@ + e.vur@ + "' sin entrada en repos.conf"@)
            } else {
                None
            },
        }
    }
}

pub fn challenge_precheck(experimental: bool, pkg: &str, entry: Option<&crate::db::Entry>, repo_configured: bool) -> (r:
    Result<(), String>)
    ensures
        match challenge_refusal(
            experimental,
            pkg@,
            match entry {
                Some(e) => Some(*e),
                None => None,
            },
            repo_configured,
        ) {
            Some(m) => r matches Err(x) && x@ == m,
            None => r is Ok,
        },
{
    if !experimental {
        return Err(
            "challenge requiere --experimental (P1-2 en validación: la comparación es informativa y el rebuild muta binpkgs)".to_string(),
        );
    }
    match entry {
        None => Err(crate::text::concat3("'", pkg, "' no está gestionado por vary (sin entrada en installed.json)")),
        Some(e) => {
            match e.install_type {
                crate::db::InstallType::Binary => {
                    return Err(
                        crate::text::concat3(
                            "challenge solo aplica a paquetes compilados desde fuente (esto es ",
                            "Binary",
                            ")",
                        ),
                    );
                },
                crate::db::InstallType::Source => {},
            }
            if !repo_configured {
                return Err(crate::text::concat3("repo '", e.vur.as_str(), "' sin entrada en repos.conf"));
            }
            Ok(())
        },
    }
}

pub open spec fn kind_label(k: DivergenceKind) -> Seq<char> {
    match k {
        DivergenceKind::Added => "añadido-en-disco"@,
        DivergenceKind::Removed => "falta-en-disco"@,
        DivergenceKind::Changed => "cambiado"@,
    }
}

/// The report: no divergences with the number of files compared, or the
/// count, the artifact, the first 50 divergences and how many more.
pub open spec fn challenge_report(pkg: Seq<char>, compared: nat, d: Seq<Divergence>, artifact: Seq<char>) -> Seq<
    Seq<char>,
> {
    if d.len() == 0 {
        seq!["challenge "@ + pkg + ": sin divergencias ("@ + decimal(compared) + " ficheros comparados)"@]
    } else {
        seq![
            "challenge "@ + pkg + ": "@ + decimal(d.len()) + " divergencias (rebuild "@ + artifact
                + " vs instalado):"@,
        ] + d.take(if d.len() < 50 {
            d.len() as int
        } else {
            50
        }).map_values(|x: Divergence| "  ["@ + kind_label(x.kind) + "] "@ + x.path@) + (if d.len() > 50 {
            seq!["  ... y "@ + decimal((d.len() - 50) as nat) + " más"@]
        } else {
            Seq::empty()
        })
    }
}

pub fn challenge_report_lines(pkg: &str, compared: usize, divergences: &Vec<Divergence>, artifact: &str) -> (r: Vec<
    String,
>)
    ensures
        strs_view(r@) == challenge_report(pkg@, compared as nat, divergences@, artifact@),
{
    let mut r: Vec<String> = Vec::new();
    if divergences.len() == 0 {
        let mut l = crate::text::concat3("challenge ", pkg, ": sin divergencias (");
        let n = crate::text::decimal_string(compared as u64);
        crate::text::push_str(&mut l, n.as_str());
        crate::text::push_str(&mut l, " ficheros comparados)");
        r.push(l);
        assert(strs_view(r@) =~= challenge_report(pkg@, compared as nat, divergences@, artifact@));
        return r;
    }
    let mut l = crate::text::concat3("challenge ", pkg, ": ");
    let n = crate::text::decimal_string(divergences.len() as u64);
    crate::text::push_str(&mut l, n.as_str());
    crate::text::push_str(&mut l, " divergencias (rebuild ");
    crate::text::push_str(&mut l, artifact);
    crate::text::push_str(&mut l, " vs instalado):");
    r.push(l);
    let ghost head = strs_view(r@);
    assert(head =~= seq![
        "challenge "@ + pkg@ + ": "@ + decimal(divergences@.len()) + " divergencias (rebuild "@ + artifact@
            + " vs instalado):"@,
    ]);
    let shown: usize = if divergences.len() < 50 {
        divergences.len()
    } else {
        50
    };
    let ghost f = |x: Divergence| "  ["@ + kind_label(x.kind) + "] "@ + x.path@;
    let mut i: usize = 0;
    while i < shown
        invariant
            i <= shown <= divergences@.len(),
            f == (|x: Divergence| "  ["@ + kind_label(x.kind) + "] "@ + x.path@),
            strs_view(r@) == head + divergences@.take(i as int).map_values(f),
        decreases shown - i,
    {
        let d = &divergences[i];
        let label = match d.kind {
            DivergenceKind::Added => "añadido-en-disco",
            DivergenceKind::Removed => "falta-en-disco",
            DivergenceKind::Changed => "cambiado",
        };
        let mut line = crate::text::concat3("  [", label, "] ");
        crate::text::push_str(&mut line, d.path.as_str());
        let ghost before = strs_view(r@);
        r.push(line);
        proof {
            let dv = divergences@;
            assert(dv.take(i as int + 1) =~= dv.take(i as int).push(dv[i as int]));
            assert(dv.take(i as int + 1).map_values(f) =~= dv.take(i as int).map_values(f).push(f(dv[i as int])));
            assert(strs_view(r@) =~= before.push(f(dv[i as int])));
        }
        i = i + 1;
    }
    let ghost body = strs_view(r@);
    if divergences.len() > 50 {
        let mut m = "  ... y ".to_string();
        let k = crate::text::decimal_string((divergences.len() - 50) as u64);
        crate::text::push_str(&mut m, k.as_str());
        crate::text::push_str(&mut m, " más");
        r.push(m);
    }
    proof {
        let dv = divergences@;
        assert(shown as int == (if dv.len() < 50 {
            dv.len() as int
        } else {
            50
        }));
        assert(body == head + dv.take(shown as int).map_values(f));
        assert(strs_view(r@) =~= body + (if dv.len() > 50 {
            seq!["  ... y "@ + decimal((dv.len() - 50) as nat) + " más"@]
        } else {
            Seq::empty()
        }));
        assert(strs_view(r@) =~= challenge_report(pkg@, compared as nat, divergences@, artifact@));
    }
    r
}

// ------------------------------------------------------------------
// Reading a built artifact
// ------------------------------------------------------------------

/// What `ruzstd`'s streaming decoder reads out of `data` (one zstd frame),
/// or `None` when it refuses the data.
pub uninterp spec fn zstd_decoded(data: Seq<u8>) -> Option<Seq<u8>>;

/// `ruzstd::decoding::StreamingDecoder` read to the end: the decompressed
/// bytes of `data`, or `None` where the decoder fails. The contract names
/// the result and says nothing of the zstd format.
#[verifier::external_body]
fn zstd_decode(data: &[u8]) -> (r: Option<Vec<u8>>)
    ensures
        match r {
            Some(v) => zstd_decoded(data@) == Some(v@),
            None => zstd_decoded(data@) is None,
        },
{
    let mut decoder = ruzstd::decoding::StreamingDecoder::new(data).ok()?;
    let mut out = Vec::new();
    std::io::Read::read_to_end(&mut decoder, &mut out).ok()?;
    Some(out)
}

/// The members `tar::Archive::entries` walks in `data`, in archive order:
/// path (lossily as text), kind, link target and contents; `None` when the
/// archive or one of its members cannot be read.
pub uninterp spec fn tar_members(data: Seq<u8>) -> Option<Seq<(Seq<char>, MemberKind, Option<Seq<char>>, Seq<u8>)>>;

/// A member as a value.
pub open spec fn member_view(m: (String, MemberKind, Option<String>, Vec<u8>)) -> (Seq<char>, MemberKind, Option<Seq<char>>, Seq<u8>) {
    (m.0@, m.1, crate::metadata::opt_view(m.2), m.3@)
}

pub open spec fn members_view(v: Seq<(String, MemberKind, Option<String>, Vec<u8>)>) -> Seq<(Seq<char>, MemberKind, Option<Seq<char>>, Seq<u8>)> {
    v.map_values(|m: (String, MemberKind, Option<String>, Vec<u8>)| member_view(m))
}

/// `tar::Archive::entries` over `data`: each member's `path`, its type
/// (symlink, regular file or other), its `link_name` and its contents read
/// to the end. The contract names the result and says nothing of the tar
/// format.
#[verifier::external_body]
fn tar_entries(data: &[u8]) -> (r: Option<Vec<(String, MemberKind, Option<String>, Vec<u8>)>>)
    ensures
        match r {
            Some(v) => tar_members(data@) == Some(members_view(v@)),
            None => tar_members(data@) is None,
        },
{
    let mut out = Vec::new();
    for e in tar::Archive::new(data).entries().ok()? {
        let mut e = e.ok()?;
        let path = e.path().ok()?.to_string_lossy().to_string();
        let t = e.header().entry_type();
        let kind = if t.is_symlink() { MemberKind::Symlink } else if t.is_file() { MemberKind::File } else { MemberKind::Other };
        let link = e.link_name().ok()?.map(|l| l.to_string_lossy().to_string());
        let mut bytes = Vec::new();
        std::io::Read::read_to_end(&mut e, &mut bytes).ok()?;
        out.push((path, kind, link, bytes));
    }
    Some(out)
}

/// The tree of a built artifact from its members: the entries
/// [`built_entry_of`] gives, in archive order.
pub open spec fn built_entries_of(ms: Seq<(Seq<char>, MemberKind, Option<Seq<char>>, Seq<u8>)>) -> Seq<(Seq<char>, (bool, Seq<char>))>
    decreases ms.len(),
{
    if ms.len() == 0 {
        Seq::empty()
    } else {
        let prev = built_entries_of(ms.drop_last());
        let m = ms.last();
        match built_entry_of(m.0, m.1, m.2, m.3) {
            Some(e) => prev.push(e),
            None => prev,
        }
    }
}

pub open spec fn entries_view(v: Seq<TreeEntry>) -> Seq<(Seq<char>, (bool, Seq<char>))> {
    v.map_values(|e: TreeEntry| entry_view(e))
}

/// What reading the artifact `name` with contents `archive` gives: its
/// tree, or why it cannot be read.
pub open spec fn built_tree_of(name: Seq<char>, archive: Seq<u8>) -> Result<Seq<(Seq<char>, (bool, Seq<char>))>, Seq<char>> {
    match zstd_decoded(archive) {
        None => Err("decodificando zstd de "@ + name),
        Some(d) => match tar_members(d) {
            None => Err("leyendo tar de "@ + name),
            Some(ms) => Ok(built_entries_of(ms)),
        },
    }
}

/// Reads the file tree of a built `.xbps` (a zstd-compressed tar) from its
/// bytes (see [`built_tree_of`]).
pub fn built_tree(name: &str, archive: &[u8]) -> (r: Result<Vec<TreeEntry>, String>)
    ensures
        match built_tree_of(name@, archive@) {
            Ok(t) => r matches Ok(v) && entries_view(v@) == t,
            Err(m) => r matches Err(e) && e@ == m,
        },
{
    let data = match zstd_decode(archive) {
        Some(d) => d,
        None => {
            return Err(crate::text::concat("decodificando zstd de ", name));
        },
    };
    let ms = match tar_entries(data.as_slice()) {
        Some(ms) => ms,
        None => {
            return Err(crate::text::concat("leyendo tar de ", name));
        },
    };
    let ghost mv = members_view(ms@);
    let mut out: Vec<TreeEntry> = Vec::new();
    let mut i: usize = 0;
    while i < ms.len()
        invariant
            i <= ms@.len(),
            mv == members_view(ms@),
            entries_view(out@) == built_entries_of(mv.take(i as int)),
        decreases ms@.len() - i,
    {
        proof {
            assert(mv.take(i as int + 1).drop_last() =~= mv.take(i as int));
            assert(mv.take(i as int + 1).last() == member_view(ms@[i as int]));
        }
        let link: Option<&str> = match &ms[i].2 {
            Some(l) => Some(l.as_str()),
            None => None,
        };
        let ghost o = out@;
        match built_entry(ms[i].0.as_str(), ms[i].1, link, ms[i].3.as_slice()) {
            Some(e) => {
                out.push(e);
                assert(entries_view(out@) =~= entries_view(o).push(entry_view(out@[out@.len() - 1])));
            },
            None => {},
        }
        i = i + 1;
    }
    assert(mv.take(ms@.len() as int) =~= mv);
    Ok(out)
}

} // verus!
