//! The void-packages checkout and its build workers.
//!
//! Builds run inside `xbps-src`'s own sandbox; this module derives the
//! paths, decides the `xbps-src` invocations and interprets their exit
//! codes, and decides whether parallel workers may be used.
use vstd::prelude::*;
use crate::metadata::strs_view;
use crate::paths::{join_path, path_join};
use crate::signal::MountCleanup;
use crate::text::{chars_of, decimal, decimal_string, is_ascii_digit, lines, lines_of, split_ws, split_ws_of, str_is, views};
use crate::version::text_order;

verus! {

pub const VOID_PACKAGES_URL: &'static str = "https://github.com/void-linux/void-packages";

/// Free space the cache must have before parallel workers are tried.
pub const MIN_FREE_BYTES_FOR_WORKERS: u64 = 1073741824;

/// The local void-packages checkout.
#[derive(Debug)]
pub struct Masterdir {
    /// Path of the checkout.
    pub path: String,
    /// Where `xbps-src` output goes while a spinner runs; `None` keeps the
    /// terminal.
    pub log_file: Option<String>,
}

/// An `xbps-src` run: `./xbps-src args...` in `dir`, with `XBPS_MAKEJOBS`
/// set when `makejobs` is given, output to `log_file` when given.
#[derive(Debug)]
pub struct XbpsSrcRun {
    pub dir: String,
    pub args: Vec<String>,
    pub makejobs: Option<usize>,
    pub log_file: Option<String>,
}

/// `Path::exists`.
#[verifier::external_body]
fn path_exists(p: &str) -> bool {
    std::path::Path::new(p).exists()
}

fn run_of(md: &Masterdir, args: Vec<String>, makejobs: Option<usize>) -> (r: XbpsSrcRun)
    ensures
        r.dir@ == md.path@,
        r.args@ == args@,
        r.makejobs == makejobs,
        crate::metadata::opt_view(r.log_file) == crate::metadata::opt_view(md.log_file),
{
    XbpsSrcRun {
        dir: md.path.clone(),
        args,
        makejobs,
        log_file: crate::metadata::clone_opt_string(&md.log_file),
    }
}

impl XbpsSrcRun {
    /// Outcome of the run from its exit code: `what` names the run in
    /// the error (`pkg foo`, `binary-bootstrap`).
    pub fn outcome(what: &str, code: i32) -> (r: Result<(), String>)
        ensures
            r is Ok <==> code == 0,
    {
        if code == 0 {
            Ok(())
        } else {
            let mut s = "xbps-src ".to_owned();
            crate::text::push_str(&mut s, what);
            crate::text::push_str(&mut s, " terminó con código ");
            let c = crate::text::decimal_string_i32(code);
            crate::text::push_str(&mut s, c.as_str());
            Err(s)
        }
    }
}

impl Masterdir {
    pub fn new(void_packages_dir: &str) -> (r: Self)
        ensures
            r.path@ == void_packages_dir@,
            r.log_file is None,
    {
        Masterdir { path: void_packages_dir.to_owned(), log_file: None }
    }

    /// Whether the build sandbox (`<checkout>/masterdir`) exists; what is
    /// on disk decides, so nothing is promised of the answer.
    pub fn bootstrapped(&self) -> bool {
        let p = path_join(self.path.as_str(), "masterdir");
        path_exists(p.as_str())
    }

    /// `./xbps-src binary-bootstrap`: installs the base toolchain in the
    /// sandbox.
    pub fn binary_bootstrap(&self) -> (r: XbpsSrcRun)
        ensures
            r.dir@ == self.path@,
            strs_view(r.args@) == seq!["binary-bootstrap"@],
            r.makejobs is None,
    {
        let args = vec!["binary-bootstrap".to_owned()];
        assert(strs_view(args@) =~= seq!["binary-bootstrap"@]);
        run_of(self, args, None)
    }

    pub fn srcpkgs_dir(&self) -> (r: String)
        ensures
            r@ == join_path(self.path@, "srcpkgs"@),
    {
        path_join(self.path.as_str(), "srcpkgs")
    }

    /// Root of the local binary repository (without arch).
    pub fn hostdir_binpkgs_root(&self) -> (r: String)
        ensures
            r@ == join_path(join_path(self.path@, "hostdir"@), "binpkgs"@),
    {
        let h = path_join(self.path.as_str(), "hostdir");
        path_join(h.as_str(), "binpkgs")
    }

    /// Build one package: `./xbps-src pkg <pkg>` with `makejobs` jobs; a
    /// pending termination signal stops it before it starts.
    pub fn build_pkg(&self, pkg: &str, makejobs: usize, shutting_down: bool) -> (r: Result<
        XbpsSrcRun,
        String,
    >)
        ensures
            r is Err <==> shutting_down,
            r matches Ok(run) ==> run.dir@ == self.path@ && strs_view(run.args@) == seq![
                "pkg"@,
                pkg@,
            ] && run.makejobs == Some(makejobs),
    {
        if shutting_down {
            let mut s = "interrumpido por señal antes de compilar ".to_owned();
            crate::text::push_str(&mut s, pkg);
            return Err(s);
        }
        let args = vec!["pkg".to_owned(), pkg.to_owned()];
        assert(strs_view(args@) =~= seq!["pkg"@, pkg@]);
        Ok(run_of(self, args, Some(makejobs)))
    }

    /// Only fetch the sources: `./xbps-src fetch <pkg>`.
    pub fn fetch_pkg(&self, pkg: &str) -> (r: XbpsSrcRun)
        ensures
            r.dir@ == self.path@,
            strs_view(r.args@) == seq!["fetch"@, pkg@],
            r.makejobs is None,
    {
        let args = vec!["fetch".to_owned(), pkg.to_owned()];
        assert(strs_view(args@) =~= seq!["fetch"@, pkg@]);
        run_of(self, args, None)
    }
}

/// Whether a `/proc/filesystems` text lists `overlay` (one filesystem per
/// line, optionally after `nodev`).
pub open spec fn overlay_listed(text: Seq<char>) -> bool {
    exists|i: int, j: int|
        0 <= i < lines(text).len() && 0 <= j < split_ws(lines(text)[i]).len() && split_ws(
            lines(text)[i],
        )[j] == "overlay"@
}

pub fn overlay_in_filesystems(text: &str) -> (r: bool)
    ensures
        r == overlay_listed(text@),
{
    let cs = chars_of(text);
    let ls = lines_of(&cs);
    let mut i: usize = 0;
    while i < ls.len()
        invariant
            i <= ls@.len(),
            cs@ == text@,
            views(ls@) == lines(text@),
            forall|a: int, j: int|
                0 <= a < i && 0 <= j < split_ws(lines(text@)[a]).len() ==> split_ws(lines(text@)[a])[j]
                    != "overlay"@,
        decreases ls@.len() - i,
    {
        let ws = split_ws_of(&ls[i]);
        let mut j: usize = 0;
        while j < ws.len()
            invariant
                j <= ws@.len(),
                i < ls@.len(),
                views(ls@) == lines(text@),
                views(ws@) == split_ws(ls@[i as int]@),
                forall|b: int| 0 <= b < j ==> split_ws(lines(text@)[i as int])[b] != "overlay"@,
            decreases ws@.len() - j,
        {
            assert(views(ls@)[i as int] == ls@[i as int]@);
            assert(views(ws@)[j as int] == ws@[j as int]@);
            if str_is(&ws[j], "overlay") {
                return true;
            }
            j = j + 1;
        }
        proof {
            assert(views(ls@)[i as int] == ls@[i as int]@);
        }
        i = i + 1;
    }
    false
}

/// Build slots: more than one only when experimental features are on and
/// more than one build is allowed, never more than the cores (at least 1).
pub open spec fn build_slots(experimental: bool, max_concurrent: u32, nproc: usize) -> int {
    if !experimental || max_concurrent <= 1 {
        1
    } else {
        let cap = if nproc < 1 {
            1
        } else {
            nproc as int
        };
        if (max_concurrent as int) < cap {
            max_concurrent as int
        } else {
            cap
        }
    }
}

pub fn effective_build_slots(experimental: bool, max_concurrent: u32, nproc: usize) -> (r: usize)
    ensures
        r == build_slots(experimental, max_concurrent, nproc),
{
    if !experimental || max_concurrent <= 1 {
        return 1;
    }
    let cap: usize = if nproc < 1 {
        1
    } else {
        nproc
    };
    let m: u64 = max_concurrent as u64;
    if m < cap as u64 {
        max_concurrent as usize
    } else {
        cap
    }
}

/// Whether parallel workers may run, from already-read facts: an overlay
/// filesystem and at least 1 GiB free. `Err` gives the reason to stay
/// sequential.
pub fn check_parallel_prereqs(free: Option<u64>, overlay: bool) -> (r: Result<(), String>)
    ensures
        r is Ok <==> (overlay && (free matches Some(b) && b >= MIN_FREE_BYTES_FOR_WORKERS)),
{
    if !overlay {
        return Err("sin overlayfs en el kernel; builds secuenciales".to_owned());
    }
    match free {
        Some(b) => {
            if b >= MIN_FREE_BYTES_FOR_WORKERS {
                Ok(())
            } else {
                let mut s = "espacio libre en caché (".to_owned();
                let n = decimal_string(b);
                crate::text::push_str(&mut s, n.as_str());
                crate::text::push_str(&mut s, " B) bajo el mínimo de 1 GiB; builds secuenciales");
                Err(s)
            }
        },
        None => Err("espacio libre indetectable; builds secuenciales".to_owned()),
    }
}

/// A build worker: an overlay over the shared checkout.
#[derive(Debug)]
pub struct WorkerSandbox {
    /// Root of the checkout as the worker sees it.
    pub merged: String,
    pub slot_dir: String,
    pub cleanup: Option<MountCleanup>,
    pub sudo_bin: String,
    pub sudo_flags: Vec<String>,
}

/// `w` followed by at least one ASCII digit.
pub open spec fn slot_dir_name(name: Seq<char>) -> bool {
    name.len() >= 2 && name[0] == 'w' && forall|i: int| 1 <= i < name.len() ==> is_ascii_digit(name[i])
}

/// Slot number of a slot directory name: its digits, when they fit.
pub open spec fn slot_number(dir: Seq<char>) -> Option<nat> {
    match crate::paths::file_name(dir) {
        Some(n) => if n.len() >= 1 && crate::version::reads_as_u64(n.drop_first()) {
            Some(crate::version::digits_value(n.drop_first()))
        } else {
            None
        },
        None => None,
    }
}

impl WorkerSandbox {
    pub open spec fn slot_dir_view(&self) -> Seq<char> {
        self.slot_dir@
    }

    /// The slot number [`WorkerSandbox::slot`] gives.
    pub open spec fn slot_of(&self) -> nat {
        match slot_number(self.slot_dir_view()) {
            Some(n) => if n <= usize::MAX {
                n
            } else {
                999
            },
            None => 999,
        }
    }

    /// Slot number, 999 when the directory name does not carry one.
    pub fn slot(&self) -> (r: usize)
        ensures
            slot_number(self.slot_dir_view()) matches Some(n) ==> (n <= usize::MAX ==> r == n) && (n
                > usize::MAX ==> r == 999),
            slot_number(self.slot_dir_view()) is None ==> r == 999,
    {
        let cs = chars_of(self.slot_dir.as_str());
        let name = crate::paths::file_name_of(&cs);
        match name {
            Some(n) => {
                if n.len() >= 1 {
                    let digits = crate::text::slice_vec(&n, 1, n.len());
                    proof {
                        assert(digits@ =~= n@.drop_first());
                    }
                    match crate::version::parse_u64_token(&digits) {
                        Some(v) => {
                            if v <= usize::MAX as u64 {
                                return v as usize;
                            }
                            999
                        },
                        None => 999,
                    }
                } else {
                    999
                }
            },
            None => 999,
        }
    }

    /// Name of a slot directory: `w<N>`.
    pub fn dir_name(slot: usize) -> (r: String)
        ensures
            r@ == seq!['w'] + decimal(slot as nat),
    {
        let mut s = "w".to_owned();
        let n = decimal_string(slot as u64);
        crate::text::push_str(&mut s, n.as_str());
        proof {
            reveal_strlit("w");
            assert("w"@ =~= seq!['w']);
        }
        s
    }

    /// Whether `name` looks like one of our slot directories (`w` and
    /// digits); only those are ever removed.
    pub fn is_slot_dir(name: &str) -> (r: bool)
        ensures
            r == slot_dir_name(name@),
    {
        let cs = chars_of(name);
        if cs.len() < 2 || cs[0] != 'w' {
            return false;
        }
        let mut i: usize = 1;
        while i < cs.len()
            invariant
                1 <= i <= cs@.len(),
                cs@ == name@,
                forall|j: int| 1 <= j < i ==> is_ascii_digit(cs@[j]),
            decreases cs@.len() - i,
        {
            if !('0' <= cs[i] && cs[i] <= '9') {
                return false;
            }
            i = i + 1;
        }
        true
    }

    pub fn checkout_root(&self) -> (r: &str)
        ensures
            r@ == self.merged@,
    {
        self.merged.as_str()
    }

    pub fn srcpkgs_dir(&self) -> (r: String)
        ensures
            r@ == join_path(self.merged@, "srcpkgs"@),
    {
        path_join(self.merged.as_str(), "srcpkgs")
    }

    /// The worker's own binary repository (flat, no arch subdirectory).
    pub fn binpkgs_dir(&self) -> (r: String)
        ensures
            r@ == join_path(join_path(self.merged@, "hostdir"@), "binpkgs"@),
    {
        let h = path_join(self.merged.as_str(), "hostdir");
        path_join(h.as_str(), "binpkgs")
    }

    /// The slot's own log: `<logs_dir>/xbps-src-w<slot>.log`.
    pub fn log_file(&self, logs_dir: &str) -> (r: String)
        ensures
            r@ == join_path(logs_dir@, "xbps-src-w"@ + decimal(self.slot_of()) + ".log"@),
    {
        let slot = self.slot();
        let mut name = "xbps-src-w".to_owned();
        let d = decimal_string(slot as u64);
        crate::text::push_str(&mut name, d.as_str());
        crate::text::push_str(&mut name, ".log");
        path_join(logs_dir, name.as_str())
    }

    /// A sandbox over `slot_dir` that mounts nothing (path derivation only).
    pub fn for_test(slot_dir: &str) -> (r: Self)
        ensures
            r.merged@ == join_path(slot_dir@, "merged"@),
            r.slot_dir_view() == slot_dir@,
    {
        let merged = path_join(slot_dir, "merged");
        WorkerSandbox {
            merged,
            slot_dir: slot_dir.to_owned(),
            cleanup: None,
            sudo_bin: "doas".to_owned(),
            sudo_flags: Vec::new(),
        }
    }
}

/// Whether `v` is in ascending text order.
pub open spec fn texts_sorted(v: Seq<Seq<char>>) -> bool {
    forall|i: int, j: int| 0 <= i < j < v.len() ==> text_order(v[i], v[j]) <= 0
}

/// The paths of `after` that `before` lacks, in order.
pub open spec fn fresh_paths(before: Seq<Seq<char>>, after: Seq<Seq<char>>) -> Seq<Seq<char>> {
    after.filter(|p: Seq<char>| !before.contains(p))
}

/// Files listed after a build that were not there before, sorted (paths
/// compare as text).
pub fn new_files_since(before: &Vec<String>, after: &Vec<String>) -> (r: Vec<String>)
    ensures
        texts_sorted(strs_view(r@)),
        strs_view(r@).to_multiset() == fresh_paths(strs_view(before@), strs_view(after@)).to_multiset(),
{
    let ghost bv = strs_view(before@);
    let ghost av = strs_view(after@);
    let ghost pred = |p: Seq<char>| !bv.contains(p);
    let mut out: Vec<String> = Vec::new();
    let mut i: usize = 0;
    assert(strs_view(out@) =~= Seq::<Seq<char>>::empty());
    proof {
        av.take(0).filter_lemma(pred);
        assert(av.take(0).filter(pred) =~= Seq::<Seq<char>>::empty());
    }
    while i < after.len()
        invariant
            i <= after@.len(),
            bv == strs_view(before@),
            av == strs_view(after@),
            pred == (|p: Seq<char>| !bv.contains(p)),
            texts_sorted(strs_view(out@)),
            strs_view(out@).to_multiset() == av.take(i as int).filter(pred).to_multiset(),
        decreases after@.len() - i,
    {
        let ghost x = av[i as int];
        proof {
            assert(av.take(i as int + 1) =~= av.take(i as int).push(x));
            av.take(i as int).lemma_filter_push(x, pred);
        }
        let mut known = false;
        let mut k: usize = 0;
        while k < before.len()
            invariant
                k <= before@.len(),
                i < after@.len(),
                bv == strs_view(before@),
                known == (exists|m: int| 0 <= m < k && bv[m] == after@[i as int]@),
            decreases before@.len() - k,
        {
            if before[k] == after[i] {
                known = true;
                assert(bv[k as int] == after@[i as int]@);
            }
            k = k + 1;
        }
        proof {
            assert(x == after@[i as int]@);
            if bv.contains(x) {
                let m = choose|m: int| 0 <= m < bv.len() && bv[m] == x;
            }
        }
        if !known {
            let ghost prev = strs_view(out@);
            let xs = chars_of(after[i].as_str());
            let mut pos: usize = 0;
            while pos < out.len() && crate::version::text_order_exec(&chars_of(out[pos].as_str()), &xs) <= 0
                invariant
                    pos <= out@.len(),
                    xs@ == x,
                    prev == strs_view(out@),
                    forall|m: int| 0 <= m < pos ==> text_order(prev[m], x) <= 0,
                decreases out@.len() - pos,
            {
                pos = pos + 1;
            }
            out.insert(pos, after[i].clone());
            proof {
                assert(strs_view(out@) =~= prev.insert(pos as int, x));
                vstd::seq_lib::to_multiset_insert(prev, pos as int, x);
                vstd::seq_lib::to_multiset_build(av.take(i as int).filter(pred), x);
                assert forall|a: int, b: int| 0 <= a < b < strs_view(out@).len() implies text_order(
                    strs_view(out@)[a],
                    strs_view(out@)[b],
                ) <= 0 by {
                    let o = strs_view(out@);
                    if pos < prev.len() {
                        crate::version::lemma_text_order_antisym(prev[pos as int], x);
                    }
                    if b < pos {
                        assert(o[a] == prev[a] && o[b] == prev[b]);
                    } else if b == pos {
                        assert(o[a] == prev[a]);
                    } else if a == pos {
                        assert(o[b] == prev[b - 1]);
                        if b - 1 > pos {
                            assert(text_order(prev[pos as int], prev[b - 1]) <= 0);
                            lemma_text_order_le_trans(x, prev[pos as int], prev[b - 1]);
                        }
                    } else if a < pos {
                        assert(o[a] == prev[a] && o[b] == prev[b - 1]);
                        if pos < prev.len() {
                            assert(text_order(prev[a], prev[pos as int]) <= 0);
                        }
                        assert(text_order(prev[a], prev[b - 1]) <= 0);
                    } else {
                        assert(o[a] == prev[a - 1] && o[b] == prev[b - 1]);
                    }
                }
            }
        }
        i = i + 1;
    }
    proof {
        assert(av.take(after@.len() as int) =~= av);
    }
    out
}

/// `text_order` as a total preorder: `<=` chains.
proof fn lemma_text_order_le_trans(a: Seq<char>, b: Seq<char>, c: Seq<char>)
    requires
        text_order(a, b) <= 0,
        text_order(b, c) <= 0,
    ensures
        text_order(a, c) <= 0,
{
    crate::version::lemma_text_order_zero(a, b);
    crate::version::lemma_text_order_zero(b, c);
    if text_order(a, b) < 0 && text_order(b, c) < 0 {
        crate::version::lemma_text_order_trans(a, b, c);
    }
}

} // verus!
