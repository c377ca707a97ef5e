//! Hard checks of the environment, run before any shared state is touched:
//! a root process aborts; a degraded chroot (flatpak, proot) warns; an
//! `xbps-uchroot` without mode `4750` aborts with a hint (skipped when it
//! cannot be found or read); an OCI container warns.
use vstd::prelude::*;
use crate::text::{contains, decimal, digit_char, push_str, str_is};

verus! {

/// Where `xbps-uchroot` is looked for, in order.
pub open spec fn uchroot_candidate(i: int) -> Seq<char> {
    if i == 0 {
        "/usr/bin/xbps-uchroot"@
    } else {
        "/usr/libexec/xbps-uchroot"@
    }
}

/// The mode `xbps-uchroot` must have: setuid root, group may execute.
pub const UCHROOT_MODE: u32 = 0o4750;

/// Warnings in check order, and the abort that stopped the checks.
#[derive(Debug)]
pub struct Report {
    pub warnings: Vec<String>,
    pub abort: Option<String>,
}

/// The system as the checks see it; implemented by the caller (the real
/// process, or a fixed table).
pub trait Io {
    spec fn spec_euid(&self) -> u32;

    spec fn spec_exists(&self, path: Seq<char>) -> bool;

    spec fn spec_mode(&self, path: Seq<char>) -> Option<u32>;

    spec fn spec_env(&self, key: Seq<char>) -> Option<Seq<char>>;

    spec fn spec_cgroup(&self) -> Option<Seq<char>>;

    /// The effective uid of the process.
    fn euid(&self) -> (r: u32)
        ensures
            r == self.spec_euid(),
    ;

    /// Whether the path exists.
    fn file_exists(&self, path: &str) -> (r: bool)
        ensures
            r == self.spec_exists(path@),
    ;

    /// The path's mode masked to `0o7777`; `None` when it cannot be read.
    fn file_mode(&self, path: &str) -> (r: Option<u32>)
        ensures
            r == self.spec_mode(path@),
    ;

    /// An environment variable; an empty one counts as absent.
    fn getenv(&self, key: &str) -> (r: Option<String>)
        ensures
            crate::metadata::opt_view(r) == self.spec_env(key@),
    ;

    /// The contents of `/proc/1/cgroup`, when readable.
    fn proc1_cgroup(&self) -> (r: Option<String>)
        ensures
            crate::metadata::opt_view(r) == self.spec_cgroup(),
    ;
}

/// Octal rendering of an unsigned integer (`{:o}`).
pub open spec fn octal(n: nat) -> Seq<char>
    decreases n,
{
    if n < 8 {
        seq![digit_char(n)]
    } else {
        octal(n / 8).push(digit_char(n % 8))
    }
}

fn octal_string(n: u32) -> (s: String)
    ensures
        s@ == octal(n as nat),
    decreases n,
{
    let d = crate::text::decimal_string((n % 8) as u64);
    proof {
        assert(decimal((n % 8) as nat) == seq![digit_char((n % 8) as nat)]);
    }
    if n < 8 {
        d
    } else {
        let mut s = octal_string(n / 8);
        push_str(&mut s, d.as_str());
        s
    }
}

pub open spec fn root_message() -> Seq<char> {
    "vary no debe ejecutarse como root directo (euid 0): usa tu usuario normal (la elevación puntual la gestiona vary vía --sudo/doas/run0); xbps-src se niega a correr como root"@
}

pub open spec fn degraded_message() -> Seq<char> {
    "chroot degradado detectado (proot/bwrap): los builds en masterdir pueden fallar o comportarse raro; preferí Void nativo para compilar"@
}

pub open spec fn oci_message() -> Seq<char> {
    "entorno OCI/contenedor detectado: algunas operaciones privilegiadas (chroot, montajes) pueden fallar; los installs binarios no se ven afectados"@
}

pub open spec fn uchroot_message(path: Seq<char>, mode: u32) -> Seq<char> {
    "xbps-uchroot en "@ + path + " con modo "@ + octal(mode as nat)
        + " (se exige 4750 para builds en chroot); corrige con: doas chmod 4750 "@ + path
        + " (o reinstala xbps)"@
}

/// The first `xbps-uchroot` candidate that exists.
pub open spec fn uchroot_found<I: Io>(io: &I) -> Option<Seq<char>> {
    if io.spec_exists(uchroot_candidate(0)) {
        Some(uchroot_candidate(0))
    } else if io.spec_exists(uchroot_candidate(1)) {
        Some(uchroot_candidate(1))
    } else {
        None
    }
}

pub open spec fn degraded<I: Io>(io: &I) -> bool {
    io.spec_exists("/.flatpak-info"@) || io.spec_env("FLATPAK_ID"@) is Some || io.spec_env(
        "PROOT_TMP_DIR"@,
    ) is Some
}

pub open spec fn oci<I: Io>(io: &I) -> bool {
    io.spec_exists("/.dockerenv"@) || match io.spec_cgroup() {
        Some(c) => contains(c, "docker"@) || contains(c, "kubepods"@),
        None => false,
    }
}

/// The report of the checks: warnings, then the abort, if any.
pub open spec fn preflight<I: Io>(io: &I) -> (Seq<Seq<char>>, Option<Seq<char>>) {
    if io.spec_euid() == 0 {
        (Seq::empty(), Some(root_message()))
    } else {
        let w1: Seq<Seq<char>> = if degraded(io) {
            seq![degraded_message()]
        } else {
            Seq::empty()
        };
        let bad = match uchroot_found(io) {
            Some(p) => match io.spec_mode(p) {
                Some(m) => if m != UCHROOT_MODE {
                    Some(uchroot_message(p, m))
                } else {
                    None
                },
                None => None,
            },
            None => None,
        };
        match bad {
            Some(msg) => (w1, Some(msg)),
            None => (if oci(io) {
                w1.push(oci_message())
            } else {
                w1
            }, None),
        }
    }
}

/// Runs the checks in order; the first abort stops them, warnings add up.
pub fn check<I: Io>(io: &I) -> (r: Report)
    ensures
        (crate::metadata::strs_view(r.warnings@), crate::metadata::opt_view(r.abort)) == preflight(io),
{
    let mut warnings: Vec<String> = Vec::new();
    if io.euid() == 0 {
        assert(crate::metadata::strs_view(warnings@) =~= Seq::<Seq<char>>::empty());
        return Report {
            warnings,
            abort: Some(
                "vary no debe ejecutarse como root directo (euid 0): usa tu usuario normal (la elevación puntual la gestiona vary vía --sudo/doas/run0); xbps-src se niega a correr como root".to_string(),
            ),
        };
    }
    if io.file_exists("/.flatpak-info") || io.getenv("FLATPAK_ID").is_some() || io.getenv(
        "PROOT_TMP_DIR",
    ).is_some() {
        warnings.push(
            "chroot degradado detectado (proot/bwrap): los builds en masterdir pueden fallar o comportarse raro; preferí Void nativo para compilar".to_string(),
        );
        assert(crate::metadata::strs_view(warnings@) =~= seq![degraded_message()]);
    } else {
        assert(crate::metadata::strs_view(warnings@) =~= Seq::<Seq<char>>::empty());
    }
    let found: Option<&str> = if io.file_exists("/usr/bin/xbps-uchroot") {
        Some("/usr/bin/xbps-uchroot")
    } else if io.file_exists("/usr/libexec/xbps-uchroot") {
        Some("/usr/libexec/xbps-uchroot")
    } else {
        None
    };
    match found {
        Some(path) => {
            match io.file_mode(path) {
                Some(mode) => {
                    if mode != 0o4750u32 {
                        let mut m = "xbps-uchroot en ".to_string();
                        push_str(&mut m, path);
                        push_str(&mut m, " con modo ");
                        push_str(&mut m, octal_string(mode).as_str());
                        push_str(
                            &mut m,
                            " (se exige 4750 para builds en chroot); corrige con: doas chmod 4750 ",
                        );
                        push_str(&mut m, path);
                        push_str(&mut m, " (o reinstala xbps)");
                        return Report { warnings, abort: Some(m) };
                    }
                },
                None => {},
            }
        },
        None => {},
    }
    let cgroup_hit = match io.proc1_cgroup() {
        Some(c) => {
            let cs = crate::text::chars_of(c.as_str());
            crate::text::str_contains(&cs, "docker") || crate::text::str_contains(&cs, "kubepods")
        },
        None => false,
    };
    if io.file_exists("/.dockerenv") || cgroup_hit {
        let ghost o = warnings@;
        warnings.push(
            "entorno OCI/contenedor detectado: algunas operaciones privilegiadas (chroot, montajes) pueden fallar; los installs binarios no se ven afectados".to_string(),
        );
        assert(crate::metadata::strs_view(warnings@) =~= crate::metadata::strs_view(o).push(oci_message()));
    }
    Report { warnings, abort: None }
}

/// A fixed system: a uid, a table of paths (existence and mode), the set
/// environment and the cgroup text.
pub struct FixedIo {
    pub euid: u32,
    pub files: Vec<(String, bool, Option<u32>)>,
    pub env: Vec<(String, String)>,
    pub cgroup: Option<String>,
}

/// Index of the first row of `files` for `path`.
pub open spec fn file_row(files: Seq<(String, bool, Option<u32>)>, path: Seq<char>, i: int) -> int
    decreases files.len() - i,
{
    if i < 0 || i >= files.len() {
        files.len() as int
    } else if files[i].0@ == path {
        i
    } else {
        file_row(files, path, i + 1)
    }
}

/// Index of the first row of `env` for `key`.
pub open spec fn env_row(env: Seq<(String, String)>, key: Seq<char>, i: int) -> int
    decreases env.len() - i,
{
    if i < 0 || i >= env.len() {
        env.len() as int
    } else if env[i].0@ == key {
        i
    } else {
        env_row(env, key, i + 1)
    }
}

impl FixedIo {
    fn find_file(&self, path: &str) -> (r: usize)
        ensures
            r == file_row(self.files@, path@, 0),
    {
        let mut i: usize = 0;
        let pv = crate::text::chars_of(path);
        while i < self.files.len()
            invariant
                i <= self.files@.len(),
                pv@ == path@,
                file_row(self.files@, path@, 0) == file_row(self.files@, path@, i as int),
            decreases self.files@.len() - i,
        {
            if crate::text::chars_eq(&crate::text::chars_of(self.files[i].0.as_str()), &pv) {
                return i;
            }
            i = i + 1;
        }
        i
    }
}

impl Io for FixedIo {
    open spec fn spec_euid(&self) -> u32 {
        self.euid
    }

    open spec fn spec_exists(&self, path: Seq<char>) -> bool {
        let i = file_row(self.files@, path, 0);
        i < self.files@.len() && self.files@[i].1
    }

    open spec fn spec_mode(&self, path: Seq<char>) -> Option<u32> {
        let i = file_row(self.files@, path, 0);
        if i < self.files@.len() {
            self.files@[i].2
        } else {
            None
        }
    }

    open spec fn spec_env(&self, key: Seq<char>) -> Option<Seq<char>> {
        let i = env_row(self.env@, key, 0);
        if i < self.env@.len() && self.env@[i].1@.len() > 0 {
            Some(self.env@[i].1@)
        } else {
            None
        }
    }

    open spec fn spec_cgroup(&self) -> Option<Seq<char>> {
        crate::metadata::opt_view(self.cgroup)
    }

    fn euid(&self) -> (r: u32) {
        self.euid
    }

    fn file_exists(&self, path: &str) -> (r: bool) {
        let i = self.find_file(path);
        i < self.files.len() && self.files[i].1
    }

    fn file_mode(&self, path: &str) -> (r: Option<u32>) {
        let i = self.find_file(path);
        if i < self.files.len() {
            self.files[i].2
        } else {
            None
        }
    }

    fn getenv(&self, key: &str) -> (r: Option<String>) {
        let kv = crate::text::chars_of(key);
        let mut i: usize = 0;
        while i < self.env.len()
            invariant
                i <= self.env@.len(),
                kv@ == key@,
                env_row(self.env@, key@, 0) == env_row(self.env@, key@, i as int),
            decreases self.env@.len() - i,
        {
            if crate::text::chars_eq(&crate::text::chars_of(self.env[i].0.as_str()), &kv) {
                if self.env[i].1.as_str().is_empty() {
                    return None;
                }
                return Some(self.env[i].1.clone());
            }
            i = i + 1;
        }
        None
    }

    fn proc1_cgroup(&self) -> (r: Option<String>) {
        crate::metadata::clone_opt_string(&self.cgroup)
    }
}

} // verus!
