//! The local repository registration of the build environment: the xbps
//! configuration that puts `hostdir/binpkgs` first.
use vstd::prelude::*;

verus! {

/// Where xbps reads vary's local repository from.
pub fn xbpsd_vary_conf() -> (r: &'static str)
    ensures
        r@ == "/etc/xbps.d/10-vary.conf"@,
{
    "/etc/xbps.d/10-vary.conf"
}

/// The contents of that file for a local repository.
pub fn vary_conf_contents(binpkgs_root: &str) -> (r: String)
    ensures
        r@ == "repository="@ + binpkgs_root@ + "\n"@,
{
    crate::text::concat3("repository=", binpkgs_root, "\n")
}

/// Whether the file must be (re)written: missing, unreadable or different.
pub fn conf_needs_write(existing: Option<&str>, contents: &str) -> (r: bool)
    ensures
        r == (match existing {
            Some(e) => e@ != contents@,
            None => true,
        }),
{
    match existing {
        Some(e) => !crate::text::chars_eq(&crate::text::chars_of(e), &crate::text::chars_of(contents)),
        None => true,
    }
}

} // verus!
