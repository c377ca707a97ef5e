//! Privilege elevation through any wrapper of the form
//! `BIN [flags] command args...` (sudo, doas, run0, sudo-rs).
//!
//! The choice, the same at every point that elevates: a configured binary
//! is used as it is, with its flags; without one, a root process runs the
//! command directly; otherwise the first of sudo, doas and run0 found in
//! `PATH` is used.
use vstd::prelude::*;

verus! {

/// What the choice depends on in the running system.
#[derive(Debug, Clone, Copy)]
pub struct Host {
    /// Whether the process runs with uid 0.
    pub as_root: bool,
    pub has_sudo: bool,
    pub has_doas: bool,
    pub has_run0: bool,
}

/// The message when no wrapper is available.
pub open spec fn no_wrapper_message() -> Seq<char> {
    "no hay herramienta de elevación de privilegios (busqué sudo, doas y run0 en PATH);\ninstala una (p. ej. `xbps-install opendoas`) o ejecuta vary como root"@
}

/// The first wrapper found, in the order sudo, doas, run0.
pub open spec fn detected(host: Host) -> Option<Seq<char>> {
    if host.has_sudo {
        Some("sudo"@)
    } else if host.has_doas {
        Some("doas"@)
    } else if host.has_run0 {
        Some("run0"@)
    } else {
        None
    }
}

/// The first elevation wrapper available (see [`detected`]).
pub fn detect(host: &Host) -> (r: Result<String, String>)
    ensures
        match detected(*host) {
            Some(w) => r matches Ok(b) && b@ == w,
            None => r matches Err(m) && m@ == no_wrapper_message(),
        },
{
    if host.has_sudo {
        Ok("sudo".to_string())
    } else if host.has_doas {
        Ok("doas".to_string())
    } else if host.has_run0 {
        Ok("run0".to_string())
    } else {
        Err(
            "no hay herramienta de elevación de privilegios (busqué sudo, doas y run0 en PATH);\ninstala una (p. ej. `xbps-install opendoas`) o ejecuta vary como root".to_string(),
        )
    }
}

/// How to elevate: `None` runs the program directly (as root);
/// `Some((bin, flags))` puts a wrapper in front. A configured binary wins
/// over everything; autodetection adds no flags.
pub fn resolve(configured_bin: &str, configured_flags: &Vec<String>, host: &Host) -> (r: Result<
    Option<(String, Vec<String>)>,
    String,
>)
    ensures
        configured_bin@.len() > 0 ==> (r matches Ok(Some((b, f))) && b@ == configured_bin@ && f@
            == configured_flags@),
        configured_bin@.len() == 0 && host.as_root ==> r matches Ok(None),
        configured_bin@.len() == 0 && !host.as_root ==> match detected(*host) {
            Some(w) => r matches Ok(Some((b, f))) && b@ == w && f@.len() == 0,
            None => r matches Err(m) && m@ == no_wrapper_message(),
        },
{
    if !configured_bin.is_empty() {
        let f = configured_flags.clone();
        assert(f@ =~= configured_flags@);
        return Ok(Some((configured_bin.to_string(), f)));
    }
    if host.as_root {
        return Ok(None);
    }
    match detect(host) {
        Ok(b) => Ok(Some((b, Vec::new()))),
        Err(m) => Err(m),
    }
}

/// The argument vector that runs `program` with the right privileges:
/// `[program]` directly, or `[bin, flags..., program]`.
pub fn elevation_argv(configured_bin: &str, configured_flags: &Vec<String>, host: &Host, program: &str) -> (r: Result<Vec<String>, String>)
    ensures
        configured_bin@.len() > 0 ==> (r matches Ok(v) && crate::metadata::strs_view(v@) == seq![
            configured_bin@,
        ] + crate::metadata::strs_view(configured_flags@) + seq![program@]),
        configured_bin@.len() == 0 && host.as_root ==> (r matches Ok(v)
            && crate::metadata::strs_view(v@) == seq![program@]),
        configured_bin@.len() == 0 && !host.as_root ==> match detected(*host) {
            Some(w) => r matches Ok(v) && crate::metadata::strs_view(v@) == seq![w, program@],
            None => r matches Err(m) && m@ == no_wrapper_message(),
        },
{
    match resolve(configured_bin, configured_flags, host) {
        Err(m) => Err(m),
        Ok(None) => {
            let v = vec![program.to_string()];
            assert(crate::metadata::strs_view(v@) =~= seq![program@]);
            Ok(v)
        },
        Ok(Some((bin, flags))) => {
            let mut v = vec![bin];
            let mut i: usize = 0;
            let ghost head = v@;
            while i < flags.len()
                invariant
                    i <= flags@.len(),
                    v@ == head + flags@.take(i as int),
                decreases flags@.len() - i,
            {
                v.push(flags[i].clone());
                i = i + 1;
                assert(v@ =~= head + flags@.take(i as int));
            }
            assert(flags@.take(flags@.len() as int) =~= flags@);
            v.push(program.to_string());
            proof {
                assert(crate::metadata::strs_view(v@) =~= crate::metadata::strs_view(head)
                    + crate::metadata::strs_view(flags@) + seq![program@]);
            }
            Ok(v)
        },
    }
}

} // verus!
