//! Enabling the service a package ships, after it is installed: under dinit
//! it is enabled and started, under runit it is linked into
//! `/var/service`. A package without `/etc/sv/<pkg>` needs nothing.
use vstd::prelude::*;
use crate::text::push_str;

verus! {

/// What the system offers for a package's service.
#[derive(Debug, Clone, Copy)]
pub struct ServiceHost {
    /// `/etc/sv/<pkg>` exists.
    pub has_service_dir: bool,
    /// `/dev/dinitctl` exists.
    pub dinit: bool,
    /// `/run/runit` exists.
    pub runit: bool,
    /// `/var/service/<pkg>` exists.
    pub linked: bool,
}

/// What to do after installing: the question to ask (skipped with
/// `no_confirm`) and the commands to run elevated once it is accepted,
/// each as program and arguments.
#[derive(Debug)]
pub enum ServiceSetup {
    /// Nothing to do.
    Nothing,
    Ask { prompt: String, commands: Vec<Vec<String>> },
}

pub open spec fn argv_view(v: Seq<Vec<String>>) -> Seq<Seq<Seq<char>>> {
    v.map_values(|c: Vec<String>| crate::metadata::strs_view(c@))
}

/// The setup a package's service needs on `host` (see the module).
pub open spec fn service_setup(pkg: Seq<char>, host: ServiceHost) -> Option<(Seq<char>, Seq<Seq<Seq<char>>>)> {
    if !host.has_service_dir {
        None
    } else if host.dinit {
        Some(
            (
                "Enable and start dinit service for "@ + pkg + "?"@,
                seq![seq!["dinitctl"@, "enable"@, pkg], seq!["dinitctl"@, "start"@, pkg]],
            ),
        )
    } else if host.runit {
        Some(
            (
                "Enable runit service for "@ + pkg + "?"@,
                if host.linked {
                    Seq::empty()
                } else {
                    seq![seq!["ln"@, "-s"@, "/etc/sv/"@ + pkg, "/var/service/"@ + pkg]]
                },
            ),
        )
    } else {
        None
    }
}

/// Decides the post-install setup of a package's service (see
/// [`service_setup`]).
pub fn post_install_plan(pkg_name: &str, host: &ServiceHost) -> (r: ServiceSetup)
    ensures
        match service_setup(pkg_name@, *host) {
            None => r is Nothing,
            Some((p, cmds)) => r matches ServiceSetup::Ask { prompt, commands } && prompt@ == p
                && argv_view(commands@) == cmds,
        },
{
    if !host.has_service_dir {
        return ServiceSetup::Nothing;
    }
    if host.dinit {
        let mut prompt = "Enable and start dinit service for ".to_string();
        push_str(&mut prompt, pkg_name);
        push_str(&mut prompt, "?");
        let c1 = vec!["dinitctl".to_string(), "enable".to_string(), pkg_name.to_string()];
        let c2 = vec!["dinitctl".to_string(), "start".to_string(), pkg_name.to_string()];
        let commands = vec![c1, c2];
        proof {
            assert(crate::metadata::strs_view(c1@) =~= seq!["dinitctl"@, "enable"@, pkg_name@]);
            assert(crate::metadata::strs_view(c2@) =~= seq!["dinitctl"@, "start"@, pkg_name@]);
            assert(argv_view(commands@) =~= seq![crate::metadata::strs_view(c1@), crate::metadata::strs_view(c2@)]);
        }
        return ServiceSetup::Ask { prompt, commands };
    }
    if host.runit {
        let mut prompt = "Enable runit service for ".to_string();
        push_str(&mut prompt, pkg_name);
        push_str(&mut prompt, "?");
        let mut commands: Vec<Vec<String>> = Vec::new();
        if !host.linked {
            let c = vec![
                "ln".to_string(),
                "-s".to_string(),
                crate::text::concat("/etc/sv/", pkg_name),
                crate::text::concat("/var/service/", pkg_name),
            ];
            proof {
                assert(crate::metadata::strs_view(c@) =~= seq!["ln"@, "-s"@, "/etc/sv/"@ + pkg_name@, "/var/service/"@ + pkg_name@]);
            }
            commands.push(c);
            assert(argv_view(commands@) =~= seq![crate::metadata::strs_view(c@)]);
        } else {
            assert(argv_view(commands@) =~= Seq::<Seq<Seq<char>>>::empty());
        }
        return ServiceSetup::Ask { prompt, commands };
    }
    ServiceSetup::Nothing
}

} // verus!
