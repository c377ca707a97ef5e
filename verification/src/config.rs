//! The settings vary runs with: defaults, then `vary.conf`, then the
//! command line.
use vstd::prelude::*;
use crate::metadata::{opt_view, strs_view};
use crate::paths::{join_path, path_join};
use crate::text::{chars_of, push_str};

verus! {

/// The operation asked for.
#[derive(Debug, Clone, Copy, PartialEq, Eq, Structural)]
pub enum Op {
    Default,
    Sync,
    Remove,
}

impl Op {
    /// The operation's name (`default`, `sync`, `remove`).
    pub fn name(&self) -> (r: &'static str)
        ensures
            r@ == (match self {
                Op::Default => "default"@,
                Op::Sync => "sync"@,
                Op::Remove => "remove"@,
            }),
    {
        match self {
            Op::Default => "default",
            Op::Sync => "sync",
            Op::Remove => "remove",
        }
    }
}

/// When output is colored: `always`, `never`, or `auto` (when both stdout
/// and stderr are terminals).
#[derive(Debug, Clone, Copy, PartialEq, Eq, Structural)]
pub enum ColorChoice {
    Always,
    Never,
    Auto,
}

/// One recorded pacman-style option: its key (without dashes) and value.
#[derive(Debug, Clone)]
pub struct Arg {
    pub key: String,
    pub value: Option<String>,
}

/// The recorded pacman-style options, in order.
#[derive(Debug, Clone)]
pub struct Args {
    pub args: Vec<Arg>,
}

pub open spec fn args_view(v: Seq<Arg>) -> Seq<(Seq<char>, Option<Seq<char>>)> {
    v.map_values(|a: Arg| (a.key@, opt_view(a.value)))
}

impl Arg {
    /// The option as written: `-k` for a one-character key, else `--key`;
    /// then the value (after `=` for a long key).
    pub fn to_text(&self) -> (r: String)
        ensures
            r@ == (if self.key@.len() == 1 {
                "-"@
            } else {
                "--"@
            }) + self.key@ + match self.value {
                Some(v) => if self.key@.len() == 1 {
                    v@
                } else {
                    "="@ + v@
                },
                None => Seq::empty(),
            },
    {
        let short = chars_of(self.key.as_str()).len() == 1;
        let mut s = if short {
            "-".to_string()
        } else {
            "--".to_string()
        };
        push_str(&mut s, self.key.as_str());
        match &self.value {
            Some(v) => {
                if !short {
                    push_str(&mut s, "=");
                }
                push_str(&mut s, v.as_str());
            },
            None => {},
        }
        proof {
            reveal_strlit("-");
            reveal_strlit("--");
            reveal_strlit("=");
        }
        s
    }
}

impl Args {
    /// Whether an option with either key was recorded.
    pub fn has_arg(&self, s1: &str, s2: &str) -> (r: bool)
        ensures
            r == exists|i: int| 0 <= i < self.args@.len() && (#[trigger] self.args@[i].key@ == s1@ || self.args@[i].key@ == s2@),
    {
        let a = chars_of(s1);
        let b = chars_of(s2);
        let mut i: usize = 0;
        while i < self.args.len()
            invariant
                i <= self.args@.len(),
                a@ == s1@,
                b@ == s2@,
                forall|j: int| 0 <= j < i ==> !(#[trigger] self.args@[j].key@ == s1@ || self.args@[j].key@ == s2@),
            decreases self.args@.len() - i,
        {
            let k = chars_of(self.args[i].key.as_str());
            if crate::text::chars_eq(&k, &a) || crate::text::chars_eq(&k, &b) {
                return true;
            }
            i = i + 1;
        }
        false
    }
}

/// vary's settings.
#[derive(Debug)]
pub struct Config {
    pub op: Op,
    pub help: bool,
    pub version: bool,
    pub targets: Vec<String>,
    pub args: Args,
    pub color: ColorChoice,
    pub quiet: bool,
    pub interactive: bool,
    pub no_confirm: bool,
    /// How many `-v` were given.
    pub verbose: u8,
    /// The elevation wrapper; empty means autodetect.
    pub sudo_bin: String,
    pub sudo_flags: Vec<String>,
    pub sudo_flags_from_cli: bool,
    /// The `install` binary that writes under `/etc`.
    pub tools_install_bin: String,
    pub git_bin: String,
    pub curl_bin: String,
    /// `--arch`; without it the system's architecture is used.
    pub arch_override: Option<String>,
    pub cache_dir: String,
    pub data_dir: String,
    pub config_dir: String,
    pub log_level: String,
    pub max_concurrent_builds: u32,
    pub makejobs: usize,
    pub force_rebuild: bool,
    pub ttl_cache_seconds: u64,
    pub force_build: bool,
    pub prefer_binary: bool,
}

impl Config {
    /// Defaults with no reading of the system: no directories, no
    /// `vary.conf`, one make job, binaries by their plain names.
    pub fn in_memory_defaults() -> (r: Config)
        ensures
            r.op == Op::Default,
            !r.help && !r.version && !r.quiet && !r.interactive && !r.no_confirm,
            r.targets@.len() == 0,
            r.args.args@.len() == 0,
            r.color == ColorChoice::Never,
            r.verbose == 0,
            r.sudo_bin@.len() == 0,
            r.sudo_flags@.len() == 0,
            !r.sudo_flags_from_cli,
            r.tools_install_bin@ == "install"@,
            r.git_bin@ == "git"@,
            r.curl_bin@ == "curl"@,
            r.arch_override is None,
            r.cache_dir@.len() == 0 && r.data_dir@.len() == 0 && r.config_dir@.len() == 0,
            r.log_level@ == "info"@,
            r.max_concurrent_builds == 1,
            r.makejobs == 1,
            !r.force_rebuild,
            r.ttl_cache_seconds == 3600,
            !r.force_build,
            r.prefer_binary,
    {
        Config {
            op: Op::Default,
            help: false,
            version: false,
            targets: Vec::new(),
            args: Args { args: Vec::new() },
            color: ColorChoice::Never,
            quiet: false,
            interactive: false,
            no_confirm: false,
            verbose: 0,
            sudo_bin: String::new(),
            sudo_flags: Vec::new(),
            sudo_flags_from_cli: false,
            tools_install_bin: "install".to_string(),
            git_bin: "git".to_string(),
            curl_bin: "curl".to_string(),
            arch_override: None,
            cache_dir: String::new(),
            data_dir: String::new(),
            config_dir: String::new(),
            log_level: "info".to_string(),
            max_concurrent_builds: 1,
            makejobs: 1,
            force_rebuild: false,
            ttl_cache_seconds: 3600,
            force_build: false,
            prefer_binary: true,
        }
    }

    pub fn vary_conf_path(&self) -> (r: String)
        ensures
            r@ == join_path(self.config_dir@, "vary.conf"@),
    {
        path_join(self.config_dir.as_str(), "vary.conf")
    }

    pub fn repos_conf_path(&self) -> (r: String)
        ensures
            r@ == join_path(self.config_dir@, "repos.conf"@),
    {
        path_join(self.config_dir.as_str(), "repos.conf")
    }

    /// The immutable master tree of void-packages.
    pub fn void_packages_dir(&self) -> (r: String)
        ensures
            r@ == join_path(self.cache_dir@, "void-packages"@),
    {
        path_join(self.cache_dir.as_str(), "void-packages")
    }

    /// Where the clones of the VUR repositories live.
    pub fn vurs_dir(&self) -> (r: String)
        ensures
            r@ == join_path(self.data_dir@, "vurs"@),
    {
        path_join(self.data_dir.as_str(), "vurs")
    }

    pub fn installed_db_path(&self) -> (r: String)
        ensures
            r@ == join_path(self.cache_dir@, "installed.json"@),
    {
        path_join(self.cache_dir.as_str(), "installed.json")
    }

    pub fn cache_index_path(&self) -> (r: String)
        ensures
            r@ == join_path(self.cache_dir@, "cache.json"@),
    {
        path_join(self.cache_dir.as_str(), "cache.json")
    }

    /// The architecture to work for: `--arch`, else the host's.
    pub fn arch(&self, host_arch: &str) -> (r: String)
        ensures
            r@ == (match self.arch_override {
                Some(a) => a@,
                None => host_arch@,
            }),
    {
        match &self.arch_override {
            Some(a) => a.clone(),
            None => host_arch.to_string(),
        }
    }

    /// Applies what `vary.conf` sets (paths already expanded); a `makejobs`
    /// of 0 is ignored.
    #[verifier::rlimit(60)]
    pub fn apply_conf(&mut self, conf: &VaryConf)
        ensures
            final(self).cache_dir@ == (match conf.cache_dir {
                Some(d) => d@,
                None => old(self).cache_dir@,
            }),
            final(self).data_dir@ == (match conf.data_dir {
                Some(d) => d@,
                None => old(self).data_dir@,
            }),
            final(self).log_level@ == (match conf.log_level {
                Some(d) => d@,
                None => old(self).log_level@,
            }),
            final(self).sudo_bin@ == (match conf.sudo_bin {
                Some(d) => d@,
                None => old(self).sudo_bin@,
            }),
            final(self).sudo_flags@ == (match conf.sudo_flags {
                Some(f) => f@,
                None => old(self).sudo_flags@,
            }),
            final(self).curl_bin@ == (match conf.curl_bin {
                Some(d) => d@,
                None => old(self).curl_bin@,
            }),
            final(self).max_concurrent_builds == (match conf.max_concurrent_builds {
                Some(n) => n,
                None => old(self).max_concurrent_builds,
            }),
            final(self).makejobs == (match conf.makejobs {
                Some(j) => if j > 0 {
                    j
                } else {
                    old(self).makejobs
                },
                None => old(self).makejobs,
            }),
            final(self).force_rebuild == (match conf.force_rebuild {
                Some(f) => f,
                None => old(self).force_rebuild,
            }),
            final(self).ttl_cache_seconds == (match conf.ttl_cache_seconds {
                Some(t) => t,
                None => old(self).ttl_cache_seconds,
            }),
            final(self).tools_install_bin@ == (match conf.install_bin {
                Some(d) => d@,
                None => old(self).tools_install_bin@,
            }),
            final(self).op == old(self).op,
            final(self).targets == old(self).targets,
            final(self).config_dir == old(self).config_dir,
            final(self).git_bin == old(self).git_bin,
            final(self).arch_override == old(self).arch_override,
            final(self).prefer_binary == old(self).prefer_binary,
            final(self).force_build == old(self).force_build,
    {
        match &conf.cache_dir {
            Some(d) => self.cache_dir = d.clone(),
            None => {},
        }
        match &conf.data_dir {
            Some(d) => self.data_dir = d.clone(),
            None => {},
        }
        match &conf.log_level {
            Some(d) => self.log_level = d.clone(),
            None => {},
        }
        match &conf.sudo_bin {
            Some(d) => self.sudo_bin = d.clone(),
            None => {},
        }
        match &conf.sudo_flags {
            Some(f) => {
                self.sudo_flags = crate::metadata::clone_strings(f);
            },
            None => {},
        }
        match &conf.curl_bin {
            Some(d) => self.curl_bin = d.clone(),
            None => {},
        }
        match conf.max_concurrent_builds {
            Some(n) => self.max_concurrent_builds = n,
            None => {},
        }
        match conf.makejobs {
            Some(j) => if j > 0 {
                self.makejobs = j;
            },
            None => {},
        }
        match conf.force_rebuild {
            Some(f) => self.force_rebuild = f,
            None => {},
        }
        match conf.ttl_cache_seconds {
            Some(t) => self.ttl_cache_seconds = t,
            None => {},
        }
        match &conf.install_bin {
            Some(d) => self.tools_install_bin = d.clone(),
            None => {},
        }
    }
}

/// What `vary.conf` may set (`[general]`, `[build]`, `[search]`, `[tools]`).
#[derive(Debug)]
pub struct VaryConf {
    pub cache_dir: Option<String>,
    pub data_dir: Option<String>,
    pub log_level: Option<String>,
    pub sudo_bin: Option<String>,
    pub sudo_flags: Option<Vec<String>>,
    pub curl_bin: Option<String>,
    pub max_concurrent_builds: Option<u32>,
    pub makejobs: Option<usize>,
    pub force_rebuild: Option<bool>,
    pub ttl_cache_seconds: Option<u64>,
    pub install_bin: Option<String>,
}

/// A configured path with a leading `~/` put under `home` (when known).
pub fn expand_home(p: &str, home: Option<&str>) -> (r: String)
    ensures
        r@ == (match home {
            Some(h) => if crate::text::has_prefix(p@, "~/"@) {
                join_path(h@, p@.skip(2))
            } else {
                p@
            },
            None => p@,
        }),
{
    let cs = chars_of(p);
    match home {
        Some(h) => {
            if crate::text::str_starts(&cs, "~/") {
                proof {
                    reveal_strlit("~/");
                }
                let rest = crate::text::slice_vec(&cs, 2, cs.len());
                assert(rest@ =~= p@.skip(2));
                path_join(h, crate::text::string_from(&rest).as_str())
            } else {
                p.to_string()
            }
        },
        None => p.to_string(),
    }
}

/// An XDG base directory: the variable's value when set and not empty,
/// else the fallback under `$HOME`.
pub fn xdg_or_home(var_value: Option<&str>, home_fallback: &str) -> (r: String)
    ensures
        r@ == (match var_value {
            Some(v) => if v@.len() > 0 {
                v@
            } else {
                home_fallback@
            },
            None => home_fallback@,
        }),
{
    match var_value {
        Some(v) => if !v.is_empty() {
            v.to_string()
        } else {
            home_fallback.to_string()
        },
        None => home_fallback.to_string(),
    }
}

/// vary's cache, data and config directories: `vary` under the XDG
/// directories, which fall back to `~/.cache`, `~/.local/share` and
/// `~/.config`.
pub fn default_dirs(home: &str, xdg_cache: Option<&str>, xdg_data: Option<&str>, xdg_config: Option<&str>) -> (r: (String, String, String))
    ensures
        r.0@ == join_path(
            (match xdg_cache {
                Some(v) => if v@.len() > 0 {
                    v@
                } else {
                    join_path(home@, ".cache"@)
                },
                None => join_path(home@, ".cache"@),
            }),
            "vary"@,
        ),
        r.1@ == join_path(
            (match xdg_data {
                Some(v) => if v@.len() > 0 {
                    v@
                } else {
                    join_path(join_path(home@, ".local"@), "share"@)
                },
                None => join_path(join_path(home@, ".local"@), "share"@),
            }),
            "vary"@,
        ),
        r.2@ == join_path(
            (match xdg_config {
                Some(v) => if v@.len() > 0 {
                    v@
                } else {
                    join_path(home@, ".config"@)
                },
                None => join_path(home@, ".config"@),
            }),
            "vary"@,
        ),
{
    let cache_fb = path_join(home, ".cache");
    let local = path_join(home, ".local");
    let data_fb = path_join(local.as_str(), "share");
    let config_fb = path_join(home, ".config");
    let cache = path_join(xdg_or_home(xdg_cache, cache_fb.as_str()).as_str(), "vary");
    let data = path_join(xdg_or_home(xdg_data, data_fb.as_str()).as_str(), "vary");
    let config = path_join(xdg_or_home(xdg_config, config_fb.as_str()).as_str(), "vary");
    (cache, data, config)
}

} // verus!
