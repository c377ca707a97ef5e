//! The command line: pacman-style options (`-S`, `-R`, `-Ss`, ...), vary's
//! own long options, targets, and the `--repo` subcommands.
use vstd::prelude::*;
use crate::config::{args_view, Arg, ColorChoice, Config, Op};
use crate::metadata::{opt_view, strs_view};
use crate::text::{chars_of, push_str, split_ws, str_is, string_from};

verus! {

/// The pacman-style operation flags vary records.
pub open spec fn pacman_flag(s: Seq<char>) -> bool {
    s == "disable-download-timeout"@
        || s == "d"@
        || s == "nodeps"@
        || s == "assume-installed"@
        || s == "dbonly"@
        || s == "absdir"@
        || s == "noprogressbar"@
        || s == "noscriptlet"@
        || s == "p"@
        || s == "print"@
        || s == "print-format"@
        || s == "asdeps"@
        || s == "asdep"@
        || s == "asexplicit"@
        || s == "asexp"@
        || s == "ignore"@
        || s == "ignoregroup"@
        || s == "needed"@
        || s == "overwrite"@
        || s == "f"@
        || s == "force"@
        || s == "c"@
        || s == "changelog"@
        || s == "deps"@
        || s == "e"@
        || s == "explicit"@
        || s == "g"@
        || s == "groups"@
        || s == "i"@
        || s == "info"@
        || s == "k"@
        || s == "check"@
        || s == "l"@
        || s == "list"@
        || s == "m"@
        || s == "foreign"@
        || s == "n"@
        || s == "native"@
        || s == "o"@
        || s == "owns"@
        || s == "file"@
        || s == "q"@
        || s == "quiet"@
        || s == "s"@
        || s == "search"@
        || s == "t"@
        || s == "unrequired"@
        || s == "u"@
        || s == "upgrades"@
        || s == "cascade"@
        || s == "nosave"@
        || s == "recursive"@
        || s == "unneeded"@
        || s == "clean"@
        || s == "optional"@
        || s == "sysupgrade"@
        || s == "w"@
        || s == "downloadonly"@
        || s == "y"@
        || s == "refresh"@
        || s == "x"@
        || s == "regex"@
        || s == "machinereadable"@
}

fn is_pacman_flag(s: &[char]) -> (r: bool)
    ensures
        r == pacman_flag(s@),
{
    str_is(s, "disable-download-timeout")
        || str_is(s, "d")
        || str_is(s, "nodeps")
        || str_is(s, "assume-installed")
        || str_is(s, "dbonly")
        || str_is(s, "absdir")
        || str_is(s, "noprogressbar")
        || str_is(s, "noscriptlet")
        || str_is(s, "p")
        || str_is(s, "print")
        || str_is(s, "print-format")
        || str_is(s, "asdeps")
        || str_is(s, "asdep")
        || str_is(s, "asexplicit")
        || str_is(s, "asexp")
        || str_is(s, "ignore")
        || str_is(s, "ignoregroup")
        || str_is(s, "needed")
        || str_is(s, "overwrite")
        || str_is(s, "f")
        || str_is(s, "force")
        || str_is(s, "c")
        || str_is(s, "changelog")
        || str_is(s, "deps")
        || str_is(s, "e")
        || str_is(s, "explicit")
        || str_is(s, "g")
        || str_is(s, "groups")
        || str_is(s, "i")
        || str_is(s, "info")
        || str_is(s, "k")
        || str_is(s, "check")
        || str_is(s, "l")
        || str_is(s, "list")
        || str_is(s, "m")
        || str_is(s, "foreign")
        || str_is(s, "n")
        || str_is(s, "native")
        || str_is(s, "o")
        || str_is(s, "owns")
        || str_is(s, "file")
        || str_is(s, "q")
        || str_is(s, "quiet")
        || str_is(s, "s")
        || str_is(s, "search")
        || str_is(s, "t")
        || str_is(s, "unrequired")
        || str_is(s, "u")
        || str_is(s, "upgrades")
        || str_is(s, "cascade")
        || str_is(s, "nosave")
        || str_is(s, "recursive")
        || str_is(s, "unneeded")
        || str_is(s, "clean")
        || str_is(s, "optional")
        || str_is(s, "sysupgrade")
        || str_is(s, "w")
        || str_is(s, "downloadonly")
        || str_is(s, "y")
        || str_is(s, "refresh")
        || str_is(s, "x")
        || str_is(s, "regex")
        || str_is(s, "machinereadable")
}

/// The pacman-style global options vary records.
pub open spec fn pacman_global(s: Seq<char>) -> bool {
    s == "b"@
        || s == "dbpath"@
        || s == "r"@
        || s == "root"@
        || s == "v"@
        || s == "verbose"@
        || s == "ask"@
        || s == "arch"@
        || s == "cachedir"@
        || s == "color"@
        || s == "config"@
        || s == "debug"@
        || s == "gpgdir"@
        || s == "hookdir"@
        || s == "logfile"@
        || s == "disable-download-timeout"@
        || s == "sysroot"@
        || s == "noconfirm"@
        || s == "confirm"@
        || s == "h"@
        || s == "help"@
}

fn is_pacman_global(s: &[char]) -> (r: bool)
    ensures
        r == pacman_global(s@),
{
    str_is(s, "b")
        || str_is(s, "dbpath")
        || str_is(s, "r")
        || str_is(s, "root")
        || str_is(s, "v")
        || str_is(s, "verbose")
        || str_is(s, "ask")
        || str_is(s, "arch")
        || str_is(s, "cachedir")
        || str_is(s, "color")
        || str_is(s, "config")
        || str_is(s, "debug")
        || str_is(s, "gpgdir")
        || str_is(s, "hookdir")
        || str_is(s, "logfile")
        || str_is(s, "disable-download-timeout")
        || str_is(s, "sysroot")
        || str_is(s, "noconfirm")
        || str_is(s, "confirm")
        || str_is(s, "h")
        || str_is(s, "help")
}

/// The architectures Void Linux supports.
pub open spec fn known_arch(s: Seq<char>) -> bool {
    s == "x86_64"@
        || s == "x86_64-musl"@
        || s == "i686"@
        || s == "i686-musl"@
        || s == "aarch64"@
        || s == "aarch64-musl"@
        || s == "armv7l"@
        || s == "armv7l-musl"@
        || s == "armv6l"@
        || s == "armv6l-musl"@
        || s == "ppc64le"@
        || s == "ppc64le-musl"@
        || s == "ppc64"@
        || s == "ppc64-musl"@
        || s == "ppc"@
        || s == "ppc-musl"@
        || s == "mips"@
        || s == "mips-musl"@
        || s == "mipsel"@
        || s == "mipsel-musl"@
        || s == "riscv64"@
        || s == "riscv64-musl"@
}

fn is_known_arch(s: &[char]) -> (r: bool)
    ensures
        r == known_arch(s@),
{
    str_is(s, "x86_64")
        || str_is(s, "x86_64-musl")
        || str_is(s, "i686")
        || str_is(s, "i686-musl")
        || str_is(s, "aarch64")
        || str_is(s, "aarch64-musl")
        || str_is(s, "armv7l")
        || str_is(s, "armv7l-musl")
        || str_is(s, "armv6l")
        || str_is(s, "armv6l-musl")
        || str_is(s, "ppc64le")
        || str_is(s, "ppc64le-musl")
        || str_is(s, "ppc64")
        || str_is(s, "ppc64-musl")
        || str_is(s, "ppc")
        || str_is(s, "ppc-musl")
        || str_is(s, "mips")
        || str_is(s, "mips-musl")
        || str_is(s, "mipsel")
        || str_is(s, "mipsel-musl")
        || str_is(s, "riscv64")
        || str_is(s, "riscv64-musl")
}

/// The supported architectures as listed in an error.
pub open spec fn supported_archs_text() -> Seq<char> {
    "x86_64, x86_64-musl, i686, i686-musl, aarch64, aarch64-musl, armv7l, armv7l-musl, armv6l, armv6l-musl, ppc64le, ppc64le-musl, ppc64, ppc64-musl, ppc, ppc-musl, mips, mips-musl, mipsel, mipsel-musl, riscv64, riscv64-musl"@
}

/// What the command line decides, as mathematical values.
pub ghost struct CliView {
    pub op: Op,
    pub help: bool,
    pub version: bool,
    pub targets: Seq<Seq<char>>,
    pub args: Seq<(Seq<char>, Option<Seq<char>>)>,
    pub color: ColorChoice,
    pub quiet: bool,
    pub interactive: bool,
    pub no_confirm: bool,
    pub verbose: u8,
    pub sudo_bin: Seq<char>,
    pub sudo_flags: Seq<Seq<char>>,
    pub git_bin: Seq<char>,
    pub curl_bin: Seq<char>,
    pub arch_override: Option<Seq<char>>,
    pub force_build: bool,
    pub prefer_binary: bool,
}

impl Config {
    pub open spec fn cli(&self) -> CliView {
        CliView {
            op: self.op,
            help: self.help,
            version: self.version,
            targets: strs_view(self.targets@),
            args: args_view(self.args.args@),
            color: self.color,
            quiet: self.quiet,
            interactive: self.interactive,
            no_confirm: self.no_confirm,
            verbose: self.verbose,
            sudo_bin: self.sudo_bin@,
            sudo_flags: strs_view(self.sudo_flags@),
            git_bin: self.git_bin@,
            curl_bin: self.curl_bin@,
            arch_override: opt_view(self.arch_override),
            force_build: self.force_build,
            prefer_binary: self.prefer_binary,
        }
    }

    /// The settings the command line does not touch are those of `other`.
    pub open spec fn keeps_settings(&self, other: &Config) -> bool {
        &&& self.sudo_flags_from_cli == other.sudo_flags_from_cli
        &&& self.tools_install_bin == other.tools_install_bin
        &&& self.cache_dir == other.cache_dir
        &&& self.data_dir == other.data_dir
        &&& self.config_dir == other.config_dir
        &&& self.log_level == other.log_level
        &&& self.max_concurrent_builds == other.max_concurrent_builds
        &&& self.makejobs == other.makejobs
        &&& self.force_rebuild == other.force_rebuild
        &&& self.ttl_cache_seconds == other.ttl_cache_seconds
    }
}

/// An option as given: one character after `-`, or a name after `--`.
#[derive(Debug, Clone, Copy)]
pub enum CliArg<'a> {
    Short(char),
    Long(&'a str),
}

/// An option as (is it short, its key).
pub open spec fn arg_view(a: CliArg) -> (bool, Seq<char>) {
    match a {
        CliArg::Short(c) => (true, seq![c]),
        CliArg::Long(l) => (false, l@),
    }
}

pub open spec fn is_long(a: (bool, Seq<char>), name: Seq<char>) -> bool {
    !a.0 && a.1 == name
}

pub open spec fn is_short(a: (bool, Seq<char>), c: char) -> bool {
    a.0 && a.1 == seq![c]
}

/// The options that take a value: `--sudo`, `--sudoflags`, `--git`,
/// `--curl`, `--arch`, `--color`.
pub open spec fn takes_value(a: (bool, Seq<char>)) -> bool {
    is_long(a, "sudo"@) || is_long(a, "sudoflags"@) || is_long(a, "git"@) || is_long(a, "curl"@)
        || is_long(a, "arch"@) || is_long(a, "color"@)
}

/// An option as written (`-c` or `--name`).
pub open spec fn arg_text(a: (bool, Seq<char>)) -> Seq<char> {
    (if a.0 {
        "-"@
    } else {
        "--"@
    }) + a.1
}

/// vary's own long options, accepted besides the pacman-style ones.
pub open spec fn vary_long(s: Seq<char>) -> bool {
    s == "force-build"@ || s == "prefer-binary"@ || s == "no-prefer-binary"@ || s == "interactive"@
        || s == "sudo"@ || s == "sudoflags"@ || s == "git"@ || s == "curl"@ || s == "arch"@
        || s == "help"@ || s == "version"@ || s == "noconfirm"@ || s == "confirm"@ || s
        == "color"@ || s == "verbose"@ || s == "quiet"@
}

/// The short options vary accepts besides the pacman-style ones.
pub open spec fn vary_short(c: Seq<char>) -> bool {
    c == seq!['h'] || c == seq!['V'] || c == seq!['v'] || c == seq!['q'] || c == seq!['S'] || c
        == seq!['R'] || c == seq!['s'] || c == seq!['i'] || c == seq!['y'] || c == seq!['u'] || c
        == seq!['w']
}

pub open spec fn print_message() -> Seq<char> {
    "el flag --print / -p no está soportado (reservado para Roadmap P0-4). Para instalar use vary -S <pkg>"@
}

pub open spec fn with_args(v: CliView, extra: Seq<(Seq<char>, Option<Seq<char>>)>) -> CliView {
    CliView { args: v.args + extra, ..v }
}

/// The options that set a flag or the color.
pub open spec fn basic_arg(a: (bool, Seq<char>)) -> bool {
    is_long(a, "help"@) || is_short(a, 'h') || is_long(a, "version"@) || is_short(a, 'V')
        || is_long(a, "noconfirm"@) || is_long(a, "confirm"@) || is_long(a, "color"@) || is_long(
        a,
        "verbose"@,
    ) || is_short(a, 'v') || is_long(a, "quiet"@) || is_short(a, 'q')
}

/// The options that set a value or a build preference.
pub open spec fn value_arg(a: (bool, Seq<char>)) -> bool {
    is_long(a, "arch"@) || is_long(a, "sudo"@) || is_long(a, "sudoflags"@) || is_long(a, "git"@)
        || is_long(a, "curl"@) || is_long(a, "force-build"@) || is_long(a, "prefer-binary"@)
        || is_long(a, "no-prefer-binary"@) || is_long(a, "interactive"@)
}

pub open spec fn basic_effect(v: CliView, a: (bool, Seq<char>), val: Option<Seq<char>>) -> (CliView, Option<Seq<char>>) {
    if is_long(a, "help"@) || is_short(a, 'h') {
        (CliView { help: true, ..v }, None)
    } else if is_long(a, "version"@) || is_short(a, 'V') {
        (CliView { version: true, ..v }, None)
    } else if is_long(a, "noconfirm"@) {
        (CliView { no_confirm: true, ..v }, None)
    } else if is_long(a, "confirm"@) {
        (CliView { no_confirm: false, ..v }, None)
    } else if is_long(a, "color"@) {
        let c = match val {
            Some(x) => x,
            None => "auto"@,
        };
        if c == "always"@ {
            (CliView { color: ColorChoice::Always, ..v }, None)
        } else if c == "never"@ {
            (CliView { color: ColorChoice::Never, ..v }, None)
        } else if c == "auto"@ {
            (CliView { color: ColorChoice::Auto, ..v }, None)
        } else {
            (v, Some("invalid --color value '"@ + c + "' (expected always|never|auto)"@))
        }
    } else if is_long(a, "verbose"@) || is_short(a, 'v') {
        (CliView {
            verbose: if v.verbose < 255 {
                (v.verbose + 1) as u8
            } else {
                255
            },
            ..v
        }, None)
    } else {
        (CliView { quiet: true, ..v }, None)
    }
}

pub open spec fn value_effect(v: CliView, a: (bool, Seq<char>), val: Option<Seq<char>>) -> (CliView, Option<Seq<char>>) {
    if is_long(a, "arch"@) {
        match val {
            None => (v, Some("la opción --arch requiere un valor"@)),
            Some(x) => if !known_arch(x) {
                (v, Some("invalid --arch value '"@ + x + "' (supported: "@ + supported_archs_text() + ")"@))
            } else {
                (CliView { arch_override: Some(x), ..v }, None)
            },
        }
    } else if is_long(a, "sudo"@) || is_long(a, "sudoflags"@) || is_long(a, "git"@) || is_long(a, "curl"@) {
        match val {
            None => (v, Some("la opción "@ + arg_text(a) + " requiere un valor"@)),
            Some(x) => if is_long(a, "sudo"@) {
                (CliView { sudo_bin: x, ..v }, None)
            } else if is_long(a, "sudoflags"@) {
                (CliView { sudo_flags: v.sudo_flags + split_ws(x), ..v }, None)
            } else if is_long(a, "git"@) {
                (CliView { git_bin: x, ..v }, None)
            } else {
                (CliView { curl_bin: x, ..v }, None)
            },
        }
    } else if is_long(a, "force-build"@) {
        (CliView { force_build: true, ..v }, None)
    } else if is_long(a, "prefer-binary"@) {
        (CliView { prefer_binary: true, ..v }, None)
    } else if is_long(a, "no-prefer-binary"@) {
        (CliView { prefer_binary: false, ..v }, None)
    } else {
        (CliView { interactive: true, ..v }, None)
    }
}

pub open spec fn other_effect(v: CliView, a: (bool, Seq<char>), oc: u8) -> (CliView, u8, Option<Seq<char>>) {
    if is_long(a, "print"@) || is_short(a, 'p') || is_long(a, "print-format"@) {
        (v, oc, Some(print_message()))
    } else if is_long(a, "search"@) || is_short(a, 's') {
        (with_args(v, seq![("s"@, None), ("search"@, None)]), oc, None)
    } else if is_long(a, "info"@) || is_short(a, 'i') {
        (with_args(v, seq![("i"@, None), ("info"@, None)]), oc, None)
    } else if is_long(a, "refresh"@) || is_short(a, 'y') {
        (with_args(v, seq![("y"@, None), ("refresh"@, None)]), oc, None)
    } else if is_long(a, "sysupgrade"@) || is_short(a, 'u') {
        (with_args(v, seq![("u"@, None), ("sysupgrade"@, None)]), oc, None)
    } else if is_long(a, "downloadonly"@) || is_short(a, 'w') {
        (with_args(v, seq![("w"@, None), ("downloadonly"@, None)]), oc, None)
    } else if is_long(a, "asdeps"@) {
        (with_args(v, seq![("asdeps"@, None)]), oc, None)
    } else if is_long(a, "asexplicit"@) {
        (with_args(v, seq![("asexplicit"@, None)]), oc, None)
    } else if is_long(a, "sync"@) || is_short(a, 'S') {
        (CliView { op: Op::Sync, ..v }, (oc + 1) as u8, None)
    } else if is_long(a, "remove"@) || is_short(a, 'R') {
        (CliView { op: Op::Remove, ..v }, (oc + 1) as u8, None)
    } else if !a.0 && !pacman_flag(a.1) && !pacman_global(a.1) && !vary_long(a.1) {
        (v, oc, Some("unknown option --"@ + a.1))
    } else if a.0 && !pacman_flag(a.1) && !pacman_global(a.1) && !vary_short(a.1) {
        (v, oc, Some("unknown option -"@ + a.1))
    } else {
        (v, oc, None)
    }
}

/// What an option does once recorded: the settings, the number of
/// operations seen, and the error that stops the parse.
pub open spec fn option_effect(v: CliView, a: (bool, Seq<char>), val: Option<Seq<char>>, oc: u8) -> (CliView, u8, Option<Seq<char>>) {
    if basic_arg(a) {
        let e = basic_effect(v, a, val);
        (e.0, oc, e.1)
    } else if value_arg(a) {
        let e = value_effect(v, a, val);
        (e.0, oc, e.1)
    } else {
        other_effect(v, a, oc)
    }
}

/// Handling one option with its value: a required value must be there; a
/// value is dropped where none is taken (unless given with `=`); a
/// pacman-style option is recorded (once as global, once as flag); a
/// second operation is refused; then the option takes effect, and a value
/// given to an option without one is refused.
pub open spec fn handle(v: CliView, a: (bool, Seq<char>), value: Option<Seq<char>>, oc: u8, forced: bool) -> (CliView, u8, Option<Seq<char>>) {
    if takes_value(a) && value is None {
        (v, oc, Some("option "@ + arg_text(a) + " expects a value"@))
    } else {
        let val = if !takes_value(a) && !forced {
            None
        } else {
            value
        };
        let v1 = if pacman_global(a.1) {
            with_args(v, seq![(a.1, val)])
        } else {
            v
        };
        let v2 = if pacman_flag(a.1) {
            with_args(v1, seq![(a.1, val)])
        } else {
            v1
        };
        if oc > 0 && (is_long(a, "sync"@) || is_short(a, 'S') || is_long(a, "remove"@) || is_short(a, 'R')) {
            (v2, oc, Some("only one operation may be used at a time"@))
        } else {
            let (v3, oc3, err) = option_effect(v2, a, val, oc);
            if err is Some {
                (v3, oc3, err)
            } else if !takes_value(a) && forced {
                (v3, oc3, Some("option "@ + arg_text(a) + " does not allow a value"@))
            } else {
                (v3, oc3, None)
            }
        }
    }
}

pub open spec fn opt_str(o: Option<&str>) -> Option<Seq<char>> {
    match o {
        Some(s) => Some(s@),
        None => None,
    }
}

fn is_long_exec(a: CliArg, name: &str) -> (r: bool)
    ensures
        r == is_long(arg_view(a), name@),
{
    match a {
        CliArg::Long(l) => crate::text::chars_eq(&chars_of(l), &chars_of(name)),
        CliArg::Short(_) => false,
    }
}

fn is_short_exec(a: CliArg, c: char) -> (r: bool)
    ensures
        r == is_short(arg_view(a), c),
{
    match a {
        CliArg::Short(d) => {
            proof {
                if seq![d] == seq![c] {
                    assert(seq![d][0] == seq![c][0]);
                }
            }
            d == c
        },
        CliArg::Long(_) => false,
    }
}

fn key_chars(a: CliArg) -> (r: Vec<char>)
    ensures
        r@ == arg_view(a).1,
{
    match a {
        CliArg::Short(c) => {
            let v = vec![c];
            assert(v@ =~= seq![c]);
            v
        },
        CliArg::Long(l) => chars_of(l),
    }
}

fn arg_text_exec(a: CliArg) -> (r: String)
    ensures
        r@ == arg_text(arg_view(a)),
{
    let k = key_chars(a);
    let mut s = match a {
        CliArg::Short(_) => "-".to_string(),
        CliArg::Long(_) => "--".to_string(),
    };
    push_str(&mut s, string_from(&k).as_str());
    s
}

fn takes_value_exec(a: CliArg) -> (r: bool)
    ensures
        r == takes_value(arg_view(a)),
{
    is_long_exec(a, "sudo") || is_long_exec(a, "sudoflags") || is_long_exec(a, "git")
        || is_long_exec(a, "curl") || is_long_exec(a, "arch") || is_long_exec(a, "color")
}

fn to_owned_opt(o: Option<&str>) -> (r: Option<String>)
    ensures
        opt_view(r) == opt_str(o),
{
    match o {
        Some(s) => Some(s.to_string()),
        None => None,
    }
}

impl Config {
    /// Records a pacman-style option.
    fn record(&mut self, key: &str, val: Option<&str>)
        ensures
            final(self).cli() == with_args(old(self).cli(), seq![(key@, opt_str(val))]),
            final(self).keeps_settings(old(self)),
    {
        let ghost o = self.args.args@;
        self.args.args.push(Arg { key: key.to_string(), value: to_owned_opt(val) });
        assert(args_view(self.args.args@) =~= args_view(o) + seq![(key@, opt_str(val))]);
    }

    fn record_pair(&mut self, a: &str, b: &str)
        ensures
            final(self).cli() == with_args(old(self).cli(), seq![(a@, None), (b@, None)]),
            final(self).keeps_settings(old(self)),
    {
        self.record(a, None);
        self.record(b, None);
        assert(args_view(self.args.args@) =~= args_view(old(self).args.args@) + seq![(a@, None::<Seq<char>>), (b@, None::<Seq<char>>)]);
    }

    #[verifier::rlimit(50)]
    #[verifier::spinoff_prover]
    fn basic_effect_exec(&mut self, a: CliArg, val: Option<&str>) -> (r: Result<(), String>)
        requires
            basic_arg(arg_view(a)),
        ensures
            ({
                let e = basic_effect(old(self).cli(), arg_view(a), opt_str(val));
                &&& final(self).cli() == e.0
                &&& match r {
                    Ok(()) => e.1 is None,
                    Err(m) => e.1 == Some(m@),
                }
            }),
            final(self).keeps_settings(old(self)),
    {
        if is_long_exec(a, "help") || is_short_exec(a, 'h') {
            self.help = true;
        } else if is_long_exec(a, "version") || is_short_exec(a, 'V') {
            self.version = true;
        } else if is_long_exec(a, "noconfirm") {
            self.no_confirm = true;
        } else if is_long_exec(a, "confirm") {
            self.no_confirm = false;
        } else if is_long_exec(a, "color") {
            let c = match val {
                Some(x) => chars_of(x),
                None => chars_of("auto"),
            };
            if str_is(&c, "always") {
                self.color = ColorChoice::Always;
            } else if str_is(&c, "never") {
                self.color = ColorChoice::Never;
            } else if str_is(&c, "auto") {
                self.color = ColorChoice::Auto;
            } else {
                let mut m = "invalid --color value '".to_string();
                push_str(&mut m, string_from(&c).as_str());
                push_str(&mut m, "' (expected always|never|auto)");
                return Err(m);
            }
        } else if is_long_exec(a, "verbose") || is_short_exec(a, 'v') {
            self.verbose = if self.verbose < 255 {
                self.verbose + 1
            } else {
                255
            };
        } else {
            self.quiet = true;
        }
        Ok(())
    }

    fn push_sudo_flags(&mut self, v: &str)
        ensures
            final(self).cli() == (CliView { sudo_flags: old(self).cli().sudo_flags + split_ws(v@), ..old(self).cli() }),
            final(self).keeps_settings(old(self)),
    {
        let ws = crate::text::split_ws_of(&chars_of(v));
        let mut i: usize = 0;
        let ghost o = strs_view(self.sudo_flags@);
        assert(crate::text::views(ws@).take(0) =~= Seq::<Seq<char>>::empty());
        while i < ws.len()
            invariant
                i <= ws@.len(),
                strs_view(self.sudo_flags@) == o + crate::text::views(ws@).take(i as int),
                self.cli() == (CliView { sudo_flags: strs_view(self.sudo_flags@), ..old(self).cli() }),
                self.keeps_settings(old(self)),
                o == old(self).cli().sudo_flags,
            decreases ws@.len() - i,
        {
            let ghost before = strs_view(self.sudo_flags@);
            self.sudo_flags.push(string_from(&ws[i]));
            assert(strs_view(self.sudo_flags@) =~= before.push(ws@[i as int]@));
            assert(crate::text::views(ws@).take(i + 1) =~= crate::text::views(ws@).take(i as int).push(ws@[i as int]@));
            i = i + 1;
        }
        assert(crate::text::views(ws@).take(ws@.len() as int) =~= crate::text::views(ws@));
    }

    #[verifier::rlimit(50)]
    #[verifier::spinoff_prover]
    fn value_effect_exec(&mut self, a: CliArg, val: Option<&str>) -> (r: Result<(), String>)
        requires
            value_arg(arg_view(a)),
        ensures
            ({
                let e = value_effect(old(self).cli(), arg_view(a), opt_str(val));
                &&& final(self).cli() == e.0
                &&& match r {
                    Ok(()) => e.1 is None,
                    Err(m) => e.1 == Some(m@),
                }
            }),
            final(self).keeps_settings(old(self)),
    {
        if is_long_exec(a, "arch") {
            match val {
                None => {
                    return Err("la opción --arch requiere un valor".to_string());
                },
                Some(x) => {
                    if !is_known_arch(&chars_of(x)) {
                        let mut m = "invalid --arch value '".to_string();
                        push_str(&mut m, x);
                        push_str(&mut m, "' (supported: ");
                        push_str(&mut m, "x86_64, x86_64-musl, i686, i686-musl, aarch64, aarch64-musl, armv7l, armv7l-musl, armv6l, armv6l-musl, ppc64le, ppc64le-musl, ppc64, ppc64-musl, ppc, ppc-musl, mips, mips-musl, mipsel, mipsel-musl, riscv64, riscv64-musl");
                        push_str(&mut m, ")");
                        return Err(m);
                    }
                    self.arch_override = Some(x.to_string());
                },
            }
        } else if is_long_exec(a, "sudo") || is_long_exec(a, "sudoflags") || is_long_exec(a, "git")
            || is_long_exec(a, "curl") {
            match val {
                None => {
                    let mut m = "la opción ".to_string();
                    push_str(&mut m, arg_text_exec(a).as_str());
                    push_str(&mut m, " requiere un valor");
                    return Err(m);
                },
                Some(x) => {
                    if is_long_exec(a, "sudo") {
                        self.sudo_bin = x.to_string();
                    } else if is_long_exec(a, "sudoflags") {
                        self.push_sudo_flags(x);
                    } else if is_long_exec(a, "git") {
                        self.git_bin = x.to_string();
                    } else {
                        self.curl_bin = x.to_string();
                    }
                },
            }
        } else if is_long_exec(a, "force-build") {
            self.force_build = true;
        } else if is_long_exec(a, "prefer-binary") {
            self.prefer_binary = true;
        } else if is_long_exec(a, "no-prefer-binary") {
            self.prefer_binary = false;
        } else {
            self.interactive = true;
        }
        Ok(())
    }

    #[verifier::rlimit(50)]
    #[verifier::spinoff_prover]
    fn other_effect_exec(&mut self, a: CliArg, oc: &mut u8) -> (r: Result<(), String>)
        requires
            *old(oc) == 0 || !(is_long(arg_view(a), "sync"@) || is_short(arg_view(a), 'S')
                || is_long(arg_view(a), "remove"@) || is_short(arg_view(a), 'R')),
        ensures
            ({
                let e = other_effect(old(self).cli(), arg_view(a), *old(oc));
                &&& final(self).cli() == e.0
                &&& *final(oc) == e.1
                &&& match r {
                    Ok(()) => e.2 is None,
                    Err(m) => e.2 == Some(m@),
                }
            }),
            final(self).keeps_settings(old(self)),
    {
        if is_long_exec(a, "print") || is_short_exec(a, 'p') || is_long_exec(a, "print-format") {
            return Err(
                "el flag --print / -p no está soportado (reservado para Roadmap P0-4). Para instalar use vary -S <pkg>".to_string(),
            );
        } else if is_long_exec(a, "search") || is_short_exec(a, 's') {
            self.record_pair("s", "search");
        } else if is_long_exec(a, "info") || is_short_exec(a, 'i') {
            self.record_pair("i", "info");
        } else if is_long_exec(a, "refresh") || is_short_exec(a, 'y') {
            self.record_pair("y", "refresh");
        } else if is_long_exec(a, "sysupgrade") || is_short_exec(a, 'u') {
            self.record_pair("u", "sysupgrade");
        } else if is_long_exec(a, "downloadonly") || is_short_exec(a, 'w') {
            self.record_pair("w", "downloadonly");
        } else if is_long_exec(a, "asdeps") {
            self.record("asdeps", None);
        } else if is_long_exec(a, "asexplicit") {
            self.record("asexplicit", None);
        } else if is_long_exec(a, "sync") || is_short_exec(a, 'S') {
            self.op = Op::Sync;
            *oc = *oc + 1;
        } else if is_long_exec(a, "remove") || is_short_exec(a, 'R') {
            self.op = Op::Remove;
            *oc = *oc + 1;
        } else {
            let k = key_chars(a);
            let pf = is_pacman_flag(&k);
            let pg = is_pacman_global(&k);
            match a {
                CliArg::Long(l) => {
                    if !pf && !pg && !is_vary_long(&k) {
                        return Err(crate::text::concat("unknown option --", l));
                    }
                },
                CliArg::Short(c) => {
                    if !pf && !pg && !is_vary_short(c) {
                        let mut m = "unknown option -".to_string();
                        crate::text::push_char(&mut m, c);
                        return Err(m);
                    }
                },
            }
        }
        Ok(())
    }

    fn option_effect_exec(&mut self, a: CliArg, val: Option<&str>, oc: &mut u8) -> (r: Result<(), String>)
        requires
            *old(oc) == 0 || !(is_long(arg_view(a), "sync"@) || is_short(arg_view(a), 'S')
                || is_long(arg_view(a), "remove"@) || is_short(arg_view(a), 'R')),
        ensures
            ({
                let e = option_effect(old(self).cli(), arg_view(a), opt_str(val), *old(oc));
                &&& final(self).cli() == e.0
                &&& *final(oc) == e.1
                &&& match r {
                    Ok(()) => e.2 is None,
                    Err(m) => e.2 == Some(m@),
                }
            }),
            final(self).keeps_settings(old(self)),
    {
        let basic = is_long_exec(a, "help") || is_short_exec(a, 'h') || is_long_exec(a, "version")
            || is_short_exec(a, 'V') || is_long_exec(a, "noconfirm") || is_long_exec(a, "confirm")
            || is_long_exec(a, "color") || is_long_exec(a, "verbose") || is_short_exec(a, 'v')
            || is_long_exec(a, "quiet") || is_short_exec(a, 'q');
        if basic {
            return self.basic_effect_exec(a, val);
        }
        let value = is_long_exec(a, "arch") || is_long_exec(a, "sudo") || is_long_exec(a, "sudoflags")
            || is_long_exec(a, "git") || is_long_exec(a, "curl") || is_long_exec(a, "force-build")
            || is_long_exec(a, "prefer-binary") || is_long_exec(a, "no-prefer-binary")
            || is_long_exec(a, "interactive");
        if value {
            return self.value_effect_exec(a, val);
        }
        self.other_effect_exec(a, oc)
    }
}

fn is_vary_long(s: &[char]) -> (r: bool)
    ensures
        r == vary_long(s@),
{
    str_is(s, "force-build") || str_is(s, "prefer-binary") || str_is(s, "no-prefer-binary") || str_is(s, "interactive")
        || str_is(s, "sudo") || str_is(s, "sudoflags") || str_is(s, "git") || str_is(s, "curl")
        || str_is(s, "arch") || str_is(s, "help") || str_is(s, "version") || str_is(s, "noconfirm")
        || str_is(s, "confirm") || str_is(s, "color") || str_is(s, "verbose") || str_is(s, "quiet")
}

fn is_vary_short(c: char) -> (r: bool)
    ensures
        r == vary_short(seq![c]),
{
    proof {
        assert(forall|d: char| seq![c] == seq![d] <==> c == d) by {
            assert forall|d: char| seq![c] == seq![d] implies c == d by {
                assert(seq![c][0] == seq![d][0]);
            }
        }
    }
    c == 'h' || c == 'V' || c == 'v' || c == 'q' || c == 'S' || c == 'R' || c == 's' || c == 'i'
        || c == 'y' || c == 'u' || c == 'w'
}

impl Config {
    /// Handles one option (see [`handle`]).
    #[verifier::rlimit(50)]
    #[verifier::spinoff_prover]
    pub fn handle_arg(&mut self, arg: CliArg, value: Option<&str>, op_count: &mut u8, forced: bool) -> (r: Result<(), String>)
        ensures
            ({
                let h = handle(old(self).cli(), arg_view(arg), opt_str(value), *old(op_count), forced);
                &&& final(self).cli() == h.0
                &&& *final(op_count) == h.1
                &&& match r {
                    Ok(()) => h.2 is None,
                    Err(m) => h.2 == Some(m@),
                }
            }),
            final(self).keeps_settings(old(self)),
    {
        let takes = takes_value_exec(arg);
        if takes && value.is_none() {
            let mut m = "option ".to_string();
            push_str(&mut m, arg_text_exec(arg).as_str());
            push_str(&mut m, " expects a value");
            return Err(m);
        }
        let val = if !takes && !forced {
            None
        } else {
            value
        };
        let k = key_chars(arg);
        let ks = string_from(&k);
        if is_pacman_global(&k) {
            self.record(ks.as_str(), val);
        }
        if is_pacman_flag(&k) {
            self.record(ks.as_str(), val);
        }
        if *op_count > 0 && (is_long_exec(arg, "sync") || is_short_exec(arg, 'S') || is_long_exec(arg, "remove") || is_short_exec(arg, 'R')) {
            return Err("only one operation may be used at a time".to_string());
        }
        match self.option_effect_exec(arg, val, op_count) {
            Err(m) => {
                return Err(m);
            },
            Ok(()) => {},
        }
        if !takes && forced {
            let mut m = "option ".to_string();
            push_str(&mut m, arg_text_exec(arg).as_str());
            push_str(&mut m, " does not allow a value");
            return Err(m);
        }
        Ok(())
    }
}


/// `s` without its leading `--` repeats (`trim_start_matches("--")`).
pub open spec fn strip_dashes(s: Seq<char>) -> Seq<char>
    decreases s.len(),
{
    if s.len() >= 2 && s[0] == '-' && s[1] == '-' {
        strip_dashes(s.skip(2))
    } else {
        s
    }
}

/// The parse state besides the settings: operations seen and whether `--`
/// ended the options.
pub open spec fn short_run(v: CliView, cs: Seq<char>, oc: u8) -> (CliView, u8, Option<Seq<char>>)
    decreases cs.len(),
{
    if cs.len() == 0 {
        (v, oc, None)
    } else {
        let h = handle(v, (true, seq![cs[0]]), None, oc, false);
        if h.2 is Some {
            h
        } else {
            short_run(h.0, cs.drop_first(), h.1)
        }
    }
}

/// One command-line word (with the next one, which an option may take as
/// its value): the settings after it, operations seen, whether options
/// ended, and whether the next word was used — or the error.
pub open spec fn parse_word(v: CliView, oc: u8, end: bool, arg: Seq<char>, next: Option<Seq<char>>) -> (CliView, u8, bool, Result<bool, Seq<char>>) {
    if arg == "-"@ || end {
        (CliView { targets: v.targets.push(arg), ..v }, oc, end, Ok(false))
    } else if arg == "--"@ {
        (v, oc, true, Ok(false))
    } else if crate::text::has_prefix(arg, "--"@) {
        let eq = crate::xbps::find_char(arg, '=');
        let name = strip_dashes(match eq {
            Some(e) => arg.take(e),
            None => arg,
        });
        let a = (false, name);
        let (value, used_next, forced) = match eq {
            Some(e) => (Some(arg.skip(e + 1)), false, true),
            None => (next, takes_value(a), false),
        };
        let h = handle(v, a, value, oc, forced);
        (h.0, h.1, end, match h.2 {
            Some(m) => Err(m),
            None => Ok(used_next),
        })
    } else if crate::text::has_prefix(arg, "-"@) {
        let r = short_run(v, arg.drop_first(), oc);
        (r.0, r.1, end, match r.2 {
            Some(m) => Err(m),
            None => Ok(false),
        })
    } else {
        (CliView { targets: v.targets.push(arg), ..v }, oc, end, Ok(false))
    }
}

impl Config {
    /// Reads one command-line word (see [`parse_word`]); whether it used
    /// the next word as its value.
    #[verifier::rlimit(50)]
    #[verifier::spinoff_prover]
    pub fn parse_arg(&mut self, arg: &str, value: Option<&str>, op_count: &mut u8, end_of_ops: &mut bool) -> (r: Result<bool, String>)
        ensures
            ({
                let p = parse_word(old(self).cli(), *old(op_count), *old(end_of_ops), arg@, opt_str(value));
                &&& final(self).cli() == p.0
                &&& *final(op_count) == p.1
                &&& *final(end_of_ops) == p.2
                &&& match r {
                    Ok(b) => p.3 == Ok::<bool, Seq<char>>(b),
                    Err(m) => p.3 == Err::<bool, Seq<char>>(m@),
                }
            }),
            final(self).keeps_settings(old(self)),
    {
        let cs = chars_of(arg);
        if str_is(&cs, "-") || *end_of_ops {
            let ghost o = strs_view(self.targets@);
            self.targets.push(arg.to_string());
            assert(strs_view(self.targets@) =~= o.push(arg@));
            return Ok(false);
        }
        if str_is(&cs, "--") {
            *end_of_ops = true;
            return Ok(false);
        }
        if crate::text::str_starts(&cs, "--") {
            proof {
                reveal_strlit("--");
            }
            let eq = find_eq(&cs);
            let head = match eq {
                Some(e) => crate::text::slice_vec(&cs, 0, e),
                None => crate::text::slice_vec(&cs, 0, cs.len()),
            };
            proof {
                match eq {
                    Some(e) => assert(head@ =~= arg@.take(e as int)),
                    None => assert(head@ =~= arg@),
                }
            }
            let name_chars = strip_dashes_exec(&head);
            let name = string_from(&name_chars);
            let a = CliArg::Long(name.as_str());
            let (val_owned, used_next, forced) = match eq {
                Some(e) => {
                    let n = cs.len();
                    assert(e < n);
                    let rest = crate::text::slice_vec(&cs, e + 1, n);
                    assert(rest@ =~= arg@.skip(e + 1));
                    (Some(string_from(&rest)), false, true)
                },
                None => (None, takes_value_exec(a), false),
            };
            let v = match &val_owned {
                Some(x) => Some(x.as_str()),
                None => value,
            };
            return match self.handle_arg(a, v, op_count, forced) {
                Ok(()) => Ok(used_next),
                Err(m) => Err(m),
            };
        }
        if crate::text::str_starts(&cs, "-") {
            proof {
                reveal_strlit("-");
            }
            let mut i: usize = 1;
            assert(arg@.drop_first() =~= arg@.skip(1));
            while i < cs.len()
                invariant
                    1 <= i <= cs@.len(),
                    cs@ == arg@,
                    short_run(old(self).cli(), arg@.drop_first(), *old(op_count)) == short_run(self.cli(), arg@.skip(i as int), *op_count),
                    self.keeps_settings(old(self)),
                    *end_of_ops == *old(end_of_ops),
                    !(arg@ == "-"@ || *old(end_of_ops)),
                    arg@ != "--"@,
                    !crate::text::has_prefix(arg@, "--"@),
                    crate::text::has_prefix(arg@, "-"@),
                decreases cs@.len() - i,
            {
                let c = cs[i];
                assert(arg@.skip(i as int)[0] == c);
                assert(arg@.skip(i as int).drop_first() =~= arg@.skip(i + 1));
                let ghost before = self.cli();
                let ghost oc_before = *op_count;
                let ghost h = handle(before, (true, seq![c]), None, oc_before, false);
                assert(short_run(before, arg@.skip(i as int), oc_before) == (if h.2 is Some {
                    h
                } else {
                    short_run(h.0, arg@.skip(i + 1), h.1)
                }));
                match self.handle_arg(CliArg::Short(c), None, op_count, false) {
                    Ok(()) => {},
                    Err(m) => {
                        assert(short_run(old(self).cli(), arg@.drop_first(), *old(op_count)) == h);
                        return Err(m);
                    },
                }
                i = i + 1;
            }
            assert(arg@.skip(i as int) =~= Seq::<char>::empty());
            return Ok(false);
        }
        let ghost o = strs_view(self.targets@);
        self.targets.push(arg.to_string());
        assert(strs_view(self.targets@) =~= o.push(arg@));
        Ok(false)
    }
}

fn find_eq(cs: &Vec<char>) -> (r: Option<usize>)
    ensures
        match r {
            Some(e) => crate::xbps::find_char(cs@, '=') == Some(e as int) && e < cs@.len(),
            None => crate::xbps::find_char(cs@, '=') is None,
        },
{
    let ghost f = crate::xbps::char_pred('=');
    let mut i: usize = 0;
    while i < cs.len() && cs[i] != '='
        invariant
            i <= cs@.len(),
            f == crate::xbps::char_pred('='),
            first_match_from_eq(cs@, f, i as int),
        decreases cs@.len() - i,
    {
        i = i + 1;
    }
    proof {
        crate::text::lemma_first_match_from(cs@, f, 0);
    }
    if i < cs.len() {
        Some(i)
    } else {
        None
    }
}

pub open spec fn first_match_from_eq(s: Seq<char>, f: spec_fn(char) -> bool, i: int) -> bool {
    crate::text::first_match_from(s, f, 0) == crate::text::first_match_from(s, f, i)
}

fn strip_dashes_exec(s: &Vec<char>) -> (r: Vec<char>)
    ensures
        r@ == strip_dashes(s@),
{
    let mut i: usize = 0;
    let slen = s.len();
    assert(s@.skip(0) =~= s@);
    while i < slen && slen - i >= 2 && s[i] == '-' && s[i + 1] == '-'
        invariant
            i <= s@.len(),
            slen == s@.len(),
            strip_dashes(s@) == strip_dashes(s@.skip(i as int)),
        decreases s@.len() - i,
    {
        assert(s@.skip(i as int).skip(2) =~= s@.skip(i + 2));
        i = i + 2;
    }
    let r = crate::text::slice_vec(s, i, s.len());
    assert(r@ =~= s@.skip(i as int));
    r
}

/// A `--repo` subcommand.
#[derive(Debug, Clone)]
pub enum RepoCmd {
    Add { url: String, name: Option<String>, branch: Option<String>, index_url: Option<String> },
    List,
    Remove { name: String, purge: bool },
    Rekey(String),
}

/// A [`RepoCmd`] as a mathematical value.
pub ghost enum RepoCmdView {
    Add(Seq<char>, Option<Seq<char>>, Option<Seq<char>>, Option<Seq<char>>),
    List,
    Remove(Seq<char>, bool),
    Rekey(Seq<char>),
}

impl View for RepoCmd {
    type V = RepoCmdView;

    open spec fn view(&self) -> RepoCmdView {
        match self {
            RepoCmd::Add { url, name, branch, index_url } => RepoCmdView::Add(
                url@,
                opt_view(*name),
                opt_view(*branch),
                opt_view(*index_url),
            ),
            RepoCmd::List => RepoCmdView::List,
            RepoCmd::Remove { name, purge } => RepoCmdView::Remove(name@, *purge),
            RepoCmd::Rekey(n) => RepoCmdView::Rekey(n@),
        }
    }
}

pub open spec fn words_view(raw: Seq<&str>) -> Seq<Seq<char>> {
    raw.map_values(|s: &str| s@)
}

/// The options of `--repo add <url>` from word `i`: an optional name,
/// `--branch` and `--index-url` (as `--opt value` or `--opt=value`).
pub open spec fn add_options(
    raw: Seq<Seq<char>>,
    i: int,
    name: Option<Seq<char>>,
    branch: Option<Seq<char>>,
    index_url: Option<Seq<char>>,
) -> Result<(Option<Seq<char>>, Option<Seq<char>>, Option<Seq<char>>), Seq<char>>
    decreases raw.len() - i,
{
    if i < 0 || i >= raw.len() {
        Ok((name, branch, index_url))
    } else {
        let t = raw[i];
        let next_ok = i + 1 < raw.len() && !crate::text::has_prefix(raw[i + 1], "-"@);
        if crate::text::has_prefix(t, "--branch="@) {
            if t.len() == 9 {
                Err("--branch requires a value"@)
            } else {
                add_options(raw, i + 1, name, Some(t.skip(9)), index_url)
            }
        } else if t == "--branch"@ {
            if next_ok {
                add_options(raw, i + 2, name, Some(raw[i + 1]), index_url)
            } else {
                Err("--branch requires a value"@)
            }
        } else if crate::text::has_prefix(t, "--index-url="@) {
            if t.len() == 12 {
                Err("--index-url requires a value"@)
            } else {
                add_options(raw, i + 1, name, branch, Some(t.skip(12)))
            }
        } else if t == "--index-url"@ {
            if next_ok {
                add_options(raw, i + 2, name, branch, Some(raw[i + 1]))
            } else {
                Err("--index-url requires a value"@)
            }
        } else if crate::text::has_prefix(t, "-"@) {
            Err("unknown option "@ + t + " for --repo add"@)
        } else if name is None {
            add_options(raw, i + 1, Some(t), branch, index_url)
        } else {
            Err("too many arguments for --repo add (expected <url> [name])"@)
        }
    }
}

/// The words of `--repo remove` from word `i`: the first word not starting
/// with `-` is the name, `-p`/`--purge` purges, another option is refused.
pub open spec fn remove_options(raw: Seq<Seq<char>>, i: int, name: Option<Seq<char>>, purge: bool) -> Result<(Option<Seq<char>>, bool), Seq<char>>
    decreases raw.len() - i,
{
    if i < 0 || i >= raw.len() {
        Ok((name, purge))
    } else {
        let t = raw[i];
        if t == "-p"@ || t == "--purge"@ {
            remove_options(raw, i + 1, name, true)
        } else if name is None && !crate::text::has_prefix(t, "-"@) {
            remove_options(raw, i + 1, Some(t), purge)
        } else if crate::text::has_prefix(t, "-"@) && t != "-"@ {
            Err("unknown option "@ + t + " for --repo remove"@)
        } else {
            remove_options(raw, i + 1, name, purge)
        }
    }
}

/// The `--repo` subcommand the words give (the first word is `--repo`).
pub open spec fn repo_command(raw: Seq<Seq<char>>) -> Result<RepoCmdView, Seq<char>> {
    if raw.len() < 2 {
        Err("--repo requires a subcommand: add|list|remove|rekey"@)
    } else if raw[1] == "add"@ {
        if raw.len() < 3 || crate::text::has_prefix(raw[2], "-"@) {
            Err("--repo add requires <url>"@)
        } else {
            match add_options(raw, 3, None, None, None) {
                Ok((n, b, x)) => Ok(RepoCmdView::Add(raw[2], n, b, x)),
                Err(m) => Err(m),
            }
        }
    } else if raw[1] == "list"@ {
        Ok(RepoCmdView::List)
    } else if raw[1] == "remove"@ {
        match remove_options(raw, 2, None, false) {
            Ok((Some(n), p)) => Ok(RepoCmdView::Remove(n, p)),
            Ok((None, _)) => Err("--repo remove requires <name>"@),
            Err(m) => Err(m),
        }
    } else if raw[1] == "rekey"@ {
        if raw.len() < 3 {
            Err("--repo rekey requires <name>"@)
        } else {
            Ok(RepoCmdView::Rekey(raw[2]))
        }
    } else {
        Err("unknown --repo subcommand: "@ + raw[1])
    }
}

/// The words from `idx` read in turn (see [`parse_word`]), a word used as
/// a value skipped; the first error stops.
pub open spec fn parse_words(v: CliView, oc: u8, end: bool, raw: Seq<Seq<char>>, idx: int) -> (CliView, Option<Seq<char>>)
    decreases raw.len() - idx,
{
    if idx < 0 || idx >= raw.len() {
        (v, None)
    } else {
        let next = if idx + 1 < raw.len() {
            Some(raw[idx + 1])
        } else {
            None
        };
        let p = parse_word(v, oc, end, raw[idx], next);
        match p.3 {
            Err(m) => (p.0, Some(m)),
            Ok(used) => parse_words(p.0, p.1, p.2, raw, if used {
                idx + 2
            } else {
                idx + 1
            }),
        }
    }
}

fn opt_string_of(o: &Option<String>) -> (r: Option<String>)
    ensures
        opt_view(r) == opt_view(*o),
{
    crate::metadata::clone_opt_string(o)
}

fn starts_dash(s: &str) -> (r: bool)
    ensures
        r == crate::text::has_prefix(s@, "-"@),
{
    crate::text::str_starts(&chars_of(s), "-")
}

fn parse_repo_add(raw: &[&str]) -> (r: Result<RepoCmd, String>)
    requires
        raw@.len() >= 3,
        !crate::text::has_prefix(raw@[2]@, "-"@),
    ensures
        match add_options(words_view(raw@), 3, None, None, None) {
            Ok((n, b, x)) => r matches Ok(c) && c@ == RepoCmdView::Add(raw@[2]@, n, b, x),
            Err(m) => r matches Err(e) && e@ == m,
        },
{
    let ghost w = words_view(raw@);
    let mut name: Option<String> = None;
    let mut branch: Option<String> = None;
    let mut index_url: Option<String> = None;
    let mut i: usize = 3;
    while i < raw.len()
        invariant
            3 <= i <= raw@.len() + 1,
            w == words_view(raw@),
            add_options(w, 3, None, None, None) == add_options(w, i as int, opt_view(name), opt_view(branch), opt_view(index_url)),
        decreases raw@.len() + 1 - i,
    {
        let t = chars_of(raw[i]);
        assert(w[i as int] == t@);
        let next_ok = i + 1 < raw.len() && !starts_dash(raw[i + 1]);
        proof {
            if i + 1 < raw@.len() {
                assert(w[i + 1] == raw@[i + 1]@);
            }
        }
        if crate::text::str_starts(&t, "--branch=") {
            proof {
                reveal_strlit("--branch=");
            }
            if t.len() == 9 {
                return Err("--branch requires a value".to_string());
            }
            let v = crate::text::slice_vec(&t, 9, t.len());
            assert(v@ =~= t@.skip(9));
            branch = Some(string_from(&v));
            i = i + 1;
        } else if str_is(&t, "--branch") {
            if next_ok {
                branch = Some(raw[i + 1].to_string());
                i = i + 2;
            } else {
                return Err("--branch requires a value".to_string());
            }
        } else if crate::text::str_starts(&t, "--index-url=") {
            proof {
                reveal_strlit("--index-url=");
            }
            if t.len() == 12 {
                return Err("--index-url requires a value".to_string());
            }
            let v = crate::text::slice_vec(&t, 12, t.len());
            assert(v@ =~= t@.skip(12));
            index_url = Some(string_from(&v));
            i = i + 1;
        } else if str_is(&t, "--index-url") {
            if next_ok {
                index_url = Some(raw[i + 1].to_string());
                i = i + 2;
            } else {
                return Err("--index-url requires a value".to_string());
            }
        } else if crate::text::str_starts(&t, "-") {
            let mut m = "unknown option ".to_string();
            push_str(&mut m, raw[i]);
            push_str(&mut m, " for --repo add");
            return Err(m);
        } else if name.is_none() {
            name = Some(raw[i].to_string());
            i = i + 1;
        } else {
            return Err("too many arguments for --repo add (expected <url> [name])".to_string());
        }
    }
    Ok(RepoCmd::Add { url: raw[2].to_string(), name, branch, index_url })
}

fn parse_repo_remove(raw: &[&str]) -> (r: Result<RepoCmd, String>)
    requires
        raw@.len() >= 2,
    ensures
        match remove_options(words_view(raw@), 2, None, false) {
            Ok((Some(n), p)) => r matches Ok(c) && c@ == RepoCmdView::Remove(n, p),
            Ok((None, _)) => r matches Err(e) && e@ == "--repo remove requires <name>"@,
            Err(m) => r matches Err(e) && e@ == m,
        },
{
    let ghost w = words_view(raw@);
    let mut name: Option<String> = None;
    let mut purge = false;
    let mut i: usize = 2;
    while i < raw.len()
        invariant
            2 <= i <= raw@.len(),
            w == words_view(raw@),
            remove_options(w, 2, None, false) == remove_options(w, i as int, opt_view(name), purge),
        decreases raw@.len() - i,
    {
        let t = chars_of(raw[i]);
        assert(w[i as int] == t@);
        if str_is(&t, "-p") || str_is(&t, "--purge") {
            purge = true;
        } else if name.is_none() && !crate::text::str_starts(&t, "-") {
            name = Some(raw[i].to_string());
        } else if crate::text::str_starts(&t, "-") && !str_is(&t, "-") {
            let mut m = "unknown option ".to_string();
            push_str(&mut m, raw[i]);
            push_str(&mut m, " for --repo remove");
            return Err(m);
        }
        i = i + 1;
    }
    match name {
        Some(n) => Ok(RepoCmd::Remove { name: n, purge }),
        None => Err("--repo remove requires <name>".to_string()),
    }
}

/// Reads the command line: a `--repo` subcommand (returned), or options
/// and targets into `config`; the first error stops.
pub fn parse_args(config: &mut Config, args: &[&str]) -> (r: Result<Option<RepoCmd>, String>)
    ensures
        final(config).keeps_settings(old(config)),
        args@.len() > 0 && args@[0]@ == "--repo"@ ==> final(config).cli() == old(config).cli() && match repo_command(words_view(args@)) {
            Ok(c) => r matches Ok(Some(x)) && x@ == c,
            Err(m) => r matches Err(e) && e@ == m,
        },
        !(args@.len() > 0 && args@[0]@ == "--repo"@) ==> ({
            let p = parse_words(old(config).cli(), 0, false, words_view(args@), 0);
            &&& final(config).cli() == p.0
            &&& match p.1 {
                None => r matches Ok(None),
                Some(m) => r matches Err(e) && e@ == m,
            }
        }),
{
    let ghost w = words_view(args@);
    if args.len() > 0 && str_is(&chars_of(args[0]), "--repo") {
        if args.len() < 2 {
            return Err("--repo requires a subcommand: add|list|remove|rekey".to_string());
        }
        let sub = chars_of(args[1]);
        assert(w[1] == sub@);
        if str_is(&sub, "add") {
            if args.len() < 3 || starts_dash(args[2]) {
                return Err("--repo add requires <url>".to_string());
            }
            assert(w[2] == args@[2]@);
            return match parse_repo_add(args) {
                Ok(c) => Ok(Some(c)),
                Err(e) => Err(e),
            };
        } else if str_is(&sub, "list") {
            return Ok(Some(RepoCmd::List));
        } else if str_is(&sub, "remove") {
            return match parse_repo_remove(args) {
                Ok(c) => Ok(Some(c)),
                Err(e) => Err(e),
            };
        } else if str_is(&sub, "rekey") {
            if args.len() < 3 {
                return Err("--repo rekey requires <name>".to_string());
            }
            assert(w[2] == args@[2]@);
            return Ok(Some(RepoCmd::Rekey(args[2].to_string())));
        } else {
            return Err(crate::text::concat("unknown --repo subcommand: ", args[1]));
        }
    }
    let mut op_count: u8 = 0;
    let mut end_of_ops = false;
    let mut idx: usize = 0;
    while idx < args.len()
        invariant
            idx <= args@.len() + 1,
            w == words_view(args@),
            parse_words(old(config).cli(), 0, false, w, 0) == parse_words(config.cli(), op_count, end_of_ops, w, idx as int),
            config.keeps_settings(old(config)),
            !(args@.len() > 0 && args@[0]@ == "--repo"@),
        decreases args@.len() + 1 - idx,
    {
        let next = if idx + 1 < args.len() {
            Some(args[idx + 1])
        } else {
            None
        };
        proof {
            assert(w[idx as int] == args@[idx as int]@);
            if idx + 1 < args@.len() {
                assert(w[idx + 1] == args@[idx + 1]@);
            }
        }
        match config.parse_arg(args[idx], next, &mut op_count, &mut end_of_ops) {
            Err(m) => {
                return Err(m);
            },
            Ok(used) => {
                idx = if used {
                    idx + 2
                } else {
                    idx + 1
                };
            },
        }
    }
    Ok(None)
}
/// Whether `arch` is an architecture XBPS knows.
pub fn is_valid_arch(arch: &str) -> (r: bool)
    ensures
        r == known_arch(arch@),
{
    is_known_arch(&chars_of(arch))
}

/// Whether the command takes the global lock: everything that changes
/// shared state does; searching, package info and listing repositories
/// do not.
pub fn needs_lock(config: &Config, repo_cmd: &Option<RepoCmd>) -> (r: bool)
    ensures
        r == match repo_cmd {
            Some(c) => !(c is List),
            None => match config.op {
                Op::Remove => true,
                Op::Default => true,
                Op::Sync => !(exists|i: int|
                    0 <= i < config.args.args@.len() && (#[trigger] config.args.args@[i].key@ == "s"@
                        || config.args.args@[i].key@ == "search"@)) && !(exists|i: int|
                    0 <= i < config.args.args@.len() && (#[trigger] config.args.args@[i].key@ == "i"@
                        || config.args.args@[i].key@ == "info"@)),
            },
        },
{
    match repo_cmd {
        Some(RepoCmd::List) => false,
        Some(_) => true,
        None => match config.op {
            Op::Remove => true,
            Op::Default => true,
            Op::Sync => !(config.args.has_arg("s", "search") || config.args.has_arg("i", "info")),
        },
    }
}

/// What a parsed command line asks vary to do.
#[derive(Debug)]
pub enum Dispatch {
    Repo(RepoCmd),
    Search,
    Info,
    DownloadOnly,
    Upgrade,
    Refresh,
    Install,
    Remove,
}

pub open spec fn flag(config: Config, s1: Seq<char>, s2: Seq<char>) -> bool {
    crate::remove::given_opt(config.args, s1, s2)
}

/// What `-S` (or a bare invocation with targets) does.
pub open spec fn sync_dispatch(config: Config) -> Result<Dispatch, Seq<char>> {
    let no_targets = config.targets@.len() == 0;
    if flag(config, "p"@, "print"@) {
        Err(
            "el flag --print / -p no está soportado (reservado para Roadmap P0-4). Para instalar use vary -S <pkg>"@,
        )
    } else if flag(config, "s"@, "search"@) {
        Ok(Dispatch::Search)
    } else if flag(config, "i"@, "info"@) {
        Ok(Dispatch::Info)
    } else if flag(config, "w"@, "downloadonly"@) {
        Ok(Dispatch::DownloadOnly)
    } else if flag(config, "y"@, "refresh"@) && no_targets && !flag(config, "u"@, "sysupgrade"@) {
        Ok(Dispatch::Refresh)
    } else if flag(config, "u"@, "sysupgrade"@) && no_targets {
        Ok(Dispatch::Upgrade)
    } else if !no_targets {
        Ok(Dispatch::Install)
    } else {
        Err("no targets specified (use -h for help)"@)
    }
}

/// The command to run: a `--repo` subcommand, `-R`, `-S` by its options,
/// and a bare invocation upgrades everything unless it names targets.
pub open spec fn dispatch_of(config: Config, repo_cmd: Option<RepoCmd>) -> Result<Dispatch, Seq<char>> {
    match repo_cmd {
        Some(c) => Ok(Dispatch::Repo(c)),
        None => match config.op {
            Op::Remove => Ok(Dispatch::Remove),
            Op::Sync => sync_dispatch(config),
            Op::Default => if config.targets@.len() > 0 {
                sync_dispatch(config)
            } else {
                Ok(Dispatch::Upgrade)
            },
        },
    }
}

fn sync_dispatch_exec(config: &Config) -> (r: Result<Dispatch, String>)
    ensures
        match sync_dispatch(*config) {
            Ok(d) => r == Ok::<Dispatch, String>(d),
            Err(m) => r matches Err(x) && x@ == m,
        },
{
    let no_targets = config.targets.len() == 0;
    if config.args.has_arg("p", "print") {
        return Err(
            "el flag --print / -p no está soportado (reservado para Roadmap P0-4). Para instalar use vary -S <pkg>".to_string(),
        );
    }
    if config.args.has_arg("s", "search") {
        return Ok(Dispatch::Search);
    }
    if config.args.has_arg("i", "info") {
        return Ok(Dispatch::Info);
    }
    if config.args.has_arg("w", "downloadonly") {
        return Ok(Dispatch::DownloadOnly);
    }
    let refresh = config.args.has_arg("y", "refresh");
    let upgrade = config.args.has_arg("u", "sysupgrade");
    if refresh && no_targets && !upgrade {
        return Ok(Dispatch::Refresh);
    }
    if upgrade && no_targets {
        return Ok(Dispatch::Upgrade);
    }
    if !no_targets {
        return Ok(Dispatch::Install);
    }
    Err("no targets specified (use -h for help)".to_string())
}

pub fn dispatch(config: &Config, repo_cmd: Option<RepoCmd>) -> (r: Result<Dispatch, String>)
    ensures
        match dispatch_of(*config, repo_cmd) {
            Ok(d) => r == Ok::<Dispatch, String>(d),
            Err(m) => r matches Err(x) && x@ == m,
        },
        repo_cmd is None && config.op == Op::Default ==> ((r matches Ok(Dispatch::Upgrade)) <==> config.targets@.len()
            == 0),
        repo_cmd is None && (config.op == Op::Default || config.op == Op::Sync) && config.targets@.len() > 0
            && config.args.args@.len() == 0 ==> (r matches Ok(Dispatch::Install)),
{
    proof {
        if config.op == Op::Default {
            lemma_bare_targets_act_as_sync(*config);
        }
    }
    match repo_cmd {
        Some(c) => Ok(Dispatch::Repo(c)),
        None => match config.op {
            Op::Remove => Ok(Dispatch::Remove),
            Op::Sync => sync_dispatch_exec(config),
            Op::Default => if config.targets.len() > 0 {
                sync_dispatch_exec(config)
            } else {
                Ok(Dispatch::Upgrade)
            },
        },
    }
}

/// A bare invocation with targets does what `-S` does with the same
/// options and targets (`vary foo` installs `foo`); it upgrades everything
/// only when it names no target. With no option at all, targets are
/// installed.
pub proof fn lemma_bare_targets_act_as_sync(c: Config)
    requires
        c.op == Op::Default,
    ensures
        c.targets@.len() > 0 ==> dispatch_of(c, None) == dispatch_of(Config { op: Op::Sync, ..c }, None),
        c.targets@.len() == 0 ==> dispatch_of(c, None) == Ok::<Dispatch, Seq<char>>(Dispatch::Upgrade),
        dispatch_of(c, None) == Ok::<Dispatch, Seq<char>>(Dispatch::Upgrade) ==> c.targets@.len() == 0,
        c.targets@.len() > 0 && c.args.args@.len() == 0 ==> dispatch_of(c, None) == Ok::<Dispatch, Seq<char>>(
            Dispatch::Install,
        ),
        c.targets@.len() > 0 && c.args.args@.len() == 0 ==> dispatch_of(Config { op: Op::Sync, ..c }, None)
            == Ok::<Dispatch, Seq<char>>(Dispatch::Install),
{
}

} // verus!
