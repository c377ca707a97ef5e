use vary::command_line::{parse_args, CliArg, RepoCmd};
use vary::config::{default_dirs, expand_home, ColorChoice, Config, Op, VaryConf};

fn take_add(args: &[&str]) -> RepoCmd {
    let mut config = Config::in_memory_defaults();
    parse_args(&mut config, args)
        .expect("parse_args debe aceptar el comando")
        .expect("se esperaba un RepoCmd")
}

#[test]
fn repo_add_parses_name_branch_index_url() {
    match take_add(&[
        "--repo",
        "add",
        "https://example.com/vur.git",
        "mi-vur",
        "--branch",
        "master",
        "--index-url",
        "https://example.com/index.json",
    ]) {
        RepoCmd::Add { url, name, branch, index_url } => {
            assert_eq!(url, "https://example.com/vur.git");
            assert_eq!(name.as_deref(), Some("mi-vur"));
            assert_eq!(branch.as_deref(), Some("master"));
            assert_eq!(index_url.as_deref(), Some("https://example.com/index.json"));
        }
        other => panic!("inesperado: {other:?}"),
    }
}

#[test]
fn repo_add_supports_equals_form() {
    match take_add(&["--repo", "add", "https://example.com/vur.git", "--branch=master"]) {
        RepoCmd::Add { url, name, branch, index_url } => {
            assert_eq!(url, "https://example.com/vur.git");
            assert!(name.is_none());
            assert_eq!(branch.as_deref(), Some("master"));
            assert!(index_url.is_none());
        }
        other => panic!("inesperado: {other:?}"),
    }
}

#[test]
fn repo_add_defaults_are_none() {
    match take_add(&["--repo", "add", "https://example.com/vur.git"]) {
        RepoCmd::Add { url, name, branch, index_url } => {
            assert_eq!(url, "https://example.com/vur.git");
            assert!(name.is_none() && branch.is_none() && index_url.is_none());
        }
        other => panic!("inesperado: {other:?}"),
    }
}

#[test]
fn repo_add_rejects_bad_options() {
    let mut config = Config::in_memory_defaults();
    assert!(parse_args(&mut config, &["--repo", "add", "https://example.com/v.git", "--branch"]).is_err());
    assert!(parse_args(&mut config, &["--repo", "add", "https://example.com/v.git", "--nope"]).is_err());
    assert!(parse_args(&mut config, &["--repo", "add", "https://example.com/v.git", "a", "b"]).is_err());
    assert!(parse_args(&mut config, &["--repo", "add"]).is_err());
}

#[test]
fn print_flag_is_disabled_with_informative_error() {
    let mut config = Config::in_memory_defaults();
    let err1 = parse_args(&mut config, &["-Sp", "foo"]).unwrap_err();
    assert!(err1.contains("Roadmap P0-4"));
    let err2 = parse_args(&mut config, &["-S", "--print", "foo"]).unwrap_err();
    assert!(err2.contains("Roadmap P0-4"));
    let err3 = parse_args(&mut config, &["--print-format", "%n"]).unwrap_err();
    assert!(err3.contains("Roadmap P0-4"));
}

#[test]
fn opciones_con_valor_sin_valor_devuelven_error_en_vez_de_panic() {
    for name in ["arch", "sudo", "sudoflags", "git", "curl"] {
        let mut config = Config::in_memory_defaults();
        let mut n = 0u8;
        let err = config.handle_arg(CliArg::Long(name), None, &mut n, false).unwrap_err();
        assert!(err.contains(name), "--{name} sin valor debe mencionar el flag: {err}");
    }
}

#[test]
fn sync_with_flags_targets_and_values() {
    let mut config = Config::in_memory_defaults();
    let r = parse_args(
        &mut config,
        &["-Syu", "--noconfirm", "--arch", "aarch64", "--sudoflags=-n -E", "--color=always", "foo", "--", "-bar"],
    )
    .unwrap();
    assert!(r.is_none());
    assert_eq!(config.op, Op::Sync);
    assert!(config.no_confirm);
    assert_eq!(config.arch_override.as_deref(), Some("aarch64"));
    assert_eq!(config.sudo_flags, vec!["-n".to_string(), "-E".to_string()]);
    assert_eq!(config.color, ColorChoice::Always);
    assert_eq!(config.targets, vec!["foo".to_string(), "-bar".to_string()]);
    assert!(config.args.has_arg("y", "refresh"));
    assert!(config.args.has_arg("u", "sysupgrade"));
    assert!(!config.args.has_arg("s", "search"));
    assert_eq!(config.args.args[0].to_text(), "-y");
}

#[test]
fn option_errors_are_exact() {
    let mut config = Config::in_memory_defaults();
    assert_eq!(parse_args(&mut config, &["-S", "-R"]).unwrap_err(), "only one operation may be used at a time");
    let mut config = Config::in_memory_defaults();
    assert_eq!(parse_args(&mut config, &["--bogus"]).unwrap_err(), "unknown option --bogus");
    let mut config = Config::in_memory_defaults();
    assert_eq!(parse_args(&mut config, &["-Z"]).unwrap_err(), "unknown option -Z");
    let mut config = Config::in_memory_defaults();
    assert_eq!(parse_args(&mut config, &["--quiet=1"]).unwrap_err(), "option --quiet does not allow a value");
    let mut config = Config::in_memory_defaults();
    assert_eq!(parse_args(&mut config, &["--color", "pink"]).unwrap_err(), "invalid --color value 'pink' (expected always|never|auto)");
    let mut config = Config::in_memory_defaults();
    assert!(parse_args(&mut config, &["--arch", "sparc"]).unwrap_err().starts_with("invalid --arch value 'sparc' (supported: x86_64, x86_64-musl,"));
    let mut config = Config::in_memory_defaults();
    assert_eq!(parse_args(&mut config, &["--repo", "frob"]).unwrap_err(), "unknown --repo subcommand: frob");
}

#[test]
fn repo_remove_list_and_rekey() {
    let mut config = Config::in_memory_defaults();
    match parse_args(&mut config, &["--repo", "remove", "--purge", "mi-vur"]).unwrap() {
        Some(RepoCmd::Remove { name, purge }) => {
            assert_eq!(name, "mi-vur");
            assert!(purge);
        }
        other => panic!("inesperado: {other:?}"),
    }
    assert!(matches!(parse_args(&mut config, &["--repo", "list"]).unwrap(), Some(RepoCmd::List)));
    assert!(matches!(parse_args(&mut config, &["--repo", "rekey", "x"]).unwrap(), Some(RepoCmd::Rekey(n)) if n == "x"));
    assert_eq!(parse_args(&mut config, &["--repo", "remove"]).unwrap_err(), "--repo remove requires <name>");
    assert_eq!(parse_args(&mut config, &["--repo", "remove", "x", "--all"]).unwrap_err(), "unknown option --all for --repo remove");
}

#[test]
fn default_es_puro_sin_io_ni_host() {
    let c = Config::in_memory_defaults();
    assert!(c.cache_dir.is_empty());
    assert!(c.data_dir.is_empty());
    assert!(c.config_dir.is_empty());
    assert_eq!(c.makejobs, 1);
    assert!(!c.no_confirm);
    assert!(c.sudo_flags.is_empty());
    assert!(c.git_bin == "git");
    assert!(c.tools_install_bin == "install");
}

#[test]
fn default_dirs_respeta_xdg_con_fallback_a_home() {
    let home = "/tmp/vary-fake-home-xyz";
    let (cache, data, config) = default_dirs(home, Some("/tmp/vary-xdg-cache"), Some("/tmp/vary-xdg-data"), Some("/tmp/vary-xdg-config"));
    assert_eq!(cache, "/tmp/vary-xdg-cache/vary");
    assert_eq!(data, "/tmp/vary-xdg-data/vary");
    assert_eq!(config, "/tmp/vary-xdg-config/vary");
    let (cache, data, config) = default_dirs(home, None, Some(""), None);
    assert_eq!(cache, "/tmp/vary-fake-home-xyz/.cache/vary");
    assert_eq!(data, "/tmp/vary-fake-home-xyz/.local/share/vary");
    assert_eq!(config, "/tmp/vary-fake-home-xyz/.config/vary");
}

fn empty_conf() -> VaryConf {
    VaryConf {
        cache_dir: None,
        data_dir: None,
        log_level: None,
        sudo_bin: None,
        sudo_flags: None,
        curl_bin: None,
        max_concurrent_builds: None,
        makejobs: None,
        force_rebuild: None,
        ttl_cache_seconds: None,
        install_bin: None,
    }
}

#[test]
fn load_vary_conf_aplica_overrides_y_tolera_corrupto() {
    let mut c = Config::in_memory_defaults();
    c.apply_conf(&empty_conf());
    assert_eq!(c.ttl_cache_seconds, 3600);
    let conf = VaryConf {
        log_level: Some("debug".to_string()),
        ttl_cache_seconds: Some(60),
        makejobs: Some(4),
        ..empty_conf()
    };
    c.apply_conf(&conf);
    assert_eq!(c.log_level, "debug");
    assert_eq!(c.ttl_cache_seconds, 60);
    assert_eq!(c.makejobs, 4);
    c.apply_conf(&VaryConf { makejobs: Some(0), ..empty_conf() });
    assert_eq!(c.makejobs, 4);
    assert_eq!(c.log_level, "debug", "lo ya cargado se conserva");
}

#[test]
fn expand_home_solo_expande_tilde() {
    assert_eq!(expand_home("~/x", Some("/home/u")), "/home/u/x");
    assert_eq!(expand_home("/abs", Some("/home/u")), "/abs");
    assert_eq!(expand_home("rel", Some("/home/u")), "rel");
    assert_eq!(expand_home("~/x", None), "~/x");
}

#[test]
fn config_paths_follow_directories() {
    let mut c = Config::in_memory_defaults();
    c.cache_dir = "/c".to_string();
    c.data_dir = "/d".to_string();
    c.config_dir = "/e".to_string();
    assert_eq!(c.repos_conf_path(), "/e/repos.conf");
    assert_eq!(c.vary_conf_path(), "/e/vary.conf");
    assert_eq!(c.void_packages_dir(), "/c/void-packages");
    assert_eq!(c.vurs_dir(), "/d/vurs");
    assert_eq!(c.installed_db_path(), "/c/installed.json");
    assert_eq!(c.cache_index_path(), "/c/cache.json");
    assert_eq!(c.arch("x86_64"), "x86_64");
    c.arch_override = Some("i686".to_string());
    assert_eq!(c.arch("x86_64"), "i686");
    assert_eq!(Op::Remove.name(), "remove");
}
