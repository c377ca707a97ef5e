use vary::command_line::{dispatch, is_valid_arch, needs_lock, parse_args, Dispatch, RepoCmd};
use vary::config::Config;
use vary::repo::{
    branch_for, conf_repository_urls, derive_name_from_url, key_unchanged, new_repo_entry, repo_add_name, repo_list_lines,
    retrust_check, vup_repo_urls,
};
use vary::reposconf::{RepoEntry, ReposConf};
use vary::vup_index::{cache_is_fresh, VupIndex, VupPackage};

fn entry(url: &str, priority: Option<i64>, binary: Option<&str>, enabled: Option<bool>) -> RepoEntry {
    RepoEntry {
        url: url.to_string(),
        branch: None,
        priority,
        key_fingerprint: None,
        binary_repo_url: binary.map(|s| s.to_string()),
        index_url: None,
        enabled,
    }
}

#[test]
fn solo_lectura_no_requiere_lock_mutacion_si() {
    for (argv, locked) in [
        (vec!["-Ss", "foo"], false),
        (vec!["-Si", "foo"], false),
        (vec!["-S", "foo"], true),
        (vec!["-Syu"], true),
        (vec!["-R", "foo"], true),
        (vec![], true),
    ] {
        let mut config = Config::in_memory_defaults();
        let owned: Vec<&str> = if argv.is_empty() { vec!["-Syu"] } else { argv.clone() };
        let cmd = parse_args(&mut config, &owned).expect("parse");
        assert_eq!(needs_lock(&config, &cmd), locked, "clasificación de lock para {argv:?}");
    }
}

#[test]
fn repo_list_no_requiere_lock_add_si() {
    let mut config = Config::in_memory_defaults();
    let cmd = parse_args(&mut config, &["--repo", "list"]).expect("parse");
    assert!(!needs_lock(&config, &cmd));
    let mut config = Config::in_memory_defaults();
    let cmd = parse_args(&mut config, &["--repo", "add", "https://example.com/v.git"]).expect("parse");
    assert!(needs_lock(&config, &cmd));
}

#[test]
fn bare_invocation_takes_the_lock() {
    let config = Config::in_memory_defaults();
    assert!(needs_lock(&config, &None));
}

#[test]
fn known_arches_are_valid() {
    assert!(is_valid_arch("x86_64"));
    assert!(is_valid_arch("aarch64-musl"));
    assert!(!is_valid_arch("amd64"));
}

#[test]
fn derive_name_from_url_takes_the_last_segment() {
    assert_eq!(derive_name_from_url("https://github.com/someone/z-packages.git"), "z-packages");
    assert_eq!(derive_name_from_url("https://example.org/vur/"), "vur");
    assert_eq!(derive_name_from_url("https://example.org/a/b.git.git"), "b");
    assert_eq!(derive_name_from_url("plain"), "plain");
}

#[test]
fn repo_add_name_validates_name_and_url() {
    assert_eq!(repo_add_name("https://example.org/x/mine.git", None).unwrap(), "mine");
    assert_eq!(repo_add_name("https://example.org/x/mine.git", Some("other")).unwrap(), "other");
    assert!(repo_add_name("https://example.org/x/mine.git", Some("../evil")).is_err());
    assert!(repo_add_name("https://example.org/x/keys", None).is_err());
    let err = repo_add_name("--upload-pack=evil", Some("ok")).unwrap_err();
    assert_eq!(err, "URL de repositorio git insegura o inválida: '--upload-pack=evil'");
}

#[test]
fn branch_and_entry_of_a_new_repository() {
    assert_eq!(branch_for(Some(" master "), Some("trunk")), "master");
    assert_eq!(branch_for(Some("  "), Some("trunk")), "trunk");
    assert_eq!(branch_for(None, None), "main");
    let e = new_repo_entry("https://example.org/r.git", "main".to_string(), Some("  https://i.example.org/index.json "));
    assert_eq!(e.priority, Some(100));
    assert_eq!(e.enabled, Some(true));
    assert_eq!(e.index_url.as_deref(), Some("https://i.example.org/index.json"));
    assert!(new_repo_entry("u", "b".to_string(), Some(" ")).index_url.is_none());
}

#[test]
fn repo_list_lines_header_and_priority_order() {
    assert_eq!(repo_list_lines(&ReposConf::default()), vec!["No VURs configured. Add one with: vary --repo add <url>".to_string()]);
    let mut conf = ReposConf::default();
    conf.insert("beta".to_string(), entry("https://b", Some(5), Some("https://bin"), None));
    conf.insert("alpha".to_string(), entry("https://a", None, None, None));
    conf.insert("off".to_string(), entry("https://o", Some(1), None, Some(false)));
    let lines = repo_list_lines(&conf);
    assert_eq!(lines.len(), 3);
    assert_eq!(lines[0], format!("{:<20} {:<8} {:<45} BINARY", "NAME", "PRIO", "URL"));
    assert_eq!(lines[1], format!("{:<20} {:<8} {:<45} {}", "beta", 5, "https://b", "yes"));
    assert_eq!(lines[2], format!("{:<20} {:<8} {:<45} {}", "alpha", 100, "https://a", "no"));
}

#[test]
fn retrust_checks_refuse_in_order() {
    assert_eq!(retrust_check("x", None, false).unwrap_err(), "VUR 'x' not found");
    let plain = entry("https://a", None, None, None);
    assert!(retrust_check("x", Some(&plain), false).unwrap_err().contains("no es un repo binario"));
    let bin = entry("https://a", None, Some("https://bin"), None);
    assert!(retrust_check("x", Some(&bin), true).unwrap_err().contains("confirmación interactiva"));
    assert!(retrust_check("x", Some(&bin), false).is_ok());
    assert!(key_unchanged(Some("AB:cd"), "ab:CD"));
    assert!(!key_unchanged(None, "ab:cd"));
    assert!(!key_unchanged(Some("ab:ce"), "ab:cd"));
}

#[test]
fn retrust_urls_from_conf_and_index() {
    let text = "# vary\nrepository=https://one\n  repository= https://two \nrepository=\nother=x\n";
    assert_eq!(conf_repository_urls(text), vec!["https://one".to_string(), "https://two".to_string()]);
    let pkg = |arch: &str, url: &str| VupPackage {
        category: "c".to_string(),
        version: "1.0_1".to_string(),
        archs: vec![arch.to_string()],
        repo_urls: vec![(arch.to_string(), url.to_string())],
    };
    let idx = VupIndex {
        packages: vec![
            ("a".to_string(), pkg("x86_64", "https://u1")),
            ("b".to_string(), pkg("x86_64", "https://u1")),
            ("c".to_string(), pkg("aarch64", "https://u2")),
            ("d".to_string(), pkg("x86_64", "https://u3")),
        ],
    };
    assert_eq!(vup_repo_urls(&idx, "x86_64"), vec!["https://u1".to_string(), "https://u3".to_string()]);
}

#[test]
fn cache_freshness_by_age() {
    assert!(cache_is_fresh(Some(10), 60));
    assert!(!cache_is_fresh(Some(60), 60));
    assert!(!cache_is_fresh(None, 60));
}

fn dispatched(argv: &[&str]) -> Result<Dispatch, String> {
    let mut config = Config::in_memory_defaults();
    let cmd = parse_args(&mut config, argv)?;
    dispatch(&config, cmd)
}

#[test]
fn dispatch_follows_the_sync_options() {
    assert!(matches!(dispatched(&["-Ss", "foo"]), Ok(Dispatch::Search)));
    assert!(matches!(dispatched(&["-Si", "foo"]), Ok(Dispatch::Info)));
    assert!(matches!(dispatched(&["-Sw", "foo"]), Ok(Dispatch::DownloadOnly)));
    assert!(matches!(dispatched(&["-Syu"]), Ok(Dispatch::Upgrade)));
    assert!(matches!(dispatched(&["-Su"]), Ok(Dispatch::Upgrade)));
    assert!(matches!(dispatched(&["-Sy"]), Ok(Dispatch::Refresh)));
    assert!(matches!(dispatched(&["-Sy", "foo"]), Ok(Dispatch::Install)));
    assert!(matches!(dispatched(&["-S", "foo"]), Ok(Dispatch::Install)));
    assert!(matches!(dispatched(&["-R", "foo"]), Ok(Dispatch::Remove)));
    assert_eq!(dispatched(&["-S"]).unwrap_err(), "no targets specified (use -h for help)");
    assert!(matches!(dispatched(&["--repo", "list"]), Ok(Dispatch::Repo(RepoCmd::List))));
    let config = Config::in_memory_defaults();
    assert!(matches!(dispatch(&config, None), Ok(Dispatch::Upgrade)));
}
