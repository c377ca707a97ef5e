use vary::keys::{
    fingerprint_matches_pin, key_dest_path, keys_dir, repo_conf_path, validate_repo_name,
    validate_repository_url, xbps_key_plist_path, xbps_keys_dir,
};
use vary::reposconf::{RepoEntry, ReposConf};

#[test]
fn rutas_derivadas_son_correctas() {
    assert_eq!(
        repo_conf_path("mi-repo").unwrap(),
        "/etc/xbps.d/20-vur-mi-repo.conf"
    );
    assert_eq!(
        key_dest_path("mi-repo").unwrap(),
        "/etc/xbps.d/keys/vary-vur-mi-repo.pem"
    );
}

#[test]
fn rechaza_path_traversal_en_nombres_de_repo() {
    assert!(validate_repo_name("../evil").is_err());
    assert!(validate_repo_name("foo/bar").is_err());
    assert!(validate_repo_name("..").is_err());
    assert!(validate_repo_name("00-repository-main").is_err());
    assert!(validate_repo_name("-bad").is_err());
    assert!(validate_repo_name("").is_err());
    assert!(validate_repo_name("good_repo-1.0").is_ok());
}

#[test]
fn reserved_and_dotted_repo_names() {
    assert!(validate_repo_name("keys").is_err());
    assert!(validate_repo_name("a..b").is_err());
    assert!(validate_repo_name("keysmith").is_ok());
    assert!(repo_conf_path("../x").is_err());
    assert!(key_dest_path("").is_err());
}

#[test]
fn validate_repository_url_rejects_newlines_and_bad_schemes() {
    assert!(validate_repository_url("https://repo.voidlinux.org/current").is_ok());
    assert!(validate_repository_url("http://local.mirror/void").is_ok());
    assert!(validate_repository_url("file:///var/cache/binpkgs").is_ok());

    assert!(
        validate_repository_url("https://repo.voidlinux.org\nrepository=https://evil.org").is_err()
    );
    assert!(validate_repository_url("https://repo.voidlinux.org\r\n").is_err());
    assert!(validate_repository_url("ftp://repo.voidlinux.org").is_err());
    assert!(validate_repository_url("ext::sh").is_err());
    assert!(validate_repository_url("").is_err());
    assert!(validate_repository_url("   ").is_err());
}

#[test]
fn xbps_key_plist_path_deriva_y_rechaza_traversal() {
    let fp = "78:b8:1b:87:74:ff:ce:49:f8:f9:06:9a:04:7f:7e:1e";
    assert_eq!(
        xbps_key_plist_path(fp).unwrap(),
        format!("/var/db/xbps/keys/{fp}.plist")
    );
    assert!(xbps_key_plist_path("").is_err());
    assert!(xbps_key_plist_path("../evil").is_err());
    assert!(xbps_key_plist_path("ab/cd").is_err());
    assert!(xbps_key_plist_path("ab\\cd").is_err());
    assert!(xbps_key_plist_path("zz:11").is_err());
    assert!(xbps_key_plist_path("portador: ñ").is_err());
}

#[test]
fn key_dirs_are_fixed() {
    assert_eq!(keys_dir(), "/etc/xbps.d/keys");
    assert_eq!(xbps_keys_dir(), "/var/db/xbps/keys");
}

#[test]
fn pins_match_ignoring_case_and_spaces() {
    let fp = "78:b8:1b:87:74:ff:ce:49:f8:f9:06:9a:04:7f:7e:1e";
    assert!(fingerprint_matches_pin(fp, fp, "aa:bb"));
    assert!(fingerprint_matches_pin("  78:B8:1B:87:74:FF:CE:49:F8:F9:06:9A:04:7F:7E:1E ", fp, "aa:bb"));
    assert!(fingerprint_matches_pin("AA:BB", fp, "aa:bb"));
    assert!(!fingerprint_matches_pin("", fp, "aa:bb"));
    assert!(!fingerprint_matches_pin("cc:dd", fp, "aa:bb"));
}

#[test]
fn defaults_are_sane() {
    let entry = RepoEntry::default();
    assert_eq!(entry.branch_or_default(), "main");
    assert_eq!(entry.priority_or(100), 100);
    assert_eq!(entry.priority_or(42), 42);
    assert!(entry.enabled_or(true));
    assert!(!entry.enabled_or(false));
    assert!(!entry.has_binary());
    assert!(!entry.has_vup_index());
    let blank_binary = RepoEntry {
        binary_repo_url: Some("   ".into()),
        ..Default::default()
    };
    assert!(!blank_binary.has_binary());
}

#[test]
fn set_fields_are_used() {
    let entry = RepoEntry {
        branch: Some("dev".into()),
        priority: Some(7),
        enabled: Some(false),
        binary_repo_url: Some("https://x/bin".into()),
        index_url: Some(" https://x/index.json ".into()),
        ..Default::default()
    };
    assert_eq!(entry.branch_or_default(), "dev");
    assert_eq!(entry.priority_or(100), 7);
    assert!(!entry.enabled_or(true));
    assert!(entry.has_binary());
    assert!(entry.has_vup_index());
}

#[test]
fn sorted_by_priority_orders_and_filters() {
    let mut conf = ReposConf::default();
    conf.insert(
        "gamma".into(),
        RepoEntry {
            priority: Some(30),
            url: "g".into(),
            ..Default::default()
        },
    );
    conf.insert(
        "alpha".into(),
        RepoEntry {
            priority: Some(20),
            url: "a".into(),
            ..Default::default()
        },
    );
    conf.insert(
        "delta".into(),
        RepoEntry {
            priority: Some(1),
            url: "d".into(),
            enabled: Some(false),
            ..Default::default()
        },
    );
    conf.insert(
        "beta".into(),
        RepoEntry {
            priority: Some(10),
            url: "b".into(),
            ..Default::default()
        },
    );
    conf.insert(
        "zeta".into(),
        RepoEntry {
            url: "z".into(),
            ..Default::default()
        },
    );

    let names: Vec<String> = conf
        .sorted_by_priority()
        .into_iter()
        .map(|(name, _)| name)
        .collect();
    assert_eq!(
        names,
        vec![
            "beta".to_string(),
            "alpha".to_string(),
            "gamma".to_string(),
            "zeta".to_string()
        ]
    );
}

#[test]
fn insert_replaces_and_keeps_names_ordered() {
    let mut conf = ReposConf::default();
    conf.insert("b".into(), RepoEntry { url: "1".into(), ..Default::default() });
    conf.insert("a".into(), RepoEntry { url: "2".into(), ..Default::default() });
    conf.insert("b".into(), RepoEntry { url: "3".into(), ..Default::default() });
    let names: Vec<&str> = conf.vur.iter().map(|(n, _)| n.as_str()).collect();
    assert_eq!(names, vec!["a", "b"]);
    assert_eq!(conf.get("b").unwrap().url, "3");
    assert!(conf.get("c").is_none());
}
