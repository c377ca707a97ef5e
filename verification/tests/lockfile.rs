use vary::db::{InstallType, InstalledDb};
use vary::lockfile::{generate, verify_plan, LockedPkg, LockedRepo, Lockfile};

fn sample_lock() -> Lockfile {
    let mut lock = Lockfile::new();
    lock.pin_repo(
        "mi-repo".to_string(),
        LockedRepo {
            url: "https://example.com/r.git".to_string(),
            commit: Some("aaa111".to_string()),
            fingerprint: Some("11:22".to_string()),
        },
    );
    lock.pin_package(
        "app".to_string(),
        LockedPkg {
            version: "app-1.0_1".to_string(),
            source: "vur:mi-repo".to_string(),
            sha256: Some("sha256:abc".to_string()),
        },
    );
    lock
}

#[test]
fn verify_solo_mismatch_pineado() {
    let lock = sample_lock();
    let w = verify_plan(
        &lock,
        &[("app".to_string(), "app-1.0_1".to_string())],
        &[("mi-repo".to_string(), Some("aaa111".to_string()))],
    );
    assert!(w.is_empty(), "{w:?}");
    let w = verify_plan(
        &lock,
        &[("app".to_string(), "app-2.0_1".to_string())],
        &[("mi-repo".to_string(), Some("aaa111".to_string()))],
    );
    assert_eq!(w.len(), 1, "{w:?}");
    assert!(w[0].contains("app-2.0_1"), "{w:?}");
    let w = verify_plan(
        &lock,
        &[("app".to_string(), "app-1.0_1".to_string())],
        &[("mi-repo".to_string(), Some("bbb222".to_string()))],
    );
    assert_eq!(w.len(), 1, "{w:?}");
    assert!(w[0].contains("bbb222"), "{w:?}");
    let w = verify_plan(&lock, &[("nuevo".to_string(), "nuevo-1.0_1".to_string())], &[]);
    assert!(w.is_empty(), "{w:?}");
    let w = verify_plan(&Lockfile::new(), &[("app".to_string(), "app-9.0_1".to_string())], &[]);
    assert!(w.is_empty(), "{w:?}");
}

#[test]
fn verify_plan_messages_are_exact() {
    let mut lock = sample_lock();
    lock.pin_repo(
        "r2".to_string(),
        LockedRepo {
            url: "u".to_string(),
            commit: Some("0123456789abcdef".to_string()),
            fingerprint: None,
        },
    );
    let w = verify_plan(
        &lock,
        &[("app".to_string(), "app-2.0_1".to_string())],
        &[("r2".to_string(), Some("fedcba9876543210".to_string())), ("r2".to_string(), None)],
    );
    assert_eq!(
        w,
        vec![
            "lock: 'app' resuelve app-2.0_1 pero vary.lock pinea app-1.0_1 (regenera con `vary --lock`)".to_string(),
            "lock: repo 'r2' cambió de commit (0123456789ab -> fedcba987654); regenera con `vary --lock`".to_string(),
        ]
    );
}

#[test]
fn official_pins_do_not_override_managed_ones() {
    let mut lock = sample_lock();
    lock.pin_official("app".to_string(), "app-5_1".to_string());
    lock.pin_official("zlib".to_string(), "zlib-1.3_1".to_string());
    assert_eq!(lock.packages.len(), 2);
    assert_eq!(lock.packages[0].1.version, "app-1.0_1");
    assert_eq!(lock.packages[1].0, "zlib");
    assert_eq!(lock.packages[1].1.source, "official");
}

#[test]
fn generate_pins_repos_managed_then_official() {
    let mut db = InstalledDb::new();
    db.upsert_at("foo", "foo-1.0_1", "mi-repo", InstallType::Binary, None, Some("sha256:ab".to_string()), 1);
    let repos = vec![(
        "mi-repo".to_string(),
        LockedRepo { url: "https://example.com/r.git".to_string(), commit: Some("c0ffee".to_string()), fingerprint: None },
    )];
    let official = vec![
        ("bash".to_string(), "bash-5.2_1".to_string()),
        ("foo".to_string(), "foo-9.9_1".to_string()),
        ("bash".to_string(), "bash-0_1".to_string()),
    ];
    let lock = generate(repos, &db, &official);
    assert_eq!(lock.repos.len(), 1);
    assert_eq!(lock.repos[0].1.commit.as_deref(), Some("c0ffee"));
    let names: Vec<&str> = lock.packages.iter().map(|(n, _)| n.as_str()).collect();
    assert_eq!(names, vec!["bash", "foo"]);
    assert_eq!(lock.packages[0].1.version, "bash-5.2_1");
    assert_eq!(lock.packages[0].1.source, "official");
    assert_eq!(lock.packages[1].1.version, "foo-1.0_1");
    assert_eq!(lock.packages[1].1.source, "vur:mi-repo");
    assert_eq!(lock.packages[1].1.sha256.as_deref(), Some("sha256:ab"));
}

#[test]
fn generated_lock_accepts_the_installed_versions() {
    let mut db = InstalledDb::new();
    db.upsert_at("foo", "foo-1.0_1", "r", InstallType::Source, None, None, 1);
    db.upsert_at("bar", "bar-2.0_3", "r", InstallType::Binary, None, None, 1);
    let lock = generate(Vec::new(), &db, &vec![("glibc".to_string(), "glibc-2.39_1".to_string())]);
    let items = vec![("foo".to_string(), "foo-1.0_1".to_string()), ("bar".to_string(), "bar-2.0_3".to_string())];
    assert!(verify_plan(&lock, &items, &[]).is_empty());
    let moved = vec![("foo".to_string(), "foo-1.1_1".to_string())];
    assert_eq!(verify_plan(&lock, &moved, &[]).len(), 1);
}
