use vary::bootstrap::{conf_needs_write, vary_conf_contents};
use vary::db::{decode_bincode_entry, drift_warnings, parse_lmdb_data_file, Entry, InstallType, InstalledDb};
use vary::init::{post_install_plan, ServiceHost, ServiceSetup};
use vary::install::{artifact_file_name, elevation_estimate, official_repository_listed, track_action, worker_log_file};
use vary::journal::{format_line, parse_line, select_lines};
use vary::masterdir::WorkerSandbox;
use vary::metadata::VurInfo;
use vary::resolver::{Action, BinarySource, Plan, PlanItem};

fn fake_info(pkgname: &str) -> VurInfo {
    VurInfo {
        format_version: 1,
        pkgname: pkgname.to_string(),
        version: "1.0".to_string(),
        revision: 1,
        archs: vec!["x86_64".to_string()],
        subpackages: vec![],
        depends: vec![],
        hostmakedepends: vec![],
        makedepends: vec![],
        checkdepends: vec![],
        build_style: None,
        distfiles: vec![],
        checksum: vec![],
        provides: vec![],
        replaces: vec![],
        restricted: false,
        maintainer: None,
    }
}

fn install_item(name: &str, action: Action) -> PlanItem {
    PlanItem { name: name.to_string(), info: fake_info(name), action }
}

fn empty_plan() -> Plan {
    Plan { installs: vec![], builds: vec![], warnings: vec![] }
}

#[test]
fn elevation_sin_trabajo_es_cero() {
    assert_eq!(elevation_estimate(&empty_plan(), &vec![]), (0, 0));
}

#[test]
fn elevation_oficial_solo_transaccion() {
    let plan = Plan {
        installs: vec![install_item("curl", Action::Install(BinarySource::Official))],
        builds: vec![],
        warnings: vec![],
    };
    assert_eq!(elevation_estimate(&plan, &vec![]), (0, 1));
}

#[test]
fn elevation_build_cuenta_transaccion() {
    let plan = Plan { installs: vec![], builds: vec![install_item("demo", Action::Build)], warnings: vec![] };
    assert_eq!(elevation_estimate(&plan, &vec![]), (0, 1));
}

#[test]
fn elevation_counts_each_unregistered_repo_once() {
    let vul = |r: &str| Action::Install(BinarySource::VulBinary { repo: r.to_string() });
    let plan = Plan {
        installs: vec![install_item("a", vul("r1")), install_item("b", vul("r1")), install_item("c", vul("r2")), install_item("d", vul("r3"))],
        builds: vec![],
        warnings: vec![],
    };
    assert_eq!(elevation_estimate(&plan, &vec!["r2".to_string()]), (2, 1));
}

#[test]
fn track_action_solo_build_y_binario_vur() {
    assert_eq!(track_action(&Action::Build), Some(InstallType::Source));
    assert_eq!(
        track_action(&Action::Install(BinarySource::VulBinary { repo: "vup".to_string() })),
        Some(InstallType::Binary)
    );
    assert_eq!(track_action(&Action::Install(BinarySource::Official)), None);
}

#[test]
fn worker_log_prefiere_dir_y_hermana_default() {
    let sb = WorkerSandbox::for_test("/tmp/base/w2");
    assert_eq!(worker_log_file(Some("/logs"), Some("/c/xbps-src.log"), &sb), Some("/logs/xbps-src-w2.log".to_string()));
    assert_eq!(worker_log_file(None, Some("/c/xbps-src.log"), &sb), Some("/c/xbps-src.log.w2".to_string()));
    assert_eq!(worker_log_file(None, None, &sb), None);
}

#[test]
fn official_repository_ignores_local_binpkgs() {
    assert!(!official_repository_listed("/home/u/void-packages/hostdir/binpkgs\n\n", ""));
    assert!(!official_repository_listed("/srv/local\n", "/srv/local"));
    assert!(official_repository_listed("/home/u/hostdir/binpkgs\nhttps://repo-default.voidlinux.org/current\n", ""));
    assert!(!official_repository_listed("", ""));
}

#[test]
fn artifact_names_follow_pkgver_and_arch() {
    assert_eq!(artifact_file_name("demo-1.0_1", "x86_64"), "demo-1.0_1.x86_64.xbps");
}

fn pinned_entry() -> Entry {
    Entry {
        version: "1.0_1".to_string(),
        vur: "r".to_string(),
        install_date: 1700000000,
        build_date: Some(1700000000000),
        install_type: InstallType::Source,
        repo_commit: Some("aaa111".to_string()),
        artifact_sha256: Some("sha256:bbb222".to_string()),
        soname_pins: None,
    }
}

#[test]
fn decode_bincode_entry_extracts_correct_fields() {
    let mut data = Vec::new();
    data.extend_from_slice(&(4u64).to_le_bytes());
    data.extend_from_slice(b"1.01");
    data.extend_from_slice(&(3u64).to_le_bytes());
    data.extend_from_slice(b"vur");
    data.extend_from_slice(&(1700000000u64).to_le_bytes());
    data.extend_from_slice(&(0u32).to_le_bytes());
    let entry = decode_bincode_entry(&data).unwrap();
    assert_eq!(entry.version, "1.01");
    assert_eq!(entry.vur, "vur");
    assert_eq!(entry.install_date, 1700000000);
    assert_eq!(entry.build_date, Some(1700000000000));
    assert_eq!(entry.install_type, InstallType::Source);
}

#[test]
fn decode_bincode_entry_rejects_bad_records() {
    let mut data = Vec::new();
    data.extend_from_slice(&(4u64).to_le_bytes());
    data.extend_from_slice(b"1.01");
    data.extend_from_slice(&(u64::MAX).to_le_bytes());
    assert!(decode_bincode_entry(&data).is_none());
    let mut data = Vec::new();
    data.extend_from_slice(&(1u64).to_le_bytes());
    data.push(0xff);
    data.extend_from_slice(&(1u64).to_le_bytes());
    data.push(b'r');
    data.extend_from_slice(&(5u64).to_le_bytes());
    data.extend_from_slice(&(1u32).to_le_bytes());
    assert!(decode_bincode_entry(&data).is_none());
    data[8] = b'v';
    let e = decode_bincode_entry(&data).unwrap();
    assert_eq!(e.install_type, InstallType::Binary);
    assert_eq!(e.build_date, None);
    let n = data.len();
    data[n - 4] = 2;
    assert!(decode_bincode_entry(&data).is_none());
}

fn record(version: &str, vur: &str, date: u64, code: u32) -> Vec<u8> {
    let mut d = Vec::new();
    d.extend_from_slice(&(version.len() as u64).to_le_bytes());
    d.extend_from_slice(version.as_bytes());
    d.extend_from_slice(&(vur.len() as u64).to_le_bytes());
    d.extend_from_slice(vur.as_bytes());
    d.extend_from_slice(&date.to_le_bytes());
    d.extend_from_slice(&code.to_le_bytes());
    d
}

#[test]
fn lmdb_leaf_pages_give_entries() {
    let mut data = vec![0u8; 4096 * 3];
    let page = 8192;
    data[page + 10] = 0x02;
    data[page + 12..page + 14].copy_from_slice(&(20u16).to_le_bytes());
    let nodes = [(100usize, "foo", record("1.0_1", "r", 7, 0)), (600usize, "bar", record("2.0_1", "s", 9, 1))];
    for (k, (pos, key, val)) in nodes.iter().enumerate() {
        data[page + 16 + 2 * k..page + 18 + 2 * k].copy_from_slice(&(*pos as u16).to_le_bytes());
        let p = page + pos;
        data[p..p + 4].copy_from_slice(&(val.len() as u32).to_le_bytes());
        data[p + 6..p + 8].copy_from_slice(&(key.len() as u16).to_le_bytes());
        data[p + 8..p + 8 + key.len()].copy_from_slice(key.as_bytes());
        data[p + 8 + key.len()..p + 8 + key.len() + val.len()].copy_from_slice(val);
    }
    let entries = parse_lmdb_data_file(&data);
    assert_eq!(entries.len(), 2);
    assert_eq!(entries[0].0, "bar");
    assert_eq!(entries[0].1.install_type, InstallType::Binary);
    assert_eq!(entries[1].0, "foo");
    assert_eq!(entries[1].1.build_date, Some(7000));
    assert!(parse_lmdb_data_file(&data[..8192]).is_empty());
}

#[test]
fn drift_solo_ante_misma_version_con_pins_distintos() {
    let old = pinned_entry();
    assert!(drift_warnings(Some(&old), "1.0_1", &Some("aaa111".to_string()), &Some("sha256:bbb222".to_string())).is_empty());
    assert!(drift_warnings(Some(&old), "2.0_1", &Some("zzz999".to_string()), &Some("sha256:yyy888".to_string())).is_empty());
    assert!(drift_warnings(None, "1.0_1", &Some("x".to_string()), &None).is_empty());
    assert!(drift_warnings(Some(&old), "1.0_1", &None, &None).is_empty());
    assert!(drift_warnings(Some(&old), "1.0_1", &Some("aaa111".to_string()), &Some("sha256:otro".to_string())).is_empty());
}

#[test]
fn drift_de_artefacto_solo_sin_commits() {
    let mut legacy = pinned_entry();
    legacy.repo_commit = None;
    let warnings = drift_warnings(Some(&legacy), "1.0_1", &None, &Some("sha256:otro".to_string()));
    assert_eq!(warnings.len(), 1, "{warnings:?}");
    assert!(warnings[0].contains("drift de artefacto"), "{warnings:?}");
}

#[test]
fn drift_de_commit_avisa_forense() {
    let old = pinned_entry();
    let warnings = drift_warnings(Some(&old), "1.0_1", &Some("ccc333".to_string()), &Some("sha256:bbb222".to_string()));
    assert_eq!(warnings.len(), 1, "{warnings:?}");
    assert!(warnings[0].contains("drift de procedencia"), "{warnings:?}");
    assert!(warnings[0].contains("1.0_1"), "{warnings:?}");
}

#[test]
fn retain_and_remove() {
    let mut db = InstalledDb::new();
    db.upsert("a", "1.0_1", "r", InstallType::Source, None, None);
    db.upsert_at("b", "2.0_1", "r", InstallType::Binary, Some("c".to_string()), None, 1_700_000_000_123);
    assert_eq!(db.len(), 2);
    let b = db.get("b").unwrap();
    assert_eq!(b.install_date, 1_700_000_000);
    assert_eq!(b.build_date, None);
    assert!(db.get("a").unwrap().build_date.is_some());
    assert!(db.remove("a"));
    assert!(!db.remove("a"));
    assert_eq!(db.len(), 1);
    assert_eq!(db.get_build_date("b"), None);
    db.upsert("c", "3.0_1", "r", InstallType::Source, None, None);
    let snap = db.entries_snapshot();
    assert_eq!(snap.iter().map(|(n, e)| (n.as_str(), e.version.as_str())).collect::<Vec<_>>(), vec![("b", "2.0_1"), ("c", "3.0_1")]);
    db.retain_names(&vec!["c".to_string(), "b".to_string(), "zz".to_string()]);
    assert_eq!(db.len(), 2);
    db.retain(|name, e| name == "c" && e.version == "3.0_1");
    assert_eq!(db.len(), 1);
    assert_eq!(db.get("c").unwrap().version, "3.0_1");
    db.retain(|name, _| name == "none");
    assert_eq!(db.len(), 0);
}

#[test]
fn hook_retorna_ok_si_paquete_no_tiene_servicio() {
    let host = ServiceHost { has_service_dir: false, dinit: true, runit: true, linked: false };
    assert!(matches!(post_install_plan("nonexistent-pkg-service-xyz", &host), ServiceSetup::Nothing));
}

#[test]
fn service_setup_per_init_system() {
    let dinit = ServiceHost { has_service_dir: true, dinit: true, runit: true, linked: false };
    match post_install_plan("sshd", &dinit) {
        ServiceSetup::Ask { prompt, commands } => {
            assert_eq!(prompt, "Enable and start dinit service for sshd?");
            assert_eq!(commands, vec![vec!["dinitctl", "enable", "sshd"], vec!["dinitctl", "start", "sshd"]]);
        }
        other => panic!("unexpected: {other:?}"),
    }
    let runit = ServiceHost { has_service_dir: true, dinit: false, runit: true, linked: false };
    match post_install_plan("sshd", &runit) {
        ServiceSetup::Ask { prompt, commands } => {
            assert_eq!(prompt, "Enable runit service for sshd?");
            assert_eq!(commands, vec![vec!["ln", "-s", "/etc/sv/sshd", "/var/service/sshd"]]);
        }
        other => panic!("unexpected: {other:?}"),
    }
    let linked = ServiceHost { has_service_dir: true, dinit: false, runit: true, linked: true };
    assert!(matches!(post_install_plan("sshd", &linked), ServiceSetup::Ask { commands, .. } if commands.is_empty()));
    let none = ServiceHost { has_service_dir: true, dinit: false, runit: false, linked: false };
    assert!(matches!(post_install_plan("sshd", &none), ServiceSetup::Nothing));
}

#[test]
fn append_parse_roundtrip_y_filtro() {
    let mut text = String::new();
    text.push_str(&format_line(1_700_000_001, "INSTALL", "a", "a-1.0_1 r"));
    text.push_str(&format_line(1_700_000_002, "REMOVE", "a", ""));
    text.push_str(&format_line(1_700_000_003, "INSTALL", "b", "  b-2.0_1 r "));
    assert_eq!(text.lines().count(), 3);
    let (epoch, op, pkg, detail) = parse_line(text.lines().next().unwrap()).unwrap();
    assert!(epoch > 1_700_000_000);
    assert_eq!(op, "INSTALL");
    assert_eq!(pkg, "a");
    assert_eq!(detail, "a-1.0_1 r");
    assert!(parse_line("basura").is_none());
    assert!(parse_line("123 INSTALL").is_none());
    assert!(parse_line("").is_none());
    assert_eq!(select_lines(&text, Some("a")).len(), 2);
    assert_eq!(select_lines(&text, None).len(), 3);
    assert_eq!(select_lines(&text, Some("b")), vec!["1700000003 INSTALL b b-2.0_1 r".to_string()]);
}

#[test]
fn conf_tiene_formato_repository() {
    let c = vary_conf_contents("/home/u/.cache/vary/void-packages/hostdir/binpkgs");
    assert_eq!(c, "repository=/home/u/.cache/vary/void-packages/hostdir/binpkgs\n");
    assert!(!conf_needs_write(Some(&c), &c));
    assert!(conf_needs_write(None, &c));
    assert!(conf_needs_write(Some("repository=/x\n"), &c));
}

#[test]
fn written_journal_line_reads_back_with_normalized_detail() {
    let line = format_line(18_446_744_073_709_551_615, "UPGRADE", "pkg", "  x-1.0_1 \t  ->  x-1.1_1  ");
    assert_eq!(line, "18446744073709551615 UPGRADE pkg x-1.0_1 \t  ->  x-1.1_1\n");
    assert_eq!(
        parse_line(&line),
        Some((u64::MAX, "UPGRADE".to_string(), "pkg".to_string(), "x-1.0_1 -> x-1.1_1".to_string()))
    );
    assert_eq!(
        parse_line(line.lines().next().unwrap()),
        Some((u64::MAX, "UPGRADE".to_string(), "pkg".to_string(), "x-1.0_1 -> x-1.1_1".to_string()))
    );
    assert_eq!(parse_line("12x INSTALL a b"), None);
    assert_eq!(parse_line(&format_line(0, "REMOVE", "q", "   ")), Some((0, "REMOVE".to_string(), "q".to_string(), String::new())));
}
