use vary::challenge::{
    built_entry, built_tree, challenge_precheck, challenge_report_lines, compare_trees, installed_entry, member_path, sha256_hex, Divergence,
    DivergenceKind, FileState, MemberKind, TreeEntry,
};
use vary::db::{InstallType, InstalledDb};

fn ent(path: &str, state: FileState) -> TreeEntry {
    TreeEntry { path: path.to_string(), state }
}

fn content(s: &str) -> FileState {
    FileState::Content(format!("sha256:{s}"))
}

#[test]
fn compare_tabla_aceptacion() {
    let built = vec![ent("/a", content("1")), ent("/b", content("2"))];
    let inst = vec![ent("/b", content("2")), ent("/a", content("1"))];
    assert!(compare_trees(&built, &inst).is_empty());

    let built = vec![ent("/same", content("1")), ent("/old", content("1"))];
    let inst = vec![ent("/same", content("1")), ent("/new", content("9")), ent("/old", content("2"))];
    let d = compare_trees(&built, &inst);
    assert_eq!(d.len(), 2, "{d:?}");
    assert!(d.iter().any(|x| x.path == "/new" && x.kind == DivergenceKind::Added));
    assert!(d.iter().any(|x| x.path == "/old" && x.kind == DivergenceKind::Changed));
    let paths: Vec<&str> = d.iter().map(|x| x.path.as_str()).collect();
    let mut sorted = paths.clone();
    sorted.sort();
    assert_eq!(paths, sorted);
}

#[test]
fn compare_symlinks_y_tipos() {
    let built = vec![ent("/l", FileState::Symlink("a".to_string()))];
    assert!(compare_trees(&built, &[ent("/l", FileState::Symlink("a".to_string()))]).is_empty());
    let d = compare_trees(&built, &[ent("/l", FileState::Symlink("b".to_string()))]);
    assert_eq!(d.len(), 1);
    assert_eq!(d[0].kind, DivergenceKind::Changed);
    let d = compare_trees(&built, &[ent("/l", content("1"))]);
    assert_eq!(d.len(), 1);
    assert_eq!(d[0].kind, DivergenceKind::Changed);
}

#[test]
fn compare_vacio_total_es_silencio() {
    assert!(compare_trees(&[], &[]).is_empty());
}

#[test]
fn compare_reports_removed_and_later_entry_wins() {
    let built = vec![ent("/z", content("1")), ent("/gone", content("1")), ent("/z", content("2"))];
    let inst = vec![ent("/z", content("2"))];
    let d = compare_trees(&built, &inst);
    assert_eq!(d.len(), 1);
    assert_eq!(d[0].path, "/gone");
    assert_eq!(d[0].kind, DivergenceKind::Removed);
}

#[test]
fn sha256_hex_is_lowercase_hex() {
    assert_eq!(sha256_hex(b"abc"), "ba7816bf8f01cfea414140de5dae2223b00361a396177a9cb410ff61f20015ad");
    assert_eq!(sha256_hex(b"").len(), 64);
}

#[test]
fn member_paths_are_absolute_and_metadata_skipped() {
    assert_eq!(member_path("./usr/bin/x"), "/usr/bin/x");
    assert_eq!(member_path("usr/bin/x"), "/usr/bin/x");
    assert_eq!(member_path("/usr/lib"), "/usr/lib");
    assert_eq!(member_path("././//etc/a"), "/etc/a");
    assert!(built_entry("./props.plist", MemberKind::File, None, b"x").is_none());
    assert!(built_entry("./usr/share", MemberKind::Other, None, b"").is_none());
    let link = built_entry("usr/lib/libz.so", MemberKind::Symlink, Some("libz.so.1"), b"").unwrap();
    assert_eq!(link.path, "/usr/lib/libz.so");
    assert!(matches!(link.state, FileState::Symlink(ref t) if t == "libz.so.1"));
    let file = built_entry("./usr/bin/x", MemberKind::File, None, b"abc").unwrap();
    assert!(matches!(file.state, FileState::Content(ref h) if h.starts_with("ba7816bf")));
}

#[test]
fn installed_entries_skip_blank_and_unreadable() {
    assert!(installed_entry("   ", MemberKind::File, None, Some(b"x")).is_none());
    assert!(installed_entry("/usr/bin/x", MemberKind::File, None, None).is_none());
    let e = installed_entry(" /usr/bin/x ", MemberKind::File, None, Some(b"abc")).unwrap();
    assert_eq!(e.path, "/usr/bin/x");
    let l = installed_entry("/usr/lib/a.so", MemberKind::Symlink, None, None).unwrap();
    assert!(matches!(l.state, FileState::Symlink(ref t) if t.is_empty()));
}

#[test]
fn challenge_precheck_needs_a_source_package() {
    assert!(challenge_precheck(false, "foo", None, true).unwrap_err().starts_with("challenge requiere --experimental"));
    assert_eq!(
        challenge_precheck(true, "foo", None, true).unwrap_err(),
        "'foo' no está gestionado por vary (sin entrada en installed.json)"
    );
    let mut db = InstalledDb::new();
    db.upsert_at("foo", "1", "r", InstallType::Binary, None, None, 1);
    db.upsert_at("bar", "1", "r", InstallType::Source, None, None, 1);
    assert_eq!(
        challenge_precheck(true, "foo", db.get("foo"), true).unwrap_err(),
        "challenge solo aplica a paquetes compilados desde fuente (esto es Binary)"
    );
    assert_eq!(challenge_precheck(true, "bar", db.get("bar"), false).unwrap_err(), "repo 'r' sin entrada en repos.conf");
    assert!(challenge_precheck(true, "bar", db.get("bar"), true).is_ok());
}

#[test]
fn challenge_report_caps_the_listing() {
    assert_eq!(
        challenge_report_lines("foo", 12, &Vec::new(), "foo-1_1.x86_64.xbps"),
        vec!["challenge foo: sin divergencias (12 ficheros comparados)".to_string()]
    );
    let ds: Vec<Divergence> = (0..52)
        .map(|i| Divergence { path: format!("/p{i:02}"), kind: DivergenceKind::Changed })
        .collect();
    let lines = challenge_report_lines("foo", 0, &ds, "foo-1_1.x86_64.xbps");
    assert_eq!(lines.len(), 52);
    assert_eq!(lines[0], "challenge foo: 52 divergencias (rebuild foo-1_1.x86_64.xbps vs instalado):");
    assert_eq!(lines[1], "  [cambiado] /p00");
    assert_eq!(lines[51], "  ... y 2 más");
    let one = vec![Divergence { path: "/a".to_string(), kind: DivergenceKind::Added }];
    assert_eq!(challenge_report_lines("x", 0, &one, "a.xbps")[1], "  [añadido-en-disco] /a");
}

fn artifact() -> Vec<u8> {
    let mut b = tar::Builder::new(Vec::new());
    let mut add_file = |path: &str, data: &[u8]| {
        let mut h = tar::Header::new_gnu();
        h.set_size(data.len() as u64);
        h.set_entry_type(tar::EntryType::Regular);
        h.set_mode(0o644);
        h.set_cksum();
        b.append_data(&mut h, path, data).unwrap();
    };
    add_file("./props.plist", b"<plist/>");
    add_file("./usr/bin/hello", b"hello");
    let mut dir = tar::Header::new_gnu();
    dir.set_size(0);
    dir.set_entry_type(tar::EntryType::Directory);
    dir.set_mode(0o755);
    dir.set_cksum();
    b.append_data(&mut dir, "./usr/share/", &[][..]).unwrap();
    let mut link = tar::Header::new_gnu();
    link.set_size(0);
    link.set_entry_type(tar::EntryType::Symlink);
    link.set_mode(0o777);
    b.append_link(&mut link, "usr/bin/hi", "hello").unwrap();
    let tar_bytes = b.into_inner().unwrap();
    ruzstd::encoding::compress_to_vec(&tar_bytes[..], ruzstd::encoding::CompressionLevel::Fastest)
}

#[test]
fn built_tree_reads_files_and_links_of_the_artifact() {
    let tree = built_tree("hello-1.0_1.x86_64.xbps", &artifact()).unwrap();
    let seen: Vec<(String, String)> = tree
        .iter()
        .map(|e| match &e.state {
            FileState::Content(h) => (e.path.clone(), format!("file:{h}")),
            FileState::Symlink(t) => (e.path.clone(), format!("link:{t}")),
        })
        .collect();
    assert_eq!(
        seen,
        vec![
            ("/usr/bin/hello".to_string(), format!("file:{}", sha256_hex(b"hello"))),
            ("/usr/bin/hi".to_string(), "link:hello".to_string()),
        ]
    );
    assert_eq!(built_tree("x.xbps", b"not zstd").unwrap_err(), "decodificando zstd de x.xbps");
    let not_tar = ruzstd::encoding::compress_to_vec(&[1u8; 700][..], ruzstd::encoding::CompressionLevel::Fastest);
    assert_eq!(built_tree("y.xbps", &not_tar).unwrap_err(), "leyendo tar de y.xbps");
}
