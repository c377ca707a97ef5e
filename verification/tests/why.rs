use vary::db::{InstallType, InstalledDb};
use vary::metadata::VurInfo;
use vary::why::{explain_lines, find_declarers, template_deps};

#[test]
fn find_declarers_recorta_constraints_y_ordena() {
    let templates = vec![
        ("r2", "app", vec!["lib>=2.0".to_string(), "otro".to_string()]),
        ("r1", "lib", vec!["base".to_string()]),
        ("r1", "app2", vec!["lib <3".to_string()]),
        ("r1", "app", vec!["lib>=2.0".to_string()]),
    ];
    let found = find_declarers("lib", &templates);
    assert_eq!(
        found,
        vec![
            ("r1".to_string(), "app".to_string()),
            ("r1".to_string(), "app2".to_string()),
            ("r2".to_string(), "app".to_string()),
        ]
    );
    let templates = vec![("r", "a", vec!["libfoo.so.1".to_string()])];
    assert_eq!(find_declarers("libfoo.so.1", &templates), vec![("r".to_string(), "a".to_string())]);
    assert!(find_declarers("nadie", &templates).is_empty());
}

#[test]
fn find_declarers_lists_a_template_once() {
    let templates = vec![
        ("r", "a", vec!["x".to_string(), "x>=1".to_string()]),
        ("r", "a", vec!["x<2".to_string()]),
    ];
    assert_eq!(find_declarers("x", &templates), vec![("r".to_string(), "a".to_string())]);
}

#[test]
fn explain_lines_report_all_three_sources() {
    assert!(explain_lines("bad/name", None, None, &Vec::new()).unwrap_err().contains("nombre de paquete inválido"));
    let mut db = InstalledDb::new();
    db.upsert_at("foo", "1.0_1", "mi-repo", InstallType::Source, None, None, 5);
    let e = db.get("foo").unwrap();
    let rdeps = vec!["app-2.0_1".to_string()];
    let decl = vec![("r1".to_string(), "app".to_string())];
    let lines = explain_lines("foo", Some(e), Some(&rdeps), &decl).unwrap();
    assert_eq!(
        lines,
        vec![
            "why foo:",
            "  gestionado-por-vary: 1.0_1 [mi-repo] (Source)",
            "  requerido-por-instalados [xbps -X]:",
            "    app-2.0_1",
            "  declarado-en-plantillas-VUR:",
            "    r1/app",
        ]
    );
    let lines = explain_lines("bar", None, None, &Vec::new()).unwrap();
    assert_eq!(
        lines,
        vec![
            "why bar:",
            "  gestionado-por-vary: no (lo gestiona xbps)",
            "  requerido-por-instalados: (ninguno)",
            "  declarado-en-plantillas-VUR: (ninguno)",
        ]
    );
}

#[test]
fn template_deps_in_build_order() {
    let info = VurInfo {
        format_version: 1,
        pkgname: "app".to_string(),
        version: "1".to_string(),
        revision: 1,
        archs: vec!["noarch".to_string()],
        subpackages: Vec::new(),
        depends: vec!["run".to_string()],
        hostmakedepends: vec!["host".to_string()],
        makedepends: vec!["make".to_string()],
        checkdepends: vec!["check".to_string()],
        build_style: None,
        distfiles: Vec::new(),
        checksum: Vec::new(),
        provides: Vec::new(),
        replaces: Vec::new(),
        restricted: false,
        maintainer: None,
    };
    assert_eq!(template_deps(&info), vec!["host".to_string(), "make".to_string(), "run".to_string()]);
}
