use vary::command_line::parse_args;
use vary::config::{Arg, Config};
use vary::db::{InstallType, InstalledDb};
use vary::install::{install_precheck, print_precheck};
use vary::metadata::VurInfo;
use vary::plan_text::stable_plan_lines;
use vary::remove::{check_targets, forget_removed, remove_extra_args, remove_precheck};
use vary::resolver::{Action, BinarySource, Plan, PlanItem};

fn targets(ts: &[&str]) -> Vec<String> {
    ts.iter().map(|s| s.to_string()).collect()
}

fn info(pkgname: &str, version: &str) -> VurInfo {
    VurInfo {
        format_version: 1,
        pkgname: pkgname.to_string(),
        version: version.to_string(),
        revision: 2,
        archs: vec!["noarch".to_string()],
        subpackages: Vec::new(),
        depends: Vec::new(),
        hostmakedepends: Vec::new(),
        makedepends: Vec::new(),
        checkdepends: Vec::new(),
        build_style: None,
        distfiles: Vec::new(),
        checksum: Vec::new(),
        provides: Vec::new(),
        replaces: Vec::new(),
        restricted: false,
        maintainer: None,
    }
}

#[test]
fn install_precheck_rejects_empty_and_invalid_targets() {
    assert_eq!(install_precheck(&Vec::new()).unwrap_err(), "no targets specified");
    let err = install_precheck(&targets(&["ok", "-flag"])).unwrap_err();
    assert!(err.contains("nombre de paquete inválido"));
    assert!(err.contains("'-flag'"));
    assert!(install_precheck(&targets(&["bad/slash"])).unwrap_err().contains("nombre de paquete inválido"));
    assert!(install_precheck(&targets(&["foo", "bar-1.0"])).is_ok());
    assert!(check_targets(&Vec::new()).is_ok());
}

#[test]
fn remove_precheck_refuses_foreign_options_and_bad_names() {
    let mut config = Config::in_memory_defaults();
    parse_args(&mut config, &["-R", "foo"]).unwrap();
    config.args.args.push(Arg { key: "why".to_string(), value: None });
    assert!(remove_precheck(&config).unwrap_err().starts_with("--why no se combina con -R"));
    let mut config = Config::in_memory_defaults();
    parse_args(&mut config, &["-R"]).unwrap();
    assert_eq!(remove_precheck(&config).unwrap_err(), "no targets specified (use -h for help)");
    let mut config = Config::in_memory_defaults();
    config.targets = targets(&["-flag"]);
    assert!(remove_precheck(&config).unwrap_err().contains("nombre de paquete inválido"));
    config.targets = targets(&["foo"]);
    assert!(remove_precheck(&config).is_ok());
    assert_eq!(remove_extra_args(true), vec!["-y".to_string()]);
    assert!(remove_extra_args(false).is_empty());
}

#[test]
fn print_precheck_refuses_other_sync_modes() {
    let mut config = Config::in_memory_defaults();
    parse_args(&mut config, &["-Su", "foo"]).unwrap();
    assert_eq!(print_precheck(&config).unwrap_err(), "--print no se combina con -u (solo `-Sp <pkg>`)");
    let mut config = Config::in_memory_defaults();
    config.targets = Vec::new();
    assert!(print_precheck(&config).unwrap_err().starts_with("--print solo soporta"));
    config.targets = targets(&["foo"]);
    assert!(print_precheck(&config).is_ok());
}

#[test]
fn forget_removed_drops_constraint_free_names() {
    let mut db = InstalledDb::new();
    db.upsert_at("foo", "1.0", "r", InstallType::Source, None, None, 1);
    db.upsert_at("bar", "2.0", "r", InstallType::Binary, None, None, 1);
    let (names, changed) = forget_removed(&mut db, &targets(&["foo>=1", "baz"]));
    assert_eq!(names, targets(&["foo", "baz"]));
    assert!(changed);
    assert!(db.get("foo").is_none());
    assert!(db.get("bar").is_some());
    let (_, changed2) = forget_removed(&mut db, &targets(&["baz"]));
    assert!(!changed2);
}

#[test]
fn stable_plan_lines_have_the_display_shapes() {
    let plan = Plan {
        installs: vec![
            PlanItem { name: "glibc".to_string(), info: info("glibc", ""), action: Action::Install(BinarySource::Official) },
            PlanItem {
                name: "virt".to_string(),
                info: info("foo", "1.0"),
                action: Action::Install(BinarySource::VulBinary { repo: "vup".to_string() }),
            },
        ],
        builds: Vec::new(),
        warnings: vec!["careful".to_string()],
    };
    let levels = vec![vec![PlanItem { name: "bar".to_string(), info: info("bar", "3"), action: Action::Build }]];
    let lines = stable_plan_lines(&targets(&["foo", "bar"]), &plan, &levels, 1, 1);
    assert_eq!(
        lines,
        vec![
            ":: PRINT-ONLY plan for: foo bar (no changes will be made)".to_string(),
            "installs [single binary transaction]:".to_string(),
            "  official/glibc".to_string(),
            "  vup/foo-1.0 [foo-1.0_2] (pedido como virt)".to_string(),
            "builds [topological levels]:".to_string(),
            "  level 0:".to_string(),
            "    bar/bar-3_2".to_string(),
            "elevations [estimated total: 2]:".to_string(),
            "  repo-setup: 1".to_string(),
            "  install-transaction: 1".to_string(),
            "warning: careful".to_string(),
        ]
    );
    let empty = Plan { installs: Vec::new(), builds: Vec::new(), warnings: Vec::new() };
    let lines = stable_plan_lines(&targets(&["x"]), &empty, &Vec::new(), 0, 0);
    assert_eq!(lines[2], "  (none)");
    assert_eq!(lines[4], "  (none)");
}
