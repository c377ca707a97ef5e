use std::cmp::Ordering;

use vary::install::{
    builds_to_run, install_extra_flags, install_names, install_step, is_explicit_build, vup_urls_by_repo, BuildJob, InstallAction,
    InstallEvent, InstallState,
};
use vary::metadata::{Subpackage, VurInfo};
use vary::resolver::{resolve, Action, BinarySource, CandidateOrder, Plan, PlanItem, ResolveError, ResolveOptions};
use vary::source::VurSource;
use vary::version::cmp_pkgver;

fn strs(xs: &[&str]) -> Vec<String> {
    xs.iter().map(|s| (*s).to_string()).collect()
}

fn targets(ts: &[&str]) -> Vec<String> {
    ts.iter().map(|s| (*s).to_string()).collect()
}

fn vur_info(pkgname: &str, archs: &[&str]) -> VurInfo {
    vur_info_ver(pkgname, "1.0", archs)
}

fn vur_info_ver(pkgname: &str, version: &str, archs: &[&str]) -> VurInfo {
    VurInfo {
        format_version: 1,
        pkgname: pkgname.to_string(),
        version: version.to_string(),
        revision: 1,
        archs: strs(archs),
        subpackages: Vec::new(),
        depends: Vec::new(),
        hostmakedepends: Vec::new(),
        makedepends: Vec::new(),
        checkdepends: Vec::new(),
        build_style: None,
        distfiles: Vec::new(),
        checksum: Vec::new(),
        provides: Vec::new(),
        replaces: Vec::new(),
        restricted: false,
        maintainer: None,
    }
}

/// Test data in the shape of the indexes: official names, one merged
/// candidate per name, all candidates per name (the merged one when not
/// given), providers, published binaries and repository priorities.
#[derive(Default)]
struct Mock {
    official: Vec<&'static str>,
    vur: Vec<(&'static str, &'static str, VurInfo)>,
    vur_multi: Vec<(&'static str, Vec<(&'static str, VurInfo)>)>,
    provides: Vec<(&'static str, &'static str, VurInfo)>,
    binaries: Vec<(&'static str, &'static str)>,
    priorities: Vec<(&'static str, i64)>,
}

impl Mock {
    fn source(self) -> VurSource {
        let mut vur_all: Vec<(String, Vec<(String, VurInfo)>)> = self
            .vur_multi
            .iter()
            .map(|(n, cs)| {
                (
                    n.to_string(),
                    cs.iter().map(|(r, i)| (r.to_string(), i.clone())).collect(),
                )
            })
            .collect();
        for (n, r, i) in &self.vur {
            if !vur_all.iter().any(|(k, _)| k == n) {
                vur_all.push((n.to_string(), vec![(r.to_string(), i.clone())]));
            }
        }
        VurSource {
            official: self.official.iter().map(|s| s.to_string()).collect(),
            vur_map: self
                .vur
                .iter()
                .map(|(n, r, i)| (n.to_string(), (r.to_string(), i.clone())))
                .collect(),
            vur_all,
            provides_map: self
                .provides
                .iter()
                .map(|(n, r, i)| (n.to_string(), vec![(r.to_string(), i.clone())]))
                .collect(),
            binary_check: self
                .binaries
                .iter()
                .map(|(r, p)| (format!("{r}:{p}"), true))
                .collect(),
            arch: "x86_64".to_string(),
            priority: self
                .priorities
                .iter()
                .map(|(r, p)| (r.to_string(), *p))
                .collect(),
        }
    }
}

fn build_names(plan: &Plan) -> Vec<&str> {
    plan.builds.iter().map(|i| i.name.as_str()).collect()
}

#[test]
fn vur_sin_binario_genera_build_unico() {
    let src = Mock {
        vur: vec![("hello-vur", "vur-main", vur_info("hello-vur", &["x86_64"]))],
        ..Mock::default()
    }
    .source();
    let plan = resolve(&targets(&["hello-vur"]), &src, &ResolveOptions::default()).unwrap();
    assert_eq!(plan.installs.len(), 0);
    assert_eq!(build_names(&plan), vec!["hello-vur"]);
}

#[test]
fn cadena_en_orden_topologico_estricto() {
    let mut a = vur_info("a", &["x86_64"]);
    a.depends = strs(&["b"]);
    let mut b = vur_info("b", &["x86_64"]);
    b.depends = strs(&["c"]);
    let c = vur_info("c", &["x86_64"]);
    let src = Mock {
        vur: vec![("a", "vur-main", a), ("b", "vur-main", b), ("c", "vur-main", c)],
        ..Mock::default()
    }
    .source();
    let plan = resolve(&targets(&["a"]), &src, &ResolveOptions::default()).unwrap();
    assert_eq!(build_names(&plan), vec!["c", "b", "a"]);
    assert!(plan.installs.is_empty());
}

#[test]
fn diamante_deduplica_paquete_compartido() {
    let mut root = vur_info("root", &["x86_64"]);
    root.depends = strs(&["x", "y"]);
    let mut x = vur_info("x", &["x86_64"]);
    x.makedepends = strs(&["z"]);
    let mut y = vur_info("y", &["x86_64"]);
    y.hostmakedepends = strs(&["z"]);
    let z = vur_info("z", &["x86_64"]);
    let src = Mock {
        vur: vec![
            ("root", "vur-main", root),
            ("x", "vur-main", x),
            ("y", "vur-main", y),
            ("z", "vur-main", z),
        ],
        ..Mock::default()
    }
    .source();
    let plan = resolve(&targets(&["root"]), &src, &ResolveOptions::default()).unwrap();
    let names = build_names(&plan);
    assert_eq!(names.len(), 4);
    assert_eq!(names.iter().filter(|n| **n == "z").count(), 1);
    let zpos = names.iter().position(|n| *n == "z").unwrap();
    assert!(zpos < names.iter().position(|n| *n == "x").unwrap());
    assert!(zpos < names.iter().position(|n| *n == "y").unwrap());
}

#[test]
fn oficial_tiene_prioridad_y_es_hoja() {
    let mut tool = vur_info("tool", &["x86_64"]);
    tool.depends = strs(&["fantasma"]);
    let src = Mock {
        official: vec!["tool"],
        vur: vec![("tool", "vur-main", tool)],
        ..Mock::default()
    }
    .source();
    let plan = resolve(&targets(&["tool"]), &src, &ResolveOptions::default()).unwrap();
    assert!(plan.builds.is_empty());
    assert_eq!(plan.installs.len(), 1);
    assert_eq!(plan.installs[0].name, "tool");
    assert_eq!(plan.installs[0].action, Action::Install(BinarySource::Official));
}

#[test]
fn resuelve_via_provides() {
    let src = Mock {
        provides: vec![("libfoo.so.1", "vur-main", vur_info("foo", &["x86_64"]))],
        ..Mock::default()
    }
    .source();
    let plan = resolve(&targets(&["libfoo.so.1"]), &src, &ResolveOptions::default()).unwrap();
    assert_eq!(plan.builds.len(), 1);
    assert_eq!(plan.builds[0].name, "libfoo.so.1");
    assert_eq!(plan.builds[0].info.pkgname, "foo");
}

#[test]
fn info_pkgname_es_siempre_el_nombre_operativo() {
    let src = Mock {
        official: vec!["git"],
        ..Mock::default()
    }
    .source();
    let plan = resolve(&targets(&["git"]), &src, &ResolveOptions::default()).unwrap();
    assert_eq!(plan.installs.len(), 1);
    assert_eq!(plan.installs[0].name, "git");
    assert_eq!(plan.installs[0].info.pkgname, "git");
}

#[test]
fn ciclo_reporta_error_con_flechas() {
    let mut a = vur_info("a", &["x86_64"]);
    a.depends = strs(&["b"]);
    let mut b = vur_info("b", &["x86_64"]);
    b.depends = strs(&["a"]);
    let src = Mock {
        vur: vec![("a", "vur-main", a), ("b", "vur-main", b)],
        ..Mock::default()
    }
    .source();
    let err = resolve(&targets(&["a"]), &src, &ResolveOptions::default()).unwrap_err();
    assert!(err.message().contains("->"), "mensaje sin flechas: {}", err.message());
    assert_eq!(err.message(), "ciclo de dependencias detectado: a -> b -> a");
}

#[test]
fn binario_disponible_instala_salvo_force_build() {
    let src = Mock {
        vur: vec![("app", "vur-main", vur_info("app", &["x86_64"]))],
        binaries: vec![("vur-main", "app")],
        ..Mock::default()
    }
    .source();
    let plan = resolve(&targets(&["app"]), &src, &ResolveOptions::default()).unwrap();
    assert!(plan.builds.is_empty());
    assert_eq!(plan.installs.len(), 1);
    assert_eq!(
        plan.installs[0].action,
        Action::Install(BinarySource::VulBinary {
            repo: "vur-main".to_string()
        })
    );

    let opts = ResolveOptions {
        force_build: true,
        ..ResolveOptions::default()
    };
    let plan = resolve(&targets(&["app"]), &src, &opts).unwrap();
    assert!(plan.installs.is_empty());
    assert_eq!(build_names(&plan), vec!["app"]);
}

#[test]
fn dependencia_con_constraint_recorta_nombre() {
    let mut parent = vur_info("parent", &["x86_64"]);
    parent.depends = strs(&["z>=2.0"]);
    let z = vur_info("z", &["x86_64"]);
    let src = Mock {
        vur: vec![("parent", "vur-main", parent), ("z", "vur-main", z)],
        ..Mock::default()
    }
    .source();
    let plan = resolve(&targets(&["parent"]), &src, &ResolveOptions::default()).unwrap();
    assert_eq!(build_names(&plan), vec!["z", "parent"]);
}

#[test]
fn filtro_arquitectura_descarta_y_prueba_alternativa_o_falla() {
    let solo_arm = Mock {
        vur: vec![("arm-only", "vur-arm", vur_info("arm-only", &["aarch64"]))],
        ..Mock::default()
    }
    .source();
    let err = resolve(&targets(&["arm-only"]), &solo_arm, &ResolveOptions::default()).unwrap_err();
    let msg = err.message();
    assert!(
        msg.contains("no está disponible para tu arquitectura"),
        "error inesperado: {msg}"
    );
    assert!(msg.contains("vur-arm"), "el mensaje debe nombrar el VUR: {msg}");

    let con_alternativa = Mock {
        vur: vec![("gpukit", "vur-arm", vur_info("gpukit", &["aarch64"]))],
        provides: vec![("gpukit", "vur-x86", vur_info("gpukit-x86", &["x86_64"]))],
        ..Mock::default()
    }
    .source();
    let plan = resolve(&targets(&["gpukit"]), &con_alternativa, &ResolveOptions::default()).unwrap();
    assert_eq!(build_names(&plan), vec!["gpukit"]);
    assert_eq!(plan.builds[0].info.pkgname, "gpukit-x86");
}

#[test]
fn plan_mixto_oficial_mas_builds_topologicos() {
    let mut svc = vur_info("svc", &["x86_64"]);
    svc.makedepends = strs(&["libdata"]);
    svc.depends = strs(&["curl"]);
    let libdata = vur_info("libdata", &["x86_64"]);
    let src = Mock {
        official: vec!["curl"],
        vur: vec![("svc", "vur-main", svc), ("libdata", "vur-main", libdata)],
        ..Mock::default()
    }
    .source();
    let plan = resolve(&targets(&["svc"]), &src, &ResolveOptions::default()).unwrap();
    assert_eq!(plan.installs.len(), 1);
    assert_eq!(plan.installs[0].name, "curl");
    assert_eq!(plan.installs[0].action, Action::Install(BinarySource::Official));
    assert_eq!(build_names(&plan), vec!["libdata", "svc"]);
}

#[test]
fn t010_hyfetch_sin_flags_compila_fuente_aunque_haya_binario_en_otro_repo() {
    let src = Mock {
        vur: vec![(
            "hyfetch",
            "repository",
            vur_info_ver("hyfetch", "2.1.0", &["x86_64"]),
        )],
        binaries: vec![("vup", "hyfetch")],
        ..Mock::default()
    }
    .source();
    let plan = resolve(&targets(&["hyfetch"]), &src, &ResolveOptions::default()).unwrap();
    assert!(plan.installs.is_empty());
    assert_eq!(build_names(&plan), vec!["hyfetch"]);
    assert_eq!(plan.builds[0].info.version, "2.1.0");
}

#[test]
fn t010_hytale_sin_flags_oficial_gana_a_template_vur() {
    let src = Mock {
        official: vec!["hytale-installer"],
        vur: vec![(
            "hytale-installer",
            "cnr",
            vur_info_ver("hytale-installer", "2.0.0", &["x86_64"]),
        )],
        ..Mock::default()
    }
    .source();
    let plan = resolve(
        &targets(&["hytale-installer"]),
        &src,
        &ResolveOptions::default(),
    )
    .unwrap();
    assert!(plan.builds.is_empty());
    assert_eq!(plan.installs.len(), 1);
    assert_eq!(plan.installs[0].action, Action::Install(BinarySource::Official));
}

#[test]
fn t010_triple_via_sin_flags_oficial_gana() {
    let src = Mock {
        official: vec!["triapp"],
        vur: vec![("triapp", "cnr", vur_info_ver("triapp", "3.0.0", &["x86_64"]))],
        binaries: vec![("vup", "triapp")],
        ..Mock::default()
    }
    .source();
    let plan = resolve(&targets(&["triapp"]), &src, &ResolveOptions::default()).unwrap();
    assert!(plan.builds.is_empty());
    assert_eq!(plan.installs.len(), 1);
    assert_eq!(plan.installs[0].action, Action::Install(BinarySource::Official));
}

fn opts_con_orden(prefer_binary: bool, force_build: bool, order: CandidateOrder) -> ResolveOptions {
    ResolveOptions {
        prefer_binary,
        force_build,
        order,
    }
}

fn hyfetch_multi() -> VurSource {
    Mock {
        vur_multi: vec![(
            "hyfetch",
            vec![
                ("repository", vur_info_ver("hyfetch", "2.1.0", &["x86_64"])),
                ("vup", vur_info_ver("hyfetch", "2.0.5", &["x86_64"])),
            ],
        )],
        binaries: vec![("vup", "hyfetch")],
        ..Mock::default()
    }
    .source()
}

#[test]
fn t010_prefer_binary_cambia_de_repo_al_binario() {
    let src = hyfetch_multi();
    let opts = opts_con_orden(true, false, CandidateOrder::PreferBinary);
    let plan = resolve(&targets(&["hyfetch"]), &src, &opts).unwrap();
    assert!(plan.builds.is_empty());
    assert!(plan.warnings.is_empty());
    assert_eq!(plan.installs.len(), 1);
    assert_eq!(
        plan.installs[0].action,
        Action::Install(BinarySource::VulBinary {
            repo: "vup".to_string()
        })
    );
    assert_eq!(plan.installs[0].info.version, "2.0.5");
}

#[test]
fn t010_force_build_sobre_official_compila_template_vur() {
    let src = Mock {
        official: vec!["hytale-installer"],
        vur: vec![(
            "hytale-installer",
            "cnr",
            vur_info_ver("hytale-installer", "2.0.0", &["x86_64"]),
        )],
        ..Mock::default()
    }
    .source();
    let opts = opts_con_orden(true, true, CandidateOrder::PreferSource);
    let plan = resolve(&targets(&["hytale-installer"]), &src, &opts).unwrap();
    assert!(plan.installs.is_empty());
    assert!(plan.warnings.is_empty());
    assert_eq!(build_names(&plan), vec!["hytale-installer"]);
}

#[test]
fn t010_force_build_sobre_official_sin_template_avisa() {
    let src = Mock {
        official: vec!["solo-official"],
        ..Mock::default()
    }
    .source();
    let opts = opts_con_orden(true, true, CandidateOrder::PreferSource);
    let plan = resolve(&targets(&["solo-official"]), &src, &opts).unwrap();
    assert!(plan.builds.is_empty());
    assert_eq!(plan.installs.len(), 1);
    assert_eq!(plan.installs[0].action, Action::Install(BinarySource::Official));
    assert_eq!(plan.warnings.len(), 1);
    assert!(
        plan.warnings[0].contains("sin efecto"),
        "aviso inesperado: {}",
        plan.warnings[0]
    );
}

#[test]
fn t010_no_prefer_binary_ordena_fuente_primero() {
    let src = hyfetch_multi();
    let opts = opts_con_orden(false, false, CandidateOrder::PreferSource);
    let plan = resolve(&targets(&["hyfetch"]), &src, &opts).unwrap();
    assert!(plan.installs.is_empty());
    assert_eq!(build_names(&plan), vec!["hyfetch"]);
    assert_eq!(plan.builds[0].info.version, "2.1.0");
}

#[test]
fn t010_sin_binarios_gana_mayor_version() {
    let src = Mock {
        vur_multi: vec![(
            "app",
            vec![
                ("repo-b", vur_info_ver("app", "1.9.0", &["x86_64"])),
                ("repo-a", vur_info_ver("app", "1.10.0", &["x86_64"])),
            ],
        )],
        priorities: vec![("repo-a", 50), ("repo-b", 10)],
        ..Mock::default()
    }
    .source();
    let opts = opts_con_orden(true, false, CandidateOrder::PreferBinary);
    let plan = resolve(&targets(&["app"]), &src, &opts).unwrap();
    assert_eq!(build_names(&plan), vec!["app"]);
    assert_eq!(plan.builds[0].info.version, "1.10.0");
}

#[test]
fn t010_empate_version_gana_prioridad_repo() {
    let src = Mock {
        vur_multi: vec![(
            "app",
            vec![
                ("repo-b", vur_info_ver("app", "1.0", &["x86_64"])),
                ("repo-a", vur_info_ver("app", "1.0", &["x86_64"])),
            ],
        )],
        binaries: vec![("repo-a", "app"), ("repo-b", "app")],
        priorities: vec![("repo-a", 10), ("repo-b", 50)],
        ..Mock::default()
    }
    .source();
    let opts = opts_con_orden(true, false, CandidateOrder::PreferBinary);
    let plan = resolve(&targets(&["app"]), &src, &opts).unwrap();
    assert_eq!(plan.installs.len(), 1);
    assert_eq!(
        plan.installs[0].action,
        Action::Install(BinarySource::VulBinary {
            repo: "repo-a".to_string()
        })
    );
}

#[test]
fn t010_cmp_pkgver_compara_tokens_numericos() {
    assert_eq!(cmp_pkgver("2.1.0", 1, "2.0.5", 1), Ordering::Greater);
    assert_eq!(cmp_pkgver("1.10.0", 1, "1.9.0", 1), Ordering::Greater);
    assert_eq!(cmp_pkgver("1.0", 2, "1.0", 1), Ordering::Greater);
    assert_eq!(cmp_pkgver("1.0", 1, "1.0", 1), Ordering::Equal);
    assert_eq!(cmp_pkgver("1.0", 1, "1.0.1", 1), Ordering::Less);
}

#[test]
fn not_found_names_the_package() {
    let src = Mock::default().source();
    let err = resolve(&targets(&["ghost"]), &src, &ResolveOptions::default()).unwrap_err();
    assert_eq!(
        err.message(),
        "paquete no encontrado en repos oficiales ni VURs: ghost"
    );
}

#[test]
fn dep_name_cuts_constraints() {
    assert_eq!(vary::resolver::dep_name("pkg>=1.2"), "pkg");
    assert_eq!(vary::resolver::dep_name("pkg <2"), "pkg");
    assert_eq!(vary::resolver::dep_name("pkg"), "pkg");
    assert_eq!(vary::resolver::dep_name("virt=3"), "virt");
}

#[test]
fn error_messages_name_the_package() {
    let e = ResolveError::WrongArch { name: "gpukit".to_string(), repo: "vur-arm".to_string(), arch: "x86_64".to_string() };
    assert_eq!(
        e.message(),
        "el paquete 'gpukit' existe en VUR(s) vur-arm pero no está disponible para tu arquitectura 'x86_64'"
    );
    let c = ResolveError::Cycle { path: strs(&["x", "y", "z", "x"]) };
    assert_eq!(c.message(), "ciclo de dependencias detectado: x -> y -> z -> x");
    assert_eq!(ResolveError::NotFound { name: "q".to_string() }.message(), "paquete no encontrado en repos oficiales ni VURs: q");
}

#[test]
fn installed_builds_are_skipped_unless_forced() {
    let item = |n: &str, v: &str| PlanItem { name: n.to_string(), info: vur_info_ver(n, v, &["x86_64"]), action: Action::Build };
    let builds = vec![item("a", "1.0"), item("b", "2.0"), item("c", "3.0")];
    let installed = vec![Some("a-1.0_1".to_string()), Some("b-1.9_1".to_string()), None];
    assert_eq!(builds_to_run(&builds, &installed, false), vec![1, 2]);
    assert_eq!(builds_to_run(&builds, &installed, true), vec![0, 1, 2]);

    let mut lib = item("libfoo", "1.0");
    lib.name = "foo-virtual".to_string();
    lib.info.subpackages = vec![Subpackage { pkgname: "libfoo-devel".to_string(), depends: Vec::new(), short_desc: None }];
    assert!(is_explicit_build(&strs(&["libfoo"]), &lib));
    assert!(is_explicit_build(&strs(&["x", "foo-virtual"]), &lib));
    assert!(is_explicit_build(&strs(&["libfoo-devel"]), &lib));
    assert!(!is_explicit_build(&strs(&["bar"]), &lib));
    assert!(!is_explicit_build(&Vec::new(), &lib));
}

#[test]
fn install_names_take_real_names_then_builds() {
    let mut off = PlanItem { name: "virt".to_string(), info: vur_info("real-off", &["x86_64"]), action: Action::Install(BinarySource::Official) };
    off.name = "virt".to_string();
    let bin = PlanItem {
        name: "b".to_string(),
        info: vur_info("b", &["x86_64"]),
        action: Action::Install(BinarySource::VulBinary { repo: "r".to_string() }),
    };
    let built = PlanItem { name: "c".to_string(), info: vur_info("c", &["x86_64"]), action: Action::Build };
    assert_eq!(install_names(&vec![off, built, bin], &strs(&["c"])), strs(&["real-off", "b", "c"]));
    assert_eq!(install_extra_flags(true, "/m/hostdir/binpkgs", true), strs(&["--repository=/m/hostdir/binpkgs", "-y"]));
    assert_eq!(install_extra_flags(false, "/x", false), Vec::<String>::new());
}

#[test]
fn vup_urls_are_grouped_per_repo_once_each() {
    let bin = |n: &str, r: &str| PlanItem {
        name: n.to_string(),
        info: vur_info(n, &["x86_64"]),
        action: Action::Install(BinarySource::VulBinary { repo: r.to_string() }),
    };
    let table = vec![
        ("r1:a".to_string(), "https://r1/main".to_string()),
        ("r1:b".to_string(), "https://r1/main".to_string()),
        ("r1:c".to_string(), "https://r1/nonfree".to_string()),
        ("r2:d".to_string(), "https://r2/main".to_string()),
    ];
    let installs = vec![
        bin("a", "r1"),
        bin("d", "r2"),
        bin("b", "r1"),
        PlanItem { name: "o".to_string(), info: vur_info("o", &["x86_64"]), action: Action::Install(BinarySource::Official) },
        bin("c", "r1"),
        bin("zz", "r3"),
    ];
    let groups = vup_urls_by_repo(&table, &installs);
    assert_eq!(
        groups,
        vec![
            ("r1".to_string(), strs(&["https://r1/main", "https://r1/nonfree"])),
            ("r2".to_string(), strs(&["https://r2/main"])),
        ]
    );
}

fn install_state(installs: Vec<PlanItem>) -> InstallState {
    InstallState {
        jobs: vec![
            BuildJob { parent_pkg: "a".to_string(), explicit: true, subs: strs(&["a-devel", "a"]) },
            BuildJob { parent_pkg: "b".to_string(), explicit: false, subs: Vec::new() },
        ],
        levels: vec![vec![0], vec![1]],
        next_level: 0,
        built: Vec::new(),
        installs,
        binpkgs_root: "/m/hostdir/binpkgs".to_string(),
        no_confirm: true,
        install_list: Vec::new(),
    }
}

#[test]
fn install_builds_levels_in_turn_then_installs_everything() {
    let off = PlanItem { name: "o".to_string(), info: vur_info("o", &["x86_64"]), action: Action::Install(BinarySource::Official) };
    let (s, a) = install_step(install_state(vec![off]), InstallEvent::Start);
    assert!(matches!(a, InstallAction::BuildLevel(ref l) if *l == vec![0]));
    let (s, a) = install_step(s, InstallEvent::LevelBuilt { results: vec![Ok(())], parallel: false });
    assert!(matches!(a, InstallAction::BuildLevel(ref l) if *l == vec![1]));
    assert_eq!(s.built, strs(&["a", "a-devel"]));
    let (s, a) = install_step(s, InstallEvent::LevelBuilt { results: vec![Ok(())], parallel: true });
    match a {
        InstallAction::Install { names, flags } => {
            assert_eq!(names, strs(&["o", "a", "a-devel", "b"]));
            assert_eq!(flags, strs(&["--repository=/m/hostdir/binpkgs", "-y"]));
        }
        _ => panic!("expected the install"),
    }
    let (s, a) = install_step(s, InstallEvent::Installed(0));
    assert!(matches!(a, InstallAction::Record(ref n) if *n == strs(&["o", "a", "a-devel", "b"])));
    let (s, a) = install_step(s, InstallEvent::Recorded);
    assert!(matches!(a, InstallAction::Finish(0)));
    let (_, a) = install_step(s, InstallEvent::Installed(3));
    assert!(matches!(a, InstallAction::Finish(3)));
}

#[test]
fn install_stops_at_the_first_failed_build() {
    let (s, _) = install_step(install_state(Vec::new()), InstallEvent::Start);
    let (_, a) = install_step(s, InstallEvent::LevelBuilt { results: vec![Err("boom".to_string())], parallel: true });
    assert!(matches!(a, InstallAction::Fail(ref m) if m == "building a: boom"));
    let (s, _) = install_step(install_state(Vec::new()), InstallEvent::Start);
    let (_, a) = install_step(s, InstallEvent::LevelBuilt { results: Vec::new(), parallel: true });
    assert!(matches!(a, InstallAction::Fail(ref m) if m == "sin resultado del worker para a"));
    let (s, _) = install_step(install_state(Vec::new()), InstallEvent::Start);
    let (_, a) = install_step(s, InstallEvent::LevelBuilt { results: vec![Err("x falló".to_string())], parallel: false });
    assert!(matches!(a, InstallAction::Fail(ref m) if m == "x falló"));
    // nothing built and nothing to install: straight to recording
    let mut s0 = install_state(Vec::new());
    s0.levels = Vec::new();
    s0.no_confirm = false;
    let (_, a) = install_step(s0, InstallEvent::Start);
    assert!(matches!(a, InstallAction::Record(ref n) if n.is_empty()));
}
