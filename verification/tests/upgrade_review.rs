use vary::config::Config;
use vary::metadata::{Subpackage, VurInfo};
use vary::review::{pager_cmd, template_paths};
use vary::upgrade::{
    prune_keep,
    current_pkgvers, outdated_packages, review_template_diffs, saved_template, template_diff_text, template_parent,
    TemplateDiff,
};
use vary::util::{ask, confirm};

fn info(pkgname: &str, version: &str, revision: u32, subs: &[&str]) -> VurInfo {
    VurInfo {
        format_version: 1,
        pkgname: pkgname.to_string(),
        version: version.to_string(),
        revision,
        archs: vec!["noarch".to_string()],
        subpackages: subs
            .iter()
            .map(|s| Subpackage { pkgname: s.to_string(), depends: Vec::new(), short_desc: None })
            .collect(),
        depends: Vec::new(),
        hostmakedepends: Vec::new(),
        makedepends: Vec::new(),
        checkdepends: Vec::new(),
        build_style: None,
        distfiles: Vec::new(),
        checksum: Vec::new(),
        provides: Vec::new(),
        replaces: Vec::new(),
        restricted: false,
        maintainer: None,
    }
}

fn un_diff() -> Vec<TemplateDiff> {
    vec![TemplateDiff {
        pkg: "foo".to_string(),
        repo: "mi-repo".to_string(),
        patch: "--- viejo\n+++ nuevo\n".to_string(),
    }]
}

#[test]
fn diff_identico_da_none_cambio_da_patch() {
    assert!(template_diff_text("a\n", "a\n").is_none());
    let patch = template_diff_text("pkgver=1\n", "pkgver=2\n").expect("patch");
    assert!(patch.contains("-pkgver=1"), "línea quitada: {patch}");
    assert!(patch.contains("+pkgver=2"), "línea puesta: {patch}");
}

#[test]
fn template_diff_has_the_diffy_header() {
    let patch = template_diff_text("a\nb\n", "a\nc\n").expect("patch");
    assert!(patch.starts_with("--- original\n+++ modified\n"));
}

#[test]
fn review_no_tty_sin_yes_aborta() {
    let config = Config::in_memory_defaults();
    assert!(!config.no_confirm);
    assert!(review_template_diffs(&config, &un_diff(), false, &Vec::new()).is_err());
}

#[test]
fn review_no_tty_con_yes_aprueba() {
    let mut config = Config::in_memory_defaults();
    config.no_confirm = true;
    assert_eq!(review_template_diffs(&config, &un_diff(), false, &Vec::new()).unwrap(), vec!["foo".to_string()]);
}

#[test]
fn review_on_a_terminal_follows_the_answers() {
    let config = Config::in_memory_defaults();
    let mut diffs = un_diff();
    diffs.push(TemplateDiff { pkg: "bar".to_string(), repo: "r".to_string(), patch: String::new() });
    diffs.push(TemplateDiff { pkg: "baz".to_string(), repo: "r".to_string(), patch: String::new() });
    let approved = review_template_diffs(&config, &diffs, true, &vec![false, true]).unwrap();
    assert_eq!(approved, vec!["bar".to_string()]);
    assert_eq!(review_template_diffs(&config, &Vec::new(), false, &Vec::new()).unwrap(), Vec::<String>::new());
}

#[test]
fn current_pkgvers_lists_packages_and_subpackages_first_wins() {
    let infos = vec![info("foo", "1.2", 3, &["foo-devel"]), info("foo", "9.9", 1, &[])];
    let cur = current_pkgvers(&infos);
    assert_eq!(
        cur,
        vec![
            ("foo".to_string(), "foo-1.2_3".to_string()),
            ("foo-devel".to_string(), "foo-1.2_3".to_string()),
            ("foo".to_string(), "foo-9.9_1".to_string()),
        ]
    );
    let installed = vec![
        ("foo".to_string(), "foo-1.1_1".to_string()),
        ("foo-devel".to_string(), "foo-1.2_3".to_string()),
        ("other".to_string(), "other-1_1".to_string()),
    ];
    let out = outdated_packages(&installed, &cur);
    assert_eq!(out, vec![("foo".to_string(), "foo-1.1_1".to_string(), "foo-1.2_3".to_string())]);
}

#[test]
fn template_parent_is_the_package_that_installs_the_name() {
    let infos = vec![info("foo", "1", 1, &["libfoo"]), info("bar", "1", 1, &[])];
    assert_eq!(template_parent(&infos, "libfoo"), "foo");
    assert_eq!(template_parent(&infos, "bar"), "bar");
    assert_eq!(template_parent(&infos, "missing"), "missing");
    let saved = vec![
        ("r1".to_string(), "bar".to_string(), "old bar".to_string()),
        ("r2".to_string(), "foo".to_string(), "old foo".to_string()),
        ("r3".to_string(), "foo".to_string(), "other".to_string()),
    ];
    assert_eq!(saved_template(&saved, "foo"), Some(("r2".to_string(), "old foo".to_string())));
    assert_eq!(saved_template(&saved, "baz"), None);
}

#[test]
fn pager_cmd_respeta_pager_y_defecto_bat() {
    assert_eq!(pager_cmd(Some("less -R")), ("less".to_string(), vec!["-R".to_string()]));
    let (bin, args) = pager_cmd(None);
    assert_eq!(bin, "bat");
    assert!(args.contains(&"--paging=always".to_string()));
    let (bin2, _) = pager_cmd(Some("   "));
    assert_eq!(bin2, "bat");
}

#[test]
fn template_paths_try_layouts_then_top_level() {
    assert_eq!(
        template_paths("foo"),
        vec!["srcpkgs/foo/template".to_string(), "pkgs/foo/template".to_string(), "foo/template".to_string()]
    );
}

#[test]
fn confirm_respeta_no_confirm() {
    assert!(confirm(true, None).unwrap());
    assert!(!confirm(false, None).unwrap());
    assert!(confirm(false, Some("\n")).unwrap());
}

#[test]
fn ask_uses_default_under_noconfirm() {
    assert!(ask(true, true, None));
    assert!(!ask(true, false, Some("yes")));
    assert!(ask(false, false, Some("y")));
}

#[test]
fn prune_keeps_manual_and_unanswered_packages() {
    let names = vec!["a".to_string(), "b".to_string(), "c".to_string(), "d".to_string()];
    let manual = vec!["a".to_string()];
    let queried = vec![Some(false), Some(false), Some(true), None];
    assert_eq!(prune_keep(&names, &manual, &queried), vec!["a".to_string(), "c".to_string(), "d".to_string()]);
}
