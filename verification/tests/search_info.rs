use vary::info::{answers_for_target, info_lines, official_info_lines};
use vary::metadata::{Subpackage, VurInfo};
use vary::search::{matches_words, search_rows, search_words, Rank};
use vary::xbps::PkgInfo;

fn info(pkgname: &str, subs: &[(&str, Option<&str>)]) -> VurInfo {
    VurInfo {
        format_version: 1,
        pkgname: pkgname.to_string(),
        version: "1.0".to_string(),
        revision: 1,
        archs: vec!["x86_64".to_string(), "aarch64".to_string()],
        subpackages: subs
            .iter()
            .map(|(n, d)| Subpackage { pkgname: n.to_string(), depends: Vec::new(), short_desc: d.map(|x| x.to_string()) })
            .collect(),
        depends: vec!["glibc".to_string(), "zlib>=1.2".to_string()],
        hostmakedepends: Vec::new(),
        makedepends: Vec::new(),
        checkdepends: Vec::new(),
        build_style: Some("gnu-configure".to_string()),
        distfiles: Vec::new(),
        checksum: Vec::new(),
        provides: Vec::new(),
        replaces: Vec::new(),
        restricted: false,
        maintainer: None,
    }
}

fn hit(name: &str, desc: &str, repo: Option<&str>) -> PkgInfo {
    PkgInfo {
        name: name.to_string(),
        pkgver: format!("{name}-2.0_1"),
        short_desc: Some(desc.to_string()),
        repository: repo.map(|r| r.to_string()),
        installed: false,
    }
}

#[test]
fn search_words_are_lowercased() {
    assert_eq!(search_words("  Foo BAR "), vec!["foo".to_string(), "bar".to_string()]);
    let words = search_words("tool lib");
    assert!(matches_words(&words, "libTool", ""));
    assert!(matches_words(&words, "x", "A Tool with a LIB"));
    assert!(!matches_words(&words, "tool", "none"));
    assert!(!matches_words(&Vec::new(), "tool", "tool"));
}

#[test]
fn search_rows_rank_official_first_and_sort_by_name() {
    assert_eq!(search_rows(&Vec::new(), &Vec::new(), &Vec::new()).unwrap_err(), "no search pattern specified");
    let official = vec![
        hit("foo", "official foo", Some("https://repo-default.voidlinux.org/current")),
        hit("foo-local", "built here", Some("/home/u/void-packages/hostdir/binpkgs")),
        hit("bar-foo", "x", None),
    ];
    let repos = vec![
        ("alpha".to_string(), true, vec![info("foo", &[("foo-doc", Some("docs of foo"))])]),
        ("beta".to_string(), false, vec![info("zfoo", &[])]),
    ];
    let rows = search_rows(&vec!["foo".to_string()], &official, &repos).unwrap();
    let names: Vec<&str> = rows.iter().map(|(n, _)| n.as_str()).collect();
    assert_eq!(names, vec!["bar-foo", "foo", "foo-doc", "zfoo"]);
    let foo = &rows[1].1;
    assert_eq!(foo.rank, Rank::Official);
    assert_eq!(foo.repo, "https://repo-default.voidlinux.org/current");
    assert_eq!(rows[0].1.repo, "official");
    assert_eq!(rows[2].1.repo, "vur:alpha");
    assert_eq!(rows[2].1.desc, "docs of foo");
    assert_eq!(rows[3].1.rank, Rank::Source);
    assert_eq!(rows[3].1.repo, "vur-source:beta");
    assert_eq!(rows[3].1.desc, "1.0 gnu-configure");
    assert_eq!(rows[3].1.pkgver, "zfoo-1.0_1");
}

#[test]
fn search_binary_beats_source() {
    let repos = vec![
        ("src".to_string(), false, vec![info("pkg", &[])]),
        ("bin".to_string(), true, vec![info("pkg", &[])]),
    ];
    let rows = search_rows(&vec!["pkg".to_string()], &Vec::new(), &repos).unwrap();
    assert_eq!(rows.len(), 1);
    assert_eq!(rows[0].1.repo, "vur:bin");
}

#[test]
fn info_lines_show_the_package() {
    let i = info("foo", &[("foo-devel", None)]);
    assert!(answers_for_target(&i, "foo-devel"));
    assert!(!answers_for_target(&i, "bar"));
    let lines = info_lines("myrepo", false, &i, "foo-devel");
    assert_eq!(
        lines,
        vec![
            "Repository      : vur:myrepo",
            "Package         : foo",
            "Subpackage      : foo-devel",
            "Version         : 1.0",
            "Revision        : 1",
            "Pkgver          : foo-1.0_1",
            "Archs           : x86_64, aarch64",
            "Build style     : gnu-configure",
            "Depends         : glibc zlib>=1.2",
            "Subpackages     : foo-devel",
            "Restricted      : false",
            "Binary avail    : no (source only)",
            "",
        ]
    );
    assert_eq!(
        official_info_lines("bash", "  bash-5.2_1\n"),
        vec!["Repository      : official", "Package         : bash", "Info            : bash-5.2_1", ""]
    );
}
