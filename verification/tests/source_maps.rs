use vary::config::Config;
use vary::metadata::{Subpackage, VurInfo};
use vary::reposconf::RepoEntry;
use vary::resolver::{CandidateOrder, PackageSource};
use vary::source_maps::{assemble_source, load_source_maps, vup_index_url, RepoIndex};
use vary::vup_index::{VupIndex, VupPackage};

fn info(pkgname: &str, archs: &[&str]) -> VurInfo {
    VurInfo {
        format_version: 1,
        pkgname: pkgname.to_string(),
        version: "1.0".to_string(),
        revision: 1,
        archs: archs.iter().map(|s| s.to_string()).collect(),
        subpackages: Vec::new(),
        depends: Vec::new(),
        hostmakedepends: Vec::new(),
        makedepends: Vec::new(),
        checkdepends: Vec::new(),
        build_style: None,
        distfiles: Vec::new(),
        checksum: Vec::new(),
        provides: Vec::new(),
        replaces: Vec::new(),
        restricted: false,
        maintainer: None,
    }
}

fn entry(priority: Option<i64>, binary: Option<&str>, index: Option<&str>) -> RepoEntry {
    RepoEntry {
        url: "https://example.org/r.git".to_string(),
        branch: None,
        priority,
        key_fingerprint: None,
        binary_repo_url: binary.map(|s| s.to_string()),
        index_url: index.map(|s| s.to_string()),
        enabled: None,
    }
}

fn repos() -> Vec<RepoIndex> {
    let mut foo = info("foo", &["x86_64"]);
    foo.subpackages.push(Subpackage { pkgname: "foo-devel".to_string(), depends: Vec::new(), short_desc: None });
    foo.provides.push("bar>=1".to_string());
    let first = RepoIndex {
        name: "alpha".to_string(),
        entry: entry(Some(10), Some("https://bin.example.org"), None),
        infos: vec![foo],
        vup: None,
    };
    let mut other = info("foo", &["noarch"]);
    other.version = "2.0".to_string();
    let mut qux = info("qux", &["aarch64"]);
    qux.provides.push("bar".to_string());
    let vup = VupIndex {
        packages: vec![
            (
                "baz".to_string(),
                VupPackage {
                    category: "utils".to_string(),
                    version: "0.5.0_3".to_string(),
                    archs: vec!["x86_64".to_string()],
                    repo_urls: vec![("x86_64".to_string(), " https://vup.example.org/x86_64 ".to_string())],
                },
            ),
            (
                "armonly".to_string(),
                VupPackage {
                    category: "utils".to_string(),
                    version: "1.0_1".to_string(),
                    archs: vec!["aarch64".to_string()],
                    repo_urls: vec![("aarch64".to_string(), "https://vup.example.org/aarch64".to_string())],
                },
            ),
        ],
    };
    let second = RepoIndex {
        name: "beta".to_string(),
        entry: entry(None, None, Some("https://vup.example.org/index.json")),
        infos: vec![other, qux],
        vup: Some(vup),
    };
    vec![first, second]
}

#[test]
fn load_source_maps_merges_in_priority_order() {
    let maps = load_source_maps(&repos(), "x86_64");
    let names: Vec<(&str, &str)> = maps.vur_map.iter().map(|(n, (r, _))| (n.as_str(), r.as_str())).collect();
    assert_eq!(
        names,
        vec![("foo", "alpha"), ("foo-devel", "alpha"), ("foo", "beta"), ("qux", "beta"), ("baz", "beta")]
    );
    let foo_all = maps.vur_all.iter().find(|(n, _)| n == "foo").unwrap();
    assert_eq!(foo_all.1.len(), 2);
    assert_eq!(foo_all.1[1].1.version, "2.0");
    let bar = maps.provides_map.iter().find(|(n, _)| n == "bar").unwrap();
    let providers: Vec<&str> = bar.1.iter().map(|(r, _)| r.as_str()).collect();
    assert_eq!(providers, vec!["alpha", "beta"]);
    assert_eq!(
        maps.binary_check,
        vec![
            ("alpha:foo".to_string(), true),
            ("alpha:foo-devel".to_string(), true),
            ("beta:foo".to_string(), false),
            ("beta:qux".to_string(), false),
            ("beta:baz".to_string(), true),
        ]
    );
    assert_eq!(maps.priority_map, vec![("alpha".to_string(), 10), ("beta".to_string(), 100)]);
    assert_eq!(maps.vup_binary_urls, vec![("beta:baz".to_string(), "https://vup.example.org/x86_64".to_string())]);
}

#[test]
fn assembled_source_answers_the_resolver() {
    let maps = load_source_maps(&repos(), "x86_64");
    let config = Config::in_memory_defaults();
    let (source, opts) = assemble_source(maps, "x86_64", vec!["glibc".to_string()], &config, CandidateOrder::Legacy);
    assert!(source.official_exists("glibc"));
    assert!(!source.official_exists("foo"));
    let (repo, found) = source.vur_lookup("foo").unwrap();
    assert_eq!(repo, "alpha");
    assert_eq!(found.version, "1.0");
    assert_eq!(source.vur_lookup_all("foo").len(), 2);
    assert!(source.vur_lookup("qux").is_none());
    assert!(source.vur_lookup_any_arch("qux").is_some());
    let (prov_repo, prov) = source.vur_lookup_provides("bar").unwrap();
    assert_eq!((prov_repo.as_str(), prov.pkgname.as_str()), ("alpha", "foo"));
    let (baz_repo, baz) = source.vur_lookup("baz").unwrap();
    assert_eq!(baz_repo, "beta");
    assert_eq!((baz.version.as_str(), baz.revision), ("0.5.0", 3));
    assert!(source.vul_binary_available("beta", &baz, "x86_64"));
    assert_eq!(source.repo_priority("alpha"), 10);
    assert_eq!(source.repo_priority("beta"), 100);
    assert_eq!(opts.prefer_binary, config.prefer_binary && !config.force_rebuild);
}

#[test]
fn force_rebuild_orders_sources_first() {
    let mut config = Config::in_memory_defaults();
    config.force_rebuild = true;
    config.prefer_binary = true;
    let maps = load_source_maps(&Vec::new(), "x86_64");
    let (_, opts) = assemble_source(maps, "x86_64", Vec::new(), &config, CandidateOrder::PreferBinary);
    assert!(!opts.prefer_binary);
    assert!(opts.force_build);
    assert!(matches!(opts.order, CandidateOrder::PreferSource));
}

#[test]
fn vup_index_url_is_trimmed_and_needs_a_value() {
    assert_eq!(
        vup_index_url(&entry(None, None, Some("  https://x.example.org/index.json "))),
        Some("https://x.example.org/index.json".to_string())
    );
    assert_eq!(vup_index_url(&entry(None, None, Some("   "))), None);
    assert_eq!(vup_index_url(&entry(None, None, None)), None);
}
