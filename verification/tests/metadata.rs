use vary::metadata::{check_entries, Subpackage, ValidationError, VurInfo};

fn s(v: &str) -> String {
    v.to_string()
}

fn strs(v: &[&str]) -> Vec<String> {
    v.iter().map(|x| x.to_string()).collect()
}

fn canonical() -> VurInfo {
    VurInfo {
        format_version: 1,
        pkgname: s("foo"),
        version: s("1.2.3"),
        revision: 2,
        archs: strs(&["x86_64", "aarch64"]),
        subpackages: vec![Subpackage {
            pkgname: s("foo-devel"),
            depends: strs(&["foo>=1.2.3"]),
            short_desc: Some(s("Development files for foo")),
        }],
        depends: strs(&["libbar>=2.0"]),
        hostmakedepends: strs(&["pkg-config", "ninja"]),
        makedepends: strs(&["libbar-devel"]),
        checkdepends: vec![],
        build_style: Some(s("cmake")),
        distfiles: strs(&["https://example.com/foo-1.2.3.tar.gz"]),
        checksum: strs(&["sha256:abc123"]),
        provides: strs(&["libfoo.so.1"]),
        replaces: strs(&["old-foo"]),
        restricted: false,
        maintainer: Some(s("name <email>")),
    }
}

fn base(pkgname: &str, version: &str, revision: u32, archs: &[&str]) -> VurInfo {
    VurInfo {
        format_version: 1,
        pkgname: s(pkgname),
        version: s(version),
        revision,
        archs: strs(archs),
        subpackages: vec![],
        depends: vec![],
        hostmakedepends: vec![],
        makedepends: vec![],
        checkdepends: vec![],
        build_style: None,
        distfiles: vec![],
        checksum: strs(&["sha256:abc123"]),
        provides: vec![],
        replaces: vec![],
        restricted: false,
        maintainer: None,
    }
}

fn err_of(v: &VurInfo) -> String {
    v.validation_report().expect("debe fallar")
}

#[test]
fn validate_ok_on_canonical() {
    let v = canonical();
    assert!(v.validate().is_ok());
    assert!(v.validation_report().is_none());
    assert_eq!(v.pkgver(), "foo-1.2.3_2");
}

#[test]
fn rejects_unsupported_format_version() {
    let mut v = canonical();
    v.format_version = 2;
    let err = err_of(&v);
    assert!(err.contains("format_version no soportado: 2 (soportado: 1)"), "error inesperado: {err}");
}

#[test]
fn rejects_version_with_hyphen() {
    let err = err_of(&base("foo", "1.2-3", 1, &["x86_64"]));
    assert!(err.contains("guiones"), "error inesperado: {err}");
}

#[test]
fn rejects_empty_version() {
    let err = err_of(&base("foo", "", 1, &["x86_64"]));
    assert!(err.contains("version vacía"), "error inesperado: {err}");
}

#[test]
fn rejects_zero_revision() {
    let err = err_of(&base("foo", "1.2.3", 0, &["x86_64"]));
    assert!(err.contains("revision inválida: 0"), "error inesperado: {err}");
}

#[test]
fn rejects_checksum_without_sha256_prefix() {
    let mut v = base("foo", "1.2.3", 1, &["x86_64"]);
    v.checksum = strs(&["abcdef"]);
    let err = err_of(&v);
    assert!(err.contains("checksum[0]") && err.contains("sha256:"), "error inesperado: {err}");
}

#[test]
fn rejects_checksum_elemento_vacio() {
    let mut v = base("foo", "1.2.3", 1, &["x86_64"]);
    v.checksum = strs(&["sha256:x", ""]);
    let err = err_of(&v);
    assert!(err.contains("checksum[1]"), "error inesperado: {err}");
    assert!(matches!(v.validate(), Err(ValidationError::Checksum(1))));
}

#[test]
fn allows_empty_checksum_for_custom_fetch() {
    let mut v = base("foo", "1.2.3", 1, &["x86_64"]);
    v.checksum = vec![];
    assert!(v.checksum.is_empty());
    assert!(v.validate().is_ok());
}

#[test]
fn rejects_empty_archs() {
    let err = err_of(&base("foo", "1.2.3", 1, &[]));
    assert!(err.contains("archs vacío"), "error inesperado: {err}");
}

#[test]
fn rejects_invalid_pkgname() {
    for bad in ["-foo", ".foo", "_foo", "+foo", "fo o", "foo$", "foo/bar", "foo;bar", ""] {
        let err = err_of(&base(bad, "1.2.3", 1, &["x86_64"]));
        assert!(
            err.contains("pkgname inválido") || err.contains("pkgname vacío"),
            "error inesperado para '{bad}': {err}"
        );
    }
}

fn with_sub(sub: Subpackage) -> VurInfo {
    let mut v = base("foo", "1.0", 1, &["x86_64"]);
    v.checksum = strs(&["sha256:aa"]);
    v.subpackages = vec![sub];
    v
}

fn sub(name: &str, depends: &[&str]) -> Subpackage {
    Subpackage { pkgname: s(name), depends: strs(depends), short_desc: None }
}

#[test]
fn rejects_invalid_subpackage_name() {
    for bad in ["-sub", ".sub", "_sub", "+sub", "sub space", "sub$"] {
        let err = err_of(&with_sub(sub(bad, &[])));
        assert!(
            err.contains("subpackages[0].pkgname inválido"),
            "error inesperado para subpaquete '{bad}': {err}"
        );
    }
}

#[test]
fn rejects_subpackage_named_as_parent() {
    let err = err_of(&with_sub(sub("foo", &[])));
    assert!(err.contains("coincide con el pkgname del padre"), "error inesperado: {err}");
}

#[test]
fn rejects_empty_subpackage_name() {
    let err = err_of(&with_sub(sub("", &[])));
    assert!(err.contains("subpackages[0].pkgname vacío"), "error inesperado: {err}");
}

#[test]
fn rejects_blank_subpackage_dependency() {
    for bad_dep in ["", "   "] {
        let err = err_of(&with_sub(sub("foo-devel", &[bad_dep])));
        assert!(err.contains("subpackages[0].depends[0]"), "error inesperado: {err}");
    }
}

#[test]
fn parse_many_reports_index_and_pkgname_on_invalid_entry() {
    let good = base("ok", "1.0", 1, &["x86_64"]);
    let bad = base("bad", "1.0", 0, &["x86_64"]);
    match check_entries(vec![good, bad]) {
        Err((idx, e)) => {
            assert_eq!(idx, 1);
            assert!(matches!(e, ValidationError::Revision(0)));
        }
        Ok(_) => panic!("debe fallar"),
    }
}

#[test]
fn check_entries_keeps_valid_entries_in_order() {
    let a = base("foo", "1.0", 1, &["x86_64"]);
    let b = base("baz", "2.0", 3, &["aarch64"]);
    let out = check_entries(vec![a, b]).unwrap();
    assert_eq!(out.len(), 2);
    assert_eq!(out[0].pkgname, "foo");
    assert_eq!(out[1].pkgver(), "baz-2.0_3");
}
