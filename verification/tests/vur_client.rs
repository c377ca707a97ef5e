use vary::vur_client::{finish_index, index_from_templates, pkg_file, projection_plan, DestKind, Projection};
use vary::vur_client::{
    decode_pem_body, is_safe_git_url, parse_template_text, skipped_index_warning, PemError,
    TemplateError,
};

#[test]
fn decode_pem_body_rejects_input_without_body() {
    assert!(decode_pem_body("sin marcadores pem").is_err());
}

#[test]
fn pem_body_decodes_between_markers() {
    let pem = "-----BEGIN PUBLIC KEY-----\naGVsbG8g\n  d29ybGQ=  \n-----END PUBLIC KEY-----\nZm9v\n";
    assert_eq!(decode_pem_body(pem).unwrap(), b"hello world".to_vec());
    let bad = "-----BEGIN PUBLIC KEY-----\n!!!!\n-----END PUBLIC KEY-----\n";
    assert!(matches!(decode_pem_body(bad), Err(PemError::InvalidBase64)));
    assert!(matches!(decode_pem_body(""), Err(PemError::NoBody)));
    assert_eq!(PemError::NoBody.message(), "el PEM no contiene cuerpo base64");
}

#[test]
fn parse_template_handles_multiline_and_quotes() {
    let content = r#"
# Template de prueba
pkgname=multiline-pkg
version=1.2.3
revision=2
archs="x86_64 aarch64"
distfiles="
    https://example.org/tar1.tar.gz
    https://example.org/tar2.tar.gz
"
makedepends="
    rust
    cargo
    pkg-config
"
depends='
    libssl
    glibc
'
maintainer="Maintainer Name <user@example.org> # not a comment" # comentario real con ' quote
"#;
    let info = parse_template_text(content, "test:template").unwrap();
    assert_eq!(info.pkgname, "multiline-pkg");
    assert_eq!(info.version, "1.2.3");
    assert_eq!(info.revision, 2);
    assert_eq!(info.archs, vec!["x86_64", "aarch64"]);
    assert_eq!(
        info.distfiles,
        vec![
            "https://example.org/tar1.tar.gz",
            "https://example.org/tar2.tar.gz"
        ]
    );
    assert_eq!(info.makedepends, vec!["rust", "cargo", "pkg-config"]);
    assert_eq!(info.depends, vec!["libssl", "glibc"]);
    assert_eq!(
        info.maintainer.as_deref(),
        Some("Maintainer Name <user@example.org> # not a comment")
    );
}

#[test]
fn parse_template_unclosed_quote_at_eof_does_not_hang() {
    let content = "pkgname=broken\nversion=0.1.0\nrevision=1\nshort_desc=\"unclosed quote at eof";
    let info = parse_template_text(content, "test:template").unwrap();
    assert_eq!(info.pkgname, "broken");
    assert_eq!(info.version, "0.1.0");
}

#[test]
fn is_safe_git_url_validates_and_rejects_dangerous_transports() {
    assert!(is_safe_git_url(
        "https://github.com/void-linux/void-packages.git"
    ));
    assert!(is_safe_git_url("http://git.example.org/repo.git"));
    assert!(is_safe_git_url("git://example.org/repo.git"));
    assert!(is_safe_git_url("ssh://git@example.org/repo.git"));
    assert!(is_safe_git_url("git@github.com:user/repo.git"));
    assert!(is_safe_git_url("file:///local/repo.git"));

    assert!(!is_safe_git_url("--upload-pack=touch /tmp/pwn"));
    assert!(!is_safe_git_url("-u"));
    assert!(!is_safe_git_url("ext::sh -c evil%G"));
    assert!(!is_safe_git_url(
        "https://example.org/repo.git\n--upload-pack=evil"
    ));
    assert!(!is_safe_git_url(""));
    assert!(!is_safe_git_url("   "));
}

#[test]
fn parse_template_extracts_subpackages_and_preserves_parent_vars() {
    let content = r#"
# Template con subpaquetes
pkgname=myproject
version=2.5.0
revision=3
archs="x86_64 aarch64"
short_desc="My awesome parent project"
depends="glibc openssl"
checksum="SKIP"

do_build() {
    cargo build --release
}

myproject-devel_package() {
    short_desc="My awesome development files"
    depends="${sourcepkg}>=${version}_${revision} headers"
}

myproject-doc_package() {
    short_desc="My awesome documentation"
}
"#;
    let info = parse_template_text(content, "test:subpkgs").unwrap();
    assert_eq!(info.pkgname, "myproject");
    assert_eq!(info.version, "2.5.0");
    assert_eq!(info.revision, 3);
    assert_eq!(info.depends, vec!["glibc", "openssl"]);
    assert_eq!(info.subpackages.len(), 2);

    let devel = info
        .subpackages
        .iter()
        .find(|s| s.pkgname == "myproject-devel")
        .unwrap();
    assert_eq!(
        devel.short_desc.as_deref(),
        Some("My awesome development files")
    );
    assert_eq!(devel.depends, vec!["myproject>=2.5.0_3", "headers"]);

    let doc = info
        .subpackages
        .iter()
        .find(|s| s.pkgname == "myproject-doc")
        .unwrap();
    assert_eq!(doc.short_desc.as_deref(), Some("My awesome documentation"));
    assert!(doc.depends.is_empty());
}

#[test]
fn skipped_index_warning_mentions_kind_location_and_cause() {
    let msg = skipped_index_warning("template", "mi-repo:srcpkgs/foo/template", "pkgname ausente");
    assert!(msg.contains("template"), "el aviso debe nombrar qué se ignoró: {msg}");
    assert!(
        msg.contains("mi-repo:srcpkgs/foo/template"),
        "el aviso debe ubicar el origen: {msg}"
    );
    assert!(msg.contains("pkgname ausente"), "el aviso debe explicar la causa: {msg}");
}

#[test]
fn template_without_pkgname_names_the_template() {
    match parse_template_text("version=1.0\n", "repo:srcpkgs/x/template") {
        Err(TemplateError::MissingPkgname(m)) => {
            assert_eq!(m, "template sin pkgname: repo:srcpkgs/x/template")
        }
        other => panic!("unexpected: {other:?}"),
    }
}

#[test]
fn template_defaults_and_normalisation() {
    let content = "pkgname=foo\nonly_for_archs=\"x86_64* i686*\"\nchecksum=\"abc sha256:def SKIP\"\nrestricted=yes\nbuild_style=\n";
    let info = parse_template_text(content, "t").unwrap();
    assert_eq!(info.version, "1.0");
    assert_eq!(info.revision, 1);
    assert_eq!(info.archs, vec!["x86_64", "i686"]);
    assert_eq!(info.checksum, vec!["sha256:abc", "sha256:def", "SKIP"]);
    assert!(info.restricted);
    assert_eq!(info.build_style, None);
    let none = parse_template_text("pkgname=bar\nversion=2\n", "t").unwrap();
    assert_eq!(none.archs, vec!["all"]);
}

#[test]
fn template_later_assignment_wins_and_continuations_join() {
    let content = "pkgname=foo\nversion=1\nversion=2\ndepends=\"a \\\n b\"\n";
    let info = parse_template_text(content, "t").unwrap();
    assert_eq!(info.version, "2");
    assert_eq!(info.depends, vec!["a", "b"]);
}

#[test]
fn template_invalid_metadata_is_reported() {
    match parse_template_text("pkgname=foo\nversion=1-2\n", "t") {
        Err(TemplateError::Invalid(m)) => assert!(m.contains("guiones"), "{m}"),
        other => panic!("unexpected: {other:?}"),
    }
}

#[test]
fn template_subpackage_named_like_parent_is_dropped() {
    let content = "pkgname=foo\nversion=1\nfoo_package() {\n short_desc=x\n}\nfoo-libs_package() {\n depends=\"$pkgname-$version_$revision\"\n}\nfoo-libs_package() {\n}\n";
    let info = parse_template_text(content, "t").unwrap();
    assert_eq!(info.subpackages.len(), 1);
    assert_eq!(info.subpackages[0].pkgname, "foo-libs");
    assert_eq!(info.subpackages[0].depends, vec!["foo-1_1"]);
}

#[test]
fn projection_respects_official_templates_for_dependencies() {
    assert_eq!(projection_plan("vur-main", "foo", Some(true), DestKind::Missing, false), Ok(Projection::Copy));
    assert_eq!(projection_plan("vur-main", "foo", Some(true), DestKind::Dir { marked: true }, false), Ok(Projection::ReplaceProjection));
    assert_eq!(projection_plan("vur-main", "foo", Some(true), DestKind::Dir { marked: false }, false), Ok(Projection::Skip));
    assert_eq!(projection_plan("vur-main", "foo", Some(true), DestKind::Dir { marked: false }, true), Ok(Projection::ReplaceOfficial));
    assert_eq!(projection_plan("vur-main", "foo", Some(true), DestKind::Symlink, false), Ok(Projection::ReplaceLink));
    assert_eq!(projection_plan("vur-main", "foo", Some(true), DestKind::Other, true), Ok(Projection::ReplaceFile));
    assert_eq!(projection_plan("vur-main", "foo", None, DestKind::Missing, true), Err("template no encontrado para foo".to_string()));
    assert!(projection_plan("vur-main", "foo", Some(false), DestKind::Missing, true)
        .unwrap_err()
        .starts_with("el paquete 'foo' existe en el VUR 'vur-main' como índice .VURINFO"));
}

#[test]
fn templates_index_reads_what_it_can() {
    assert_eq!(pkg_file("srcpkgs", "foo", "template"), "srcpkgs/foo/template");
    assert_eq!(pkg_file("", "foo", ".VURINFO"), "foo/.VURINFO");
    let pkgs = vec!["good".to_string(), "gone".to_string(), "bad".to_string()];
    let texts = vec![
        Some("pkgname=good\nversion=1.0\nrevision=1\n".to_string()),
        None,
        Some("version=1.0\n".to_string()),
    ];
    let (infos, seen, warnings) = index_from_templates("vur-x", "srcpkgs", &pkgs, &texts);
    assert_eq!(infos.len(), 1);
    assert_eq!(infos[0].pkgname, "good");
    assert_eq!(seen, 2);
    assert_eq!(
        warnings,
        vec!["advertencia: se ignoró template en vur-x:srcpkgs/bad/template: template sin pkgname: vur-x:srcpkgs/bad/template".to_string()]
    );
    assert_eq!(finish_index("vur-x", infos, seen).unwrap().len(), 1);
    assert_eq!(finish_index("vur-x", Vec::new(), 0).unwrap_err(), "no se encontró ningún .VURINFO ni template en vur-x");
    assert!(finish_index("vur-x", Vec::new(), 3).unwrap().is_empty());
}
