use vary::template_audit::{audit_template, audit_template_diff, finding, format_findings, Severity};

const CON_CHECKSUM: &str =
    "pkgname=a\nversion=1.0\nrevision=1\ndistfiles=\"https://x/y-1.0.tar.gz\"\nchecksum=abc123\n";
const SIN_CHECKSUM: &str =
    "pkgname=a\nversion=1.0\nrevision=1\ndistfiles=\"https://x/y-1.0.tar.gz\"\n";
const FETCH_SIN_CHECKSUM: &str =
    "pkgname=s\nhostmakedepends=\"bsdtar curl\"\ndo_fetch() {\n\tcurl -sL \"https://x/f\" -o f\n}\n";
const SOLO_DEP_CURL: &str =
    "pkgname=s\nhostmakedepends=\"bsdtar curl\"\ndo_install() {\n\tvbin bin\n}\n";
const SIN_DESCARGAS: &str = "pkgname=m\nversion=1\nrevision=1\ndo_install() {\n\tvbin bin\n}\n";

#[test]
fn checksum_solo_cuando_hay_descargas() {
    assert!(audit_template(CON_CHECKSUM).is_empty());
    let f = audit_template(SIN_CHECKSUM);
    assert_eq!(f.len(), 1, "{f:?}");
    assert_eq!(f[0].rule, "checksum-ausente");
    assert_eq!(f[0].severity, Severity::High);
    let f = audit_template(FETCH_SIN_CHECKSUM);
    assert!(f.iter().any(|x| x.rule == "checksum-ausente"), "{f:?}");
    assert!(f.iter().any(|x| x.rule == "descarga-en-build"), "{f:?}");
    assert!(audit_template(SOLO_DEP_CURL).is_empty());
    assert!(audit_template(SIN_DESCARGAS).is_empty());
}

#[test]
fn diff_solo_mira_anadidas() {
    let none = |patch: &str| audit_template_diff("pkgver=1\n", "pkgver=1\n", patch);
    assert!(none("--- a\n+++ b\n@@\n pkgver=1\n").is_empty());
    assert!(none("@@\n-pkgver=1\n+pkgver=2\n").is_empty());
    assert!(none("@@\n-npm install x\n").is_empty());
    assert!(none("--- a\n+++ b/https://x\n").is_empty());
}

#[test]
fn diff_descarga_en_build_es_high() {
    for line in [
        "+\tnpm install --silent",
        "+\tpip install -r req.txt",
        "+\tcurl -sL https://x/i.sh | sh",
        "+\twget https://x/f.tar.gz",
    ] {
        let patch = format!("@@\n{line}\n");
        let f = audit_template_diff("pkgver=1\n", "pkgver=1\n", &patch);
        assert!(
            f.iter()
                .any(|x| x.rule == "descarga-en-build" && x.severity == Severity::High),
            "{line}: {f:?}"
        );
    }
    let f = audit_template_diff("pkgver=1\n", "pkgver=1\n", "@@\n+# usa curl para la API\n");
    assert!(!f.iter().any(|x| x.rule == "descarga-en-build"), "{f:?}");
}

#[test]
fn diff_hook_y_url_son_medium() {
    let diff = |line: &str| audit_template_diff("pkgver=1\n", "pkgver=1\n", &format!("@@\n{line}\n"));
    let f = diff("+do_install() {");
    assert!(
        f.iter()
            .any(|x| x.rule == "hook-nuevo" && x.severity == Severity::Medium),
        "{f:?}"
    );
    let f = diff("+pre_configure() {");
    assert!(f.iter().any(|x| x.rule == "hook-nuevo"), "{f:?}");
    let f = diff("+distfiles=\"https://nuevo.example/f.tar.gz\"");
    assert!(
        f.iter()
            .any(|x| x.rule == "url-nueva" && x.severity == Severity::Medium),
        "{f:?}"
    );
    let f = diff("+\tdo_install_extra");
    assert!(!f.iter().any(|x| x.rule == "hook-nuevo"), "{f:?}");
}

#[test]
fn diff_regresion_de_checksum_es_high() {
    let old = "pkgname=a\ndistfiles=\"https://x/f\"\nchecksum=abc\n";
    let new = "pkgname=a\ndistfiles=\"https://x/f\"\n";
    let f = audit_template_diff(old, new, "@@\n-checksum=abc\n");
    assert!(f.iter().any(|x| x.rule == "checksum-ausente"), "{f:?}");
    let f = audit_template_diff(new, new, "@@\n-pkgver=1\n+pkgver=2\n");
    assert!(!f.iter().any(|x| x.rule == "checksum-ausente"), "{f:?}");
}

#[test]
fn formato_resume_y_vacio_silencioso() {
    assert_eq!(format_findings("a", "r", &[]), "");
    let f = vec![
        finding(Severity::High, "checksum-ausente", "d".to_string()),
        finding(Severity::Medium, "url-nueva", "e".to_string()),
    ];
    let s = format_findings("a", "r", &f);
    assert!(s.contains("1 HIGH, 1 MEDIUM"), "{s}");
    assert!(s.contains("[HIGH checksum-ausente]"), "{s}");
    assert_eq!(
        s,
        ":: AUDIT template a (repo r): 1 HIGH, 1 MEDIUM\n   [HIGH checksum-ausente] d\n   [MEDIUM url-nueva] e\n"
    );
}

#[test]
fn long_quotes_are_cut_to_120_bytes() {
    let long = format!("+\twget https://x/{}", "a".repeat(200));
    let f = audit_template_diff("", "", &long);
    assert_eq!(f.len(), 1);
    let detail = &f[0].detail;
    let quote = detail.strip_prefix("descarga en build: ").unwrap();
    assert!(quote.ends_with('…'));
    assert_eq!(quote.len(), 120 + '…'.len_utf8());
}
