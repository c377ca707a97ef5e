use vary::cache::CacheIndex;
use vary::util::{ask_from_reader, confirm_from_reader};
use vary::vup_index::{decode_plist_public_key_pem, fetch_step, sanitize_repo_name, split_pkgver, to_vur_info, FetchStep, VupPackage};

#[test]
fn confirm_eof_results_in_denial() {
    assert!(!confirm_from_reader(None).unwrap());
}

#[test]
fn confirm_newline_accepts_default() {
    assert!(confirm_from_reader(Some("\n")).unwrap());
}

#[test]
fn confirm_explicit_denial() {
    assert!(!confirm_from_reader(Some("n\n")).unwrap());
}

#[test]
fn confirm_explicit_approval() {
    assert!(confirm_from_reader(Some("y\n")).unwrap());
    assert!(confirm_from_reader(Some("SI\n")).unwrap());
}

#[test]
fn ask_eof_results_in_denial_even_if_default_is_true() {
    assert!(!ask_from_reader(None, true));
}

#[test]
fn ask_newline_uses_default() {
    assert!(ask_from_reader(Some("\n"), true));
    assert!(!ask_from_reader(Some("\n"), false));
}

#[test]
fn ask_words() {
    assert!(ask_from_reader(Some(" Yes \n"), false));
    assert!(!ask_from_reader(Some("nope\n"), true));
}

#[test]
fn split_pkgver_edges() {
    assert_eq!(split_pkgver("0.5.0_1"), Some(("0.5.0".to_string(), 1)));
    assert_eq!(split_pkgver("1.2"), None);
    assert_eq!(split_pkgver(""), None);
    assert_eq!(split_pkgver("_1"), None);
    assert_eq!(split_pkgver("1.0_x"), None);
    assert_eq!(split_pkgver("2.0_0"), None);
    assert_eq!(split_pkgver("2025.06_3"), Some(("2025.06".to_string(), 3)));
}

#[test]
fn sanitize_repo_name_replaces_separators() {
    assert_eq!(sanitize_repo_name("mi-vup"), "mi-vup");
    assert_eq!(sanitize_repo_name("a/b\\c"), "a_b_c");
}

#[test]
fn index_entry_becomes_binary_metadata() {
    let pkg = VupPackage {
        category: "net".to_string(),
        version: " 0.5.0_2 ".to_string(),
        archs: vec!["x86_64".to_string(), "aarch64".to_string()],
        repo_urls: vec![
            ("aarch64".to_string(), "https://r/arm".to_string()),
            ("x86_64".to_string(), " https://r/x86 ".to_string()),
        ],
    };
    let (info, url) = to_vur_info("tool", &pkg, "x86_64").unwrap();
    assert_eq!(url, "https://r/x86");
    assert_eq!(info.pkgname, "tool");
    assert_eq!(info.version, "0.5.0");
    assert_eq!(info.revision, 2);
    assert_eq!(info.archs, vec!["x86_64".to_string()]);
    assert!(to_vur_info("tool", &pkg, "i686").is_none());
}

#[test]
fn plist_decode_roundtrip() {
    let pem = "-----BEGIN PUBLIC KEY-----\naGVsbG8gd29ybGQ=\n-----END PUBLIC KEY-----\n";
    let b64 = base64::Engine::encode(&base64::engine::general_purpose::STANDARD, pem);
    let plist = format!(
        "<?xml version=\"1.0\"?><plist><dict><key>public-key</key><data>\n{b64}\n</data></dict></plist>"
    );
    let decoded = decode_plist_public_key_pem(&plist).unwrap();
    assert_eq!(decoded, pem);
}

#[test]
fn plist_decode_rejects_garbage() {
    assert!(decode_plist_public_key_pem("no es un plist").is_err());
    assert!(decode_plist_public_key_pem("<plist></plist>").is_err());
    assert!(decode_plist_public_key_pem("<key>public-key</key><data>!!!no-base64!!!</data>").is_err());
    assert_eq!(
        decode_plist_public_key_pem("<key>public-key</key><data>aGVsbG8=").unwrap_err(),
        "bloque <data> sin cerrar en el plist"
    );
    assert_eq!(
        decode_plist_public_key_pem("<key>public-key</key><data>aGVsbG8=</data>").unwrap_err(),
        "la llave del plist no es una public key PEM"
    );
}

#[test]
fn cache_roundtrip_and_expiry() {
    let mut cache = CacheIndex::new();
    assert!(cache.load_valid("repo:key", None).is_none());
    cache.store("repo:key", vec![]);
    cache.store("other:key", vec![]);
    assert!(cache.load_valid("repo:key", Some(3600)).is_some());
    assert!(cache.load_valid("repo:key", Some(0)).is_none());
    assert!(cache.load_valid_at("repo:key", Some(10), u64::MAX).is_none());
    let mut cache2 = cache;
    cache2.invalidate_repo("repo");
    assert!(cache2.load_valid("repo:key", None).is_none());
    assert!(cache2.load_valid("other:key", None).is_some());
}

#[test]
fn index_fetch_falls_back_to_an_old_cache() {
    let u = " https://vup.example/index.json ";
    assert!(matches!(fetch_step(u, true, None, None, None), FetchStep::ReadFresh));
    assert!(matches!(fetch_step(u, true, Some(true), None, None), FetchStep::UseFresh));
    match fetch_step(u, true, Some(false), None, None) {
        FetchStep::Download(d) => assert_eq!(d, "https://vup.example/index.json"),
        _ => panic!("expected a download"),
    }
    assert!(matches!(fetch_step(u, false, None, Some(true), None), FetchStep::UseDownload));
    assert!(matches!(fetch_step(u, false, None, Some(false), None), FetchStep::ReadStale));
    assert!(matches!(fetch_step(u, false, None, Some(false), Some(true)), FetchStep::UseStale));
    match fetch_step(u, false, None, Some(false), Some(false)) {
        FetchStep::Fail(m) => assert_eq!(m, "índice https://vup.example/index.json no disponible (sin red ni caché válida)"),
        _ => panic!("expected a failure"),
    }
    match fetch_step("   ", false, None, None, None) {
        FetchStep::Fail(m) => assert_eq!(m, "index_url vacío"),
        _ => panic!("expected a failure"),
    }
}
