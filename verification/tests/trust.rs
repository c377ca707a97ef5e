use vary::keys::xbps_fingerprint_pem;
use vary::reposconf::RepoEntry;
use vary::trust::{binary_repo_plan, preimport_check, verify_key_tofu, vup_repo_plan};

const K1_PUB: &str = "-----BEGIN PUBLIC KEY-----\nMFwwDQYJKoZIhvcNAQEBBQADSwAwSAJBAL6BQJEq0JGyD0SR8MLQzdM+PksXk8mL\nF0AGeN3vOTGHbvFAIbq6lxMkYaAtF6YbRIDnRWxIn5RC+eHqvT9gBNUCAwEAAQ==\n-----END PUBLIC KEY-----\n";
const K1_FP_XBPS: &str = "90:de:62:d8:f1:f3:f8:cf:c6:8f:e2:b3:d0:8d:5e:59";
const K2_PUB: &str = "-----BEGIN PUBLIC KEY-----\nMFwwDQYJKoZIhvcNAQEBBQADSwAwSAJBAMxCPikCO5uxQDBBrjgJ+vf5bxikBTs2\n1C17C1ips/JLNGFtipNz4ejujSc37aQjHCnspKzxRKaESj3KTPN0ki8CAwEAAQ==\n-----END PUBLIC KEY-----\n";

fn entry(binary: Option<&str>, pin: Option<&str>) -> RepoEntry {
    RepoEntry {
        url: "https://example.org/r.git".to_string(),
        branch: None,
        priority: None,
        key_fingerprint: pin.map(|s| s.to_string()),
        binary_repo_url: binary.map(|s| s.to_string()),
        index_url: None,
        enabled: None,
    }
}

#[test]
fn verify_key_tofu_bloquea_rotacion_no_confiable() {
    let fp_a = xbps_fingerprint_pem(K1_PUB).unwrap();
    let fp_b = xbps_fingerprint_pem(K2_PUB).unwrap();
    assert!(verify_key_tofu("/etc/xbps.d/keys/repo-test.pem", None, &fp_a, "repo-test").is_ok());
    assert!(verify_key_tofu("/etc/xbps.d/keys/repo-test.pem", Some(Some(K1_PUB)), &fp_a, "repo-test").is_ok());
    let err = verify_key_tofu("/etc/xbps.d/keys/repo-test.pem", Some(Some(K1_PUB)), &fp_b, "repo-test").unwrap_err();
    assert!(err.contains("ALERTA DE SEGURIDAD CRÍTICA"));
    assert!(err.contains("BLOQUEADA (fallo cerrado)"));
    assert!(err.contains("vary --repo rekey repo-test"));
    assert!(verify_key_tofu("k.pem", Some(Some(K1_PUB)), &fp_a.to_uppercase(), "repo-test").is_ok());
}

#[test]
fn verify_key_tofu_falla_cerrado_con_llave_ilegible() {
    let err = verify_key_tofu("/tmp/k.pem", Some(Some("basura-no-pem")), "aa:bb", "repo-test").unwrap_err();
    assert!(err.contains("no es una public key RSA válida"));
    let err2 = verify_key_tofu("/tmp/k.pem", Some(None), "aa:bb", "repo-test").unwrap_err();
    assert_eq!(err2, "no se pudo leer la llave instalada de 'repo-test' en /tmp/k.pem");
}

#[test]
fn binary_repo_plan_checks_url_key_and_pin() {
    assert!(binary_repo_plan("r", &entry(None, None), K1_PUB).unwrap_err().contains("es source-only"));
    assert!(binary_repo_plan("r", &entry(Some("  "), None), K1_PUB).unwrap_err().contains("es source-only"));
    assert!(binary_repo_plan("r", &entry(Some("ftp://x"), None), K1_PUB).unwrap_err().contains("esquema no soportado"));
    assert_eq!(binary_repo_plan("r", &entry(Some("https://bin"), None), "nope").unwrap_err(), "PEM inválido");
    let (fp, conf) = binary_repo_plan("r", &entry(Some("https://bin"), None), K1_PUB).unwrap();
    assert_eq!(fp, K1_FP_XBPS);
    assert_eq!(conf, "repository=https://bin\n");
    assert!(binary_repo_plan("r", &entry(Some("https://bin"), Some(&K1_FP_XBPS.to_uppercase())), K1_PUB).is_ok());
    let err = binary_repo_plan("r", &entry(Some("https://bin"), Some("00:11")), K1_PUB).unwrap_err();
    assert!(err.starts_with("fingerprint de llave del VUR 'r' NO coincide:\n  esperado (repos.conf): 00:11"));
}

#[test]
fn vup_repo_plan_dedups_and_writes_every_url() {
    let urls = vec![" https://a ".to_string(), "https://a".to_string(), "".to_string(), "https://b".to_string()];
    let (list, fp, conf) = vup_repo_plan("v", &urls, K1_PUB, &entry(None, None)).unwrap();
    assert_eq!(list, vec!["https://a".to_string(), "https://b".to_string()]);
    assert_eq!(fp, K1_FP_XBPS);
    assert_eq!(conf, "repository=https://a\nrepository=https://b\n");
    assert!(vup_repo_plan("v", &vec!["  ".to_string()], K1_PUB, &entry(None, None))
        .unwrap_err()
        .contains("no aporta ninguna URL binaria"));
    assert!(vup_repo_plan("v", &vec!["bad".to_string()], K1_PUB, &entry(None, None)).is_err());
    let err = vup_repo_plan("v", &vec!["https://a".to_string()], K1_PUB, &entry(None, Some("ff"))).unwrap_err();
    assert!(err.starts_with("fingerprint de llave del repo VUP 'v' NO coincide"));
}

fn key_plist(pem: &str) -> String {
    let b64 = base64::Engine::encode(&base64::engine::general_purpose::STANDARD, pem);
    format!("<dict><key>public-key</key><data>{}</data></dict>", b64)
}

#[test]
fn preimport_writes_only_the_verified_key() {
    let fp = K1_FP_XBPS;
    assert_eq!(
        preimport_check(fp, &key_plist(K1_PUB), "/var/db/xbps/keys").unwrap(),
        format!("/var/db/xbps/keys/{}.plist", fp)
    );
    // an upper-case pin names the same key
    assert!(preimport_check(&fp.to_uppercase(), &key_plist(K1_PUB), "/k").is_ok());
    // a plist with another key is refused
    let err = preimport_check(fp, &key_plist(K2_PUB), "/k").unwrap_err();
    assert!(err.contains("no corresponde"));
    assert!(err.contains(&format!("verificado: {}", fp)));
    // a fingerprint that cannot name a file
    assert!(preimport_check("../x", &key_plist(K1_PUB), "/k").is_err());
    assert_eq!(
        preimport_check(fp, "<plist></plist>", "/k").unwrap_err(),
        "el plist a pre-importar no decodifica a una public key PEM"
    );
}
