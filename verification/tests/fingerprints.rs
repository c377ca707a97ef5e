use base64::Engine as _;
use vary::keys::{
    fingerprint_matches_pin, parse_rsa_spki_pubkey, sha256_fingerprint_pem, xbps_fingerprint_pem,
    DerError, KeyError,
};
use vary::vur_client::decode_pem_body;

const K1_PUB: &str = "-----BEGIN PUBLIC KEY-----\nMFwwDQYJKoZIhvcNAQEBBQADSwAwSAJBAL6BQJEq0JGyD0SR8MLQzdM+PksXk8mL\nF0AGeN3vOTGHbvFAIbq6lxMkYaAtF6YbRIDnRWxIn5RC+eHqvT9gBNUCAwEAAQ==\n-----END PUBLIC KEY-----\n";
const K1_FP_XBPS: &str = "90:de:62:d8:f1:f3:f8:cf:c6:8f:e2:b3:d0:8d:5e:59";
const K2_PUB: &str = "-----BEGIN PUBLIC KEY-----\nMFwwDQYJKoZIhvcNAQEBBQADSwAwSAJBAMxCPikCO5uxQDBBrjgJ+vf5bxikBTs2\n1C17C1ips/JLNGFtipNz4ejujSc37aQjHCnspKzxRKaESj3KTPN0ki8CAwEAAQ==\n-----END PUBLIC KEY-----\n";
const K2_FP_XBPS: &str = "ad:9a:6c:a8:31:6b:68:0d:37:49:21:3e:35:51:28:41";
const K2048_PUB: &str = "-----BEGIN PUBLIC KEY-----\nMIIBIjANBgkqhkiG9w0BAQEFAAOCAQ8AMIIBCgKCAQEA4r8PsCrh/WgmNCLOZ7pz\ncosWCec7w1JmcgiYtJIjFwzXvQycMr3kYUkKAx9xuTxdW3ooteiJlS3AhFV6Gw/4\nrn1pQUyZv/U4rZuWSTlAP73rgLBGTXuDaE7l2xb/1No5LtVgxJYhlYWhG9SOJb29\nRzyroFyUrp/NZMLij2HZZrIk7tB9gR7+aLXKaEGMrNXEFUkHWtb045dfnhtrtpBh\nlYn54f6ML1Xr2wn3zlLz8FK/HGp5CYdlLjjbS17lqDQv1w/gj5lbgtB+6X1ia5d+\nfj945r+wrsyQuzPuWMJl5EV30FVlLVLuIC28mzNlNdk2d+jl4NcvZIJkgdns7Gjq\n1QIDAQAB\n-----END PUBLIC KEY-----\n";
const K2048_FP_XBPS: &str = "47:9b:d3:be:c2:6e:a7:2e:83:f4:92:05:75:9c:8f:f7";

#[test]
fn xbps_fingerprint_coincide_con_xbps_en_vivo() {
    assert_eq!(xbps_fingerprint_pem(K1_PUB).unwrap(), K1_FP_XBPS);
    assert_eq!(xbps_fingerprint_pem(K2_PUB).unwrap(), K2_FP_XBPS);
    assert_eq!(xbps_fingerprint_pem(K2048_PUB).unwrap(), K2048_FP_XBPS);
}

#[test]
fn xbps_fingerprint_falla_cerrado_con_no_rsa() {
    let fake = "-----BEGIN PUBLIC KEY-----\naGVsbG8=\n-----END PUBLIC KEY-----\n";
    assert!(xbps_fingerprint_pem(fake).is_err());
    assert!(xbps_fingerprint_pem("basura-no-pem").is_err());
    assert!(xbps_fingerprint_pem("").is_err());
    let der = decode_pem_body(K1_PUB).unwrap();
    let cut = format!(
        "-----BEGIN PUBLIC KEY-----\n{}\n-----END PUBLIC KEY-----\n",
        base64::engine::general_purpose::STANDARD.encode(&der[..der.len() / 2])
    );
    assert!(xbps_fingerprint_pem(&cut).is_err());
}

#[test]
fn fingerprint_matches_pin_acepta_xbps_y_legacy() {
    let sha = sha256_fingerprint_pem(K1_PUB).unwrap();
    assert_ne!(sha, K1_FP_XBPS);
    assert!(fingerprint_matches_pin(K1_FP_XBPS, K1_FP_XBPS, &sha));
    assert!(fingerprint_matches_pin(&sha, K1_FP_XBPS, &sha));
    assert!(fingerprint_matches_pin(
        &K1_FP_XBPS.to_uppercase(),
        K1_FP_XBPS,
        &sha
    ));
    assert!(!fingerprint_matches_pin(K2_FP_XBPS, K1_FP_XBPS, &sha));
    assert!(!fingerprint_matches_pin("", K1_FP_XBPS, &sha));
}

#[test]
fn sha256_fingerprint_of_known_body() {
    let pem = "-----BEGIN PUBLIC KEY-----\naGVsbG8gd29ybGQ=\n-----END PUBLIC KEY-----\n";
    assert_eq!(
        sha256_fingerprint_pem(pem).unwrap(),
        "b9:4d:27:b9:93:4d:3e:08:a5:2e:52:d7:da:7d:ab:fa:c4:84:ef:e3:7a:53:80:ee:90:88:f7:ac:e2:ef:cd:e9"
    );
}

#[test]
fn der_errors_name_the_deviation() {
    let der = decode_pem_body(K1_PUB).unwrap();
    let (n, e) = parse_rsa_spki_pubkey(&der).unwrap();
    assert_eq!(e, vec![1, 0, 1]);
    assert_eq!(n.len(), 65);
    assert!(matches!(parse_rsa_spki_pubkey(&[]), Err(DerError::TruncatedTag)));
    assert!(matches!(parse_rsa_spki_pubkey(&[0x31, 0]), Err(DerError::UnexpectedTag(0x31, 0x30))));
    assert!(matches!(parse_rsa_spki_pubkey(&[0x30]), Err(DerError::TruncatedLength)));
    assert!(matches!(parse_rsa_spki_pubkey(&[0x30, 0x80]), Err(DerError::UnsupportedLength)));
    assert!(matches!(parse_rsa_spki_pubkey(&[0x30, 0x82, 1]), Err(DerError::Truncated)));
    let mut trailing = der.clone();
    trailing.push(0);
    assert!(matches!(parse_rsa_spki_pubkey(&trailing), Err(DerError::TrailingAfterSpki)));
    assert_eq!(
        DerError::UnexpectedTag(0x31, 0x30).message(),
        "DER inesperado: tag 0x31, esperaba 0x30 (solo RSA)"
    );
    assert_eq!(DerError::UnexpectedTag(5, 2).message(), "DER inesperado: tag 0x5, esperaba 0x2 (solo RSA)");
    match xbps_fingerprint_pem("") {
        Err(k @ KeyError::Pem(_)) => assert_eq!(k.message(), "PEM inválido"),
        other => panic!("unexpected: {other:?}"),
    }
}
