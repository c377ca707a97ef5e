use vary::elevate::{detect, elevation_argv, resolve, Host};
use vary::preflight::{check, FixedIo, Report};

fn normal() -> FixedIo {
    FixedIo {
        euid: 1000,
        files: vec![("/usr/bin/xbps-uchroot".to_string(), true, Some(0o4750))],
        env: vec![],
        cgroup: Some("0::/init.scope\n".to_string()),
    }
}

fn set_file(io: &mut FixedIo, path: &str, exists: bool, mode: Option<u32>) {
    io.files.retain(|f| f.0 != path);
    io.files.push((path.to_string(), exists, mode));
}

fn assert_ok(r: &Report) {
    assert!(r.abort.is_none(), "aborto inesperado: {:?}", r.abort);
    assert!(r.warnings.is_empty(), "avisos inesperados: {:?}", r.warnings);
}

#[test]
fn entorno_normal_pasa_en_silencio() {
    assert_ok(&check(&normal()));
}

#[test]
fn root_directo_aborta() {
    let mut io = normal();
    io.euid = 0;
    set_file(&mut io, "/.dockerenv", true, Some(0o644));
    let r = check(&io);
    let abort = r.abort.as_ref().expect("root debe abortar");
    assert!(abort.contains("root directo"), "{abort}");
    assert!(r.warnings.is_empty(), "el aborto corta avisos: {r:?}");
}

#[test]
fn chroot_degradado_avisa_y_sigue() {
    for (path, var) in [
        (Some("/.flatpak-info"), None),
        (None, Some("FLATPAK_ID")),
        (None, Some("PROOT_TMP_DIR")),
    ] {
        let mut io = normal();
        if let Some(p) = path {
            set_file(&mut io, p, true, Some(0o644));
        }
        if let Some(v) = var {
            io.env.push((v.to_string(), "1".to_string()));
        }
        let r = check(&io);
        assert!(r.abort.is_none(), "{r:?}");
        assert_eq!(r.warnings.len(), 1, "{r:?}");
        assert!(r.warnings[0].contains("degradado"), "{r:?}");
    }
}

#[test]
fn uchroot_sin_4750_aborta_con_hint() {
    for mode in [0o755, 0o644, 0o2750, 0o4755] {
        let mut io = normal();
        set_file(&mut io, "/usr/bin/xbps-uchroot", true, Some(mode));
        let r = check(&io);
        let abort = r.abort.unwrap_or_else(|| panic!("modo {mode:o} debe abortar"));
        assert!(abort.contains("4750"), "{abort}");
        assert!(abort.contains("chmod"), "{abort}");
    }
    let mut io = normal();
    set_file(&mut io, "/usr/bin/xbps-uchroot", true, Some(0o755));
    assert_eq!(
        check(&io).abort.unwrap(),
        "xbps-uchroot en /usr/bin/xbps-uchroot con modo 755 (se exige 4750 para builds en chroot); corrige con: doas chmod 4750 /usr/bin/xbps-uchroot (o reinstala xbps)"
    );
}

#[test]
fn uchroot_alternativo_y_ausente_no_abortan() {
    let mut io = normal();
    io.files.clear();
    set_file(&mut io, "/usr/libexec/xbps-uchroot", true, Some(0o4750));
    assert_ok(&check(&io));
    let mut io = normal();
    io.files.clear();
    assert_ok(&check(&io));
    let mut io = normal();
    set_file(&mut io, "/usr/bin/xbps-uchroot", true, None);
    assert_ok(&check(&io));
}

#[test]
fn oci_avisa_leve_y_sigue() {
    let mut io = normal();
    set_file(&mut io, "/.dockerenv", true, Some(0o644));
    let r = check(&io);
    assert!(r.abort.is_none());
    assert_eq!(r.warnings.len(), 1);
    assert!(r.warnings[0].contains("OCI"), "{:?}", r.warnings);

    let mut io = normal();
    io.cgroup = Some("11:devices:/docker/ab12cd34\n".to_string());
    let r = check(&io);
    assert!(r.abort.is_none());
    assert_eq!(r.warnings.len(), 1);

    let mut io = normal();
    io.cgroup = Some("3:cpu:/kubepods/pod99\n".to_string());
    set_file(&mut io, "/.flatpak-info", true, Some(0o644));
    let r = check(&io);
    assert!(r.abort.is_none());
    assert_eq!(r.warnings.len(), 2, "{r:?}");
}

#[test]
fn empty_env_value_counts_as_absent() {
    let mut io = normal();
    io.env.push(("FLATPAK_ID".to_string(), String::new()));
    assert_ok(&check(&io));
}

fn host(as_root: bool, sudo: bool, doas: bool, run0: bool) -> Host {
    Host { as_root, has_sudo: sudo, has_doas: doas, has_run0: run0 }
}

#[test]
fn binario_explicito_gana_siempre() {
    for h in [host(true, true, false, false), host(false, false, false, false)] {
        let r = resolve("/usr/bin/doas", &vec!["-n".to_string()], &h).unwrap();
        assert_eq!(r, Some(("/usr/bin/doas".to_string(), vec!["-n".to_string()])));
    }
}

#[test]
fn root_sin_config_ejecuta_directo() {
    assert_eq!(resolve("", &vec![], &host(true, true, true, true)).unwrap(), None);
}

#[test]
fn usuario_normal_autodetecta_wrapper_conocido() {
    let r = resolve("", &vec![], &host(false, false, true, true)).unwrap().unwrap();
    assert_eq!(r.0, "doas");
    assert!(r.1.is_empty());
    assert_eq!(detect(&host(false, false, false, true)).unwrap(), "run0");
    let err = detect(&host(false, false, false, false)).unwrap_err();
    assert!(err.contains("sudo, doas y run0"), "{err}");
}

#[test]
fn elevate_explicito_prefija_el_programa() {
    let argv = elevation_argv("echo", &vec![], &host(false, true, false, false), "/bin/true").unwrap();
    assert_eq!(argv, vec!["echo".to_string(), "/bin/true".to_string()]);
    let argv = elevation_argv("", &vec![], &host(true, true, false, false), "xbps-install").unwrap();
    assert_eq!(argv, vec!["xbps-install".to_string()]);
    let argv = elevation_argv("sudo", &vec!["-E".to_string()], &host(false, true, false, false), "xbps-remove").unwrap();
    assert_eq!(argv, vec!["sudo".to_string(), "-E".to_string(), "xbps-remove".to_string()]);
}
