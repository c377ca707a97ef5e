use vary::masterdir::{
    check_parallel_prereqs, effective_build_slots, new_files_since, overlay_in_filesystems,
    Masterdir, WorkerSandbox, XbpsSrcRun,
};

#[test]
fn rutas_derivadas_son_consistentes() {
    let md = Masterdir::new("/tmp/vp");
    assert_eq!(md.srcpkgs_dir(), "/tmp/vp/srcpkgs");
    assert_eq!(
        vary::paths::path_join(&md.hostdir_binpkgs_root(), "x86_64"),
        "/tmp/vp/hostdir/binpkgs/x86_64"
    );
    assert_eq!(md.hostdir_binpkgs_root(), "/tmp/vp/hostdir/binpkgs");
}

#[test]
fn overlay_se_detecta_en_proc_filesystems() {
    assert!(overlay_in_filesystems("ext4\nnodev\toverlay\ntmpfs\n"));
    assert!(overlay_in_filesystems("overlay\n"));
    assert!(!overlay_in_filesystems("ext4\ntmpfs\n"));
    assert!(!overlay_in_filesystems(""));
    assert!(!overlay_in_filesystems("nodev\toverlayfs\n"));
}

#[test]
fn slots_solo_con_experimental_y_max_mayor_que_uno() {
    assert_eq!(effective_build_slots(false, 8, 8), 1);
    assert_eq!(effective_build_slots(true, 1, 8), 1);
    assert_eq!(effective_build_slots(true, 0, 8), 1);
    assert_eq!(effective_build_slots(true, 4, 8), 4);
    assert_eq!(effective_build_slots(true, 16, 2), 2);
    assert_eq!(effective_build_slots(true, 4, 0), 1);
}

#[test]
fn prereqs_exigen_overlay_y_un_gibi() {
    assert!(check_parallel_prereqs(Some(2 << 30), true).is_ok());
    assert!(check_parallel_prereqs(Some(2 << 30), false).is_err());
    assert!(check_parallel_prereqs(Some(512 << 20), true).is_err());
    assert!(check_parallel_prereqs(None, true).is_err());
}

#[test]
fn prereq_messages_give_the_reason() {
    assert_eq!(
        check_parallel_prereqs(Some(1000), true).unwrap_err(),
        "espacio libre en caché (1000 B) bajo el mínimo de 1 GiB; builds secuenciales"
    );
    assert!(check_parallel_prereqs(Some(1 << 30), true).is_ok());
}

#[test]
fn slot_dirs_solo_w_mas_digitos() {
    assert!(WorkerSandbox::is_slot_dir("w0"));
    assert!(WorkerSandbox::is_slot_dir("w12"));
    assert!(!WorkerSandbox::is_slot_dir("w"));
    assert!(!WorkerSandbox::is_slot_dir("wx"));
    assert!(!WorkerSandbox::is_slot_dir("srcpkgs"));
    assert!(!WorkerSandbox::is_slot_dir(""));
    assert_eq!(WorkerSandbox::dir_name(3), "w3");
}

#[test]
fn new_files_since_devuelve_solo_nuevos_ordenados() {
    let a = "/b/a.xbps".to_string();
    let b = "/b/b.xbps".to_string();
    let c = "/b/c.xbps".to_string();
    assert_eq!(
        new_files_since(&vec![a.clone()], &vec![c.clone(), a.clone(), b.clone()]),
        vec![b, c]
    );
    assert!(new_files_since(&vec![a.clone()], &vec![a]).is_empty());
}

#[test]
fn worker_paths_derive_from_the_slot() {
    let w = WorkerSandbox::for_test("/cache/workers/w2");
    assert_eq!(w.slot(), 2);
    assert_eq!(w.checkout_root(), "/cache/workers/w2/merged");
    assert_eq!(w.srcpkgs_dir(), "/cache/workers/w2/merged/srcpkgs");
    assert_eq!(w.binpkgs_dir(), "/cache/workers/w2/merged/hostdir/binpkgs");
    assert_eq!(w.log_file("/logs"), "/logs/xbps-src-w2.log");
    let odd = WorkerSandbox::for_test("/cache/workers/zz");
    assert_eq!(odd.slot(), 999);
}

#[test]
fn xbps_src_invocations() {
    let md = Masterdir::new("/vp");
    let run = md.build_pkg("foo", 4, false).unwrap();
    assert_eq!(run.args, vec!["pkg".to_string(), "foo".to_string()]);
    assert_eq!(run.makejobs, Some(4));
    assert!(md.build_pkg("foo", 4, true).is_err());
    assert_eq!(md.fetch_pkg("foo").args, vec!["fetch".to_string(), "foo".to_string()]);
    assert_eq!(md.binary_bootstrap().args, vec!["binary-bootstrap".to_string()]);
    assert!(XbpsSrcRun::outcome("pkg foo", 0).is_ok());
    assert_eq!(
        XbpsSrcRun::outcome("pkg foo", 2).unwrap_err(),
        "xbps-src pkg foo terminó con código 2"
    );
    assert_eq!(
        XbpsSrcRun::outcome("pkg foo", -1).unwrap_err(),
        "xbps-src pkg foo terminó con código -1"
    );
}
