use vary::signal::{
    is_shutting_down, register_child, register_mount, unregister_child, unregister_mount,
    CleanupRegistry, MountCleanup,
};

#[test]
fn cleanup_en_ruta_inexistente_no_panickea() {
    let steps = MountCleanup::new(
        "/nonexistent-vary-xyz-123".to_string(),
        "false".to_string(),
        vec![],
        false,
    )
    .run();
    assert_eq!(steps.len(), 3);
    assert_eq!(steps[0].program, "fusermount3");
    assert_eq!(steps[0].args, vec!["-u".to_string(), "/nonexistent-vary-xyz-123".to_string()]);
    assert_eq!(steps[2].args, vec!["-l".to_string(), "/nonexistent-vary-xyz-123".to_string()]);
}

#[test]
fn elevated_cleanup_unmounts_cleanly_then_lazily() {
    let steps = MountCleanup::new("/m".to_string(), "doas".to_string(), vec![], true).run();
    assert_eq!(steps.len(), 2);
    assert!(steps.iter().all(|s| s.elevated && s.program == "umount"));
    assert_eq!(steps[0].args, vec!["/m".to_string()]);
    assert_eq!(steps[1].args, vec!["-l".to_string(), "/m".to_string()]);
}

#[test]
fn registro_y_deregistro_de_mount() {
    let mut reg = CleanupRegistry::new();
    let p = "/tmp/vary-test-reg".to_string();
    register_mount(&mut reg, MountCleanup::new(p.clone(), String::new(), vec![], false));
    register_mount(&mut reg, MountCleanup::new("/other".to_string(), String::new(), vec![], false));
    assert!(reg.mounts.iter().any(|c| c.merged == p));
    unregister_mount(&mut reg, &p);
    assert!(!reg.mounts.iter().any(|c| c.merged == p));
    assert_eq!(reg.mounts.len(), 1);
}

#[test]
fn registro_de_hijos() {
    let mut reg = CleanupRegistry::new();
    register_child(&mut reg, 424242);
    assert!(reg.children.contains(&424242));
    unregister_child(&mut reg, 424242);
    assert!(!reg.children.contains(&424242));
}

#[test]
fn sin_senal_no_hay_shutdown() {
    let mut reg = CleanupRegistry::new();
    assert!(!is_shutting_down(&reg));
    reg.got_signal = 15;
    assert!(is_shutting_down(&reg));
}
