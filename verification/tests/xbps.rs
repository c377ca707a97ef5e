use vary::xbps::{
    architecture_from_output, install_command_args, manual_names, names_from_search_output,
    official_repo_urls_from, parse_installed_props, parse_search_line, remove_command_args,
    PkgInfo,
};

#[test]
fn search_line_basica_no_instalada() {
    let hit = parse_search_line("[-] foo-1.2.3_1  Short description here").unwrap();
    assert_eq!(hit.name, "foo");
    assert_eq!(hit.pkgver, "foo-1.2.3_1");
    assert_eq!(hit.short_desc.as_deref(), Some("Short description here"));
    assert_eq!(hit.repository, None);
    assert!(!hit.installed);
}

#[test]
fn search_line_nombre_con_guiones() {
    let hit = parse_search_line("[-] foo-bar-1.2.3_1  A package with-hyphens").unwrap();
    assert_eq!(hit.name, "foo-bar");
    assert_eq!(hit.pkgver, "foo-bar-1.2.3_1");
    assert_eq!(hit.short_desc.as_deref(), Some("A package with-hyphens"));
    assert!(!hit.installed);
}

#[test]
fn search_line_marcas_de_instalado() {
    for mark in ["[*]", "[x]"] {
        let hit = parse_search_line(&format!("{mark} zzz-0.1_1  desc")).unwrap();
        assert!(hit.installed, "marca {mark} debe ser instalada");
    }
    for mark in ["[-]", "[ ]", "[?]"] {
        let hit = parse_search_line(&format!("{mark} zzz-0.1_1  desc")).unwrap();
        assert!(!hit.installed, "marca {mark} no debe ser instalada");
    }
}

#[test]
fn search_line_con_repositorio() {
    let hit = parse_search_line("[-] [multilib] gcc-multilib-4.1_1  GCC with multilib").unwrap();
    assert_eq!(hit.repository.as_deref(), Some("multilib"));
    assert_eq!(hit.name, "gcc-multilib");
    assert_eq!(hit.pkgver, "gcc-multilib-4.1_1");
    assert_eq!(hit.short_desc.as_deref(), Some("GCC with multilib"));
    assert!(!hit.installed);
}

#[test]
fn search_line_sin_marca_inicial() {
    let hit = parse_search_line("bare-0.1_1  Desc").unwrap();
    assert_eq!(hit.name, "bare");
    assert_eq!(hit.pkgver, "bare-0.1_1");
    assert_eq!(hit.short_desc.as_deref(), Some("Desc"));
    assert!(!hit.installed);
}

#[test]
fn search_line_sin_descripcion() {
    let hit = parse_search_line("[-] solo-9_1").unwrap();
    assert_eq!(hit.name, "solo");
    assert_eq!(hit.pkgver, "solo-9_1");
    assert_eq!(hit.short_desc, None);
}

#[test]
fn search_line_vacias_o_degeneradas_devuelven_none() {
    for line in ["", "   \t ", "[-]", "[-]   "] {
        assert!(parse_search_line(line).is_none(), "linea {line:?}");
    }
}

#[test]
fn bulk_names_stripea_repo_y_version() {
    let out = "[-] firefox-146.0_1  Firefox web browser\n\
               [*] [multilib] lib32-alsa-lib-1.2.14_1  ALSA\n\
               [-] foo-bar-1.2.3_1  guiones en nombre\n\
               \n\
               [-]   \n";
    let set = names_from_search_output(out);
    assert!(set.contains(&"firefox".to_string()));
    assert!(set.contains(&"lib32-alsa-lib".to_string()));
    assert!(set.contains(&"foo-bar".to_string()));
    assert_eq!(set.len(), 3);
}

#[test]
fn bulk_names_are_listed_once() {
    let set = names_from_search_output("[-] a-1_1 x\n[-] a-2_1 y\n[-] b-1_1\n");
    assert_eq!(set, vec!["a".to_string(), "b".to_string()]);
}

#[test]
fn props_completas() {
    let info = parse_installed_props("foo", "foo-1.0_1\nShort desc\nhttps://repo.void\n").unwrap();
    assert_eq!(info.name, "foo");
    assert_eq!(info.pkgver, "foo-1.0_1");
    assert_eq!(info.short_desc.as_deref(), Some("Short desc"));
    assert_eq!(info.repository.as_deref(), Some("https://repo.void"));
    assert!(info.installed);
}

#[test]
fn props_toleran_campos_vacios_o_faltantes() {
    let info = parse_installed_props("foo", "foo-1.0_1\n\n").unwrap();
    assert_eq!(info.pkgver, "foo-1.0_1");
    assert_eq!(info.short_desc, None);
    assert_eq!(info.repository, None);

    let info = parse_installed_props("foo", "foo-2.0_1\ndesc\n").unwrap();
    assert_eq!(info.short_desc.as_deref(), Some("desc"));
    assert_eq!(info.repository, None);
}

#[test]
fn props_sin_pkgver_es_none() {
    assert!(parse_installed_props("foo", "").is_none());
    assert!(parse_installed_props("foo", "\n\ndesc\n").is_none());
}

#[test]
fn manual_segunda_columna() {
    assert_eq!(manual_names("ii foo-1.0_1  descripcion larga\n"), vec!["foo-1.0_1".to_owned()]);
}

#[test]
fn manual_una_sola_columna_usa_toda_la_linea() {
    assert_eq!(manual_names("bar-2.0_1\n"), vec!["bar-2.0_1".to_owned()]);
}

#[test]
fn manual_ignora_lineas_vacias() {
    assert_eq!(
        manual_names("\n   \nii a-1_1 x\nb-1_1\n"),
        vec!["a-1_1".to_owned(), "b-1_1".to_owned()]
    );
}

#[test]
fn build_install_command_incluye_separador_doble_guion() {
    let targets = vec!["-f".to_string(), "pkg-name".to_string()];
    let flags = vec!["-y".to_string()];
    let args = install_command_args(&targets, &flags);
    let sep_pos = args.iter().position(|a| a == "--").expect("debe contener '--'");
    assert_eq!(&args[sep_pos..], &["--", "-f", "pkg-name"]);
    assert_eq!(args[0], "-S");
}

#[test]
fn build_remove_command_incluye_separador_doble_guion() {
    let targets = vec!["-f".to_string(), "pkg-name".to_string()];
    let flags = vec!["-y".to_string()];
    let args = remove_command_args(&targets, &flags);
    let sep_pos = args.iter().position(|a| a == "--").expect("debe contener '--'");
    assert_eq!(&args[sep_pos..], &["--", "-f", "pkg-name"]);
    assert_eq!(args[0], "-Ro");
}

#[test]
fn build_install_command_sin_targets_no_pone_doble_guion() {
    let targets: Vec<String> = vec![];
    let flags = vec!["-u".to_string()];
    let args = install_command_args(&targets, &flags);
    assert!(!args.iter().any(|a| a == "--"));
    assert_eq!(args, vec!["-S".to_string(), "-u".to_string()]);
}

#[test]
fn repo_list_keeps_official_urls_only() {
    let text = "0 https://repo-default.voidlinux.org/current (RSA signed)\n\
                1 /home/u/.cache/vary/void-packages/hostdir/binpkgs (unsigned)\n\
                2 file:///home/u/void-packages/hostdir/binpkgs (unsigned)\n\
                3 http://mirror.example/current/nonfree (RSA signed)\n\
                broken\n";
    assert_eq!(
        official_repo_urls_from(text),
        vec![
            "https://repo-default.voidlinux.org/current".to_string(),
            "http://mirror.example/current/nonfree".to_string()
        ]
    );
}

#[test]
fn architecture_reads_first_line() {
    assert_eq!(architecture_from_output("x86_64-musl\n").as_deref(), Some("x86_64-musl"));
    assert_eq!(architecture_from_output("  \nx86_64\n"), None);
    assert_eq!(architecture_from_output(""), None);
}

#[test]
fn pkg_info_from_hit_keeps_fields() {
    let hit = parse_search_line("[*] [nonfree] steam-1.0_2  Valve").unwrap();
    let info = PkgInfo::from_hit(hit);
    assert_eq!(info.name, "steam");
    assert_eq!(info.repository.as_deref(), Some("nonfree"));
    assert!(info.installed);
}
