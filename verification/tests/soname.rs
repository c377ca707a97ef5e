use vary::soname::{
    check_db_entry, detect, format_drift, rundep_base, snapshot, QueryTable, SonameDrift,
    SonamePins,
};

fn table_rows(raw: Vec<((&str, &str), Vec<&str>)>) -> QueryTable {
    QueryTable {
        rows: raw
            .into_iter()
            .map(|((p, k), v)| {
                (
                    (p.to_string(), k.to_string()),
                    v.into_iter().map(str::to_string).collect(),
                )
            })
            .collect(),
    }
}

fn table() -> Vec<((&'static str, &'static str), Vec<&'static str>)> {
    vec![
        (
            ("demo", "shlib-requires"),
            vec!["libc.so.6", "libcurl.so.4", "libz.so.1"],
        ),
        (
            ("demo", "run_depends"),
            vec![
                "ca-certificates>=0",
                "glibc>=2.41_1",
                "libcurl>=8.22.0_1",
                "zlib>=1.2.3_1",
            ],
        ),
        (("glibc", "shlib-provides"), vec!["libc.so.6"]),
        (("glibc", "pkgver"), vec!["glibc-2.41_1"]),
        (("libcurl", "shlib-provides"), vec!["libcurl.so.4"]),
        (("libcurl", "pkgver"), vec!["libcurl-8.22.0_1"]),
        (("zlib", "shlib-provides"), vec!["libz.so.1"]),
        (("zlib", "pkgver"), vec!["zlib-1.3.1_1"]),
    ]
}

fn pins(entries: &[(&str, &str)]) -> SonamePins {
    let mut v: Vec<(String, String)> = entries
        .iter()
        .map(|(k, x)| (k.to_string(), x.to_string()))
        .collect();
    v.sort();
    SonamePins { entries: v }
}

#[test]
fn snapshot_mapea_cada_shlib_a_su_proveedor() {
    let q = table_rows(table());
    let pins = snapshot(&q, "demo");
    assert_eq!(pins.get("libc.so.6").map(String::as_str), Some("glibc-2.41_1"));
    assert_eq!(
        pins.get("libcurl.so.4").map(String::as_str),
        Some("libcurl-8.22.0_1")
    );
    assert_eq!(pins.get("libz.so.1").map(String::as_str), Some("zlib-1.3.1_1"));
    assert_eq!(pins.len(), 3);
}

#[test]
fn snapshot_omite_shlib_sin_proveedor_conocido() {
    let mut t = table();
    t[0] = (("demo", "shlib-requires"), vec!["libc.so.6", "libfantasma.so.9"]);
    let q = table_rows(t);
    let pins = snapshot(&q, "demo");
    assert!(!pins.contains_key("libfantasma.so.9"));
    assert_eq!(pins.len(), 1);
}

#[test]
fn snapshot_vacio_si_paquete_sin_shlibs_o_sin_xbps() {
    let q = table_rows(vec![]);
    assert!(snapshot(&q, "inexistente").is_empty());
    let mut t = table();
    t[0] = (("demo", "shlib-requires"), vec![]);
    let q = table_rows(t);
    assert!(snapshot(&q, "demo").is_empty());
}

#[test]
fn rundep_base_recorta_operadores() {
    assert_eq!(rundep_base("libcurl>=8.22.0_1"), "libcurl");
    assert_eq!(rundep_base("foo<=1.0"), "foo");
    assert_eq!(rundep_base("bar=2.0_1"), "bar");
    assert_eq!(rundep_base("simple"), "simple");
}

fn pinned_demo() -> SonamePins {
    pins(&[
        ("libc.so.6", "glibc-2.41_1"),
        ("libcurl.so.4", "libcurl-8.22.0_1"),
    ])
}

fn required_of(p: &SonamePins) -> Vec<String> {
    p.entries.iter().map(|(k, _)| k.clone()).collect()
}

#[test]
fn detect_silencio_si_todo_igual() {
    let p = pinned_demo();
    let required = required_of(&p);
    assert!(detect(&p, &pinned_demo(), &required).is_empty());
}

#[test]
fn detect_bumped_cuando_proveedor_cambia_version() {
    let p = pinned_demo();
    let fresh = pins(&[
        ("libc.so.6", "glibc-2.41_1"),
        ("libcurl.so.4", "libcurl-8.23.0_1"),
    ]);
    let required = required_of(&p);
    let drifts = detect(&p, &fresh, &required);
    assert_eq!(drifts.len(), 1);
    assert_eq!(
        drifts[0],
        SonameDrift::Bumped {
            shlib: "libcurl.so.4".to_string(),
            from: "libcurl-8.22.0_1".to_string(),
            to: "libcurl-8.23.0_1".to_string(),
        }
    );
}

#[test]
fn detect_orfano_si_soname_desaparece_de_proveedores() {
    let p = pinned_demo();
    let fresh = pins(&[("libc.so.6", "glibc-2.41_1")]);
    let required = required_of(&p);
    let drifts = detect(&p, &fresh, &required);
    assert_eq!(drifts.len(), 1);
    assert!(matches!(drifts[0], SonameDrift::Orphaned { .. }));
}

#[test]
fn detect_silencio_si_paquete_ya_no_requiere_el_soname() {
    let p = pinned_demo();
    let fresh = pins(&[("libc.so.6", "glibc-2.41_1")]);
    let required = vec!["libc.so.6".to_string()];
    assert!(detect(&p, &fresh, &required).is_empty());
}

#[test]
fn format_menciona_paquete_y_versiones() {
    let d = SonameDrift::Bumped {
        shlib: "libcurl.so.4".to_string(),
        from: "libcurl-8.22.0_1".to_string(),
        to: "libcurl-8.23.0_1".to_string(),
    };
    let msg = format_drift("demo", &d);
    assert!(msg.contains("demo") && msg.contains("8.23.0_1"), "{msg}");
    let o = SonameDrift::Orphaned {
        shlib: "libx.so.1".to_string(),
        pinned: "libx-1.0_1".to_string(),
    };
    assert!(format_drift("demo", &o).contains("recompila"), "{o:?}");
}

#[test]
fn db_entry_check_compares_against_the_live_answers() {
    let q = table_rows(table());
    assert!(check_db_entry("demo", &SonamePins::new(), &q).is_empty());
    let old = pins(&[("libcurl.so.4", "libcurl-8.21.0_1")]);
    let drifts = check_db_entry("demo", &old, &q);
    assert_eq!(
        drifts,
        vec![SonameDrift::Bumped {
            shlib: "libcurl.so.4".to_string(),
            from: "libcurl-8.21.0_1".to_string(),
            to: "libcurl-8.22.0_1".to_string(),
        }]
    );
}
