use vary::listing::{flat_dirs, layout_prefix, prefixed_entries, sort_strings, with_extra_level};

fn strs(xs: &[&str]) -> Vec<String> {
    xs.iter().map(|s| s.to_string()).collect()
}

#[test]
fn lista_nivel_extra_para_categorias() {
    assert_eq!(layout_prefix("README.md\nsrcpkgs\n"), "srcpkgs");
    let top = prefixed_entries("srcpkgs/cat\nsrcpkgs/solo\n", "srcpkgs");
    assert_eq!(top, strs(&["cat", "solo"]));
    let rec = "srcpkgs/cat/nested/template\nsrcpkgs/solo/template\n";
    assert_eq!(with_extra_level(&top, rec, "srcpkgs"), strs(&["cat/nested", "solo"]));
}

#[test]
fn layouts_and_hidden_entries() {
    assert_eq!(layout_prefix("pkgs\nfoo\n"), "pkgs");
    assert_eq!(layout_prefix("foo\nbar\n"), "");
    assert_eq!(prefixed_entries("pkgs/a\npkgs/.git\nother/b\npkgs/\n", "pkgs"), strs(&["a"]));
    let flat = "100644 blob 1111\tREADME.md\n040000 tree 2222\tfoo\n040000 tree 3333\t.github\n040000 tree 4444\tbar\n";
    assert_eq!(flat_dirs(flat), strs(&["foo", "bar"]));
}

#[test]
fn extra_level_keeps_packages_with_their_own_index() {
    let top = strs(&["cat", "pkg", "bare"]);
    let rec = "srcpkgs/cat/.VURINFO\nsrcpkgs/cat/x/template\nsrcpkgs/pkg/template\nsrcpkgs/.hidden/y/template\nsrcpkgs/a/b/c/template\n";
    assert_eq!(with_extra_level(&top, rec, "srcpkgs"), strs(&["cat", "cat/x", "pkg"]));
}

#[test]
fn sort_strings_keeps_repeats() {
    assert_eq!(sort_strings(&strs(&["b", "a", "b", "A"])), strs(&["A", "a", "b", "b"]));
}
