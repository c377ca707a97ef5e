//! `vary -Si`: the package details shown for a target found in the
//! official repositories or in a VUR index.
use vstd::prelude::*;
use crate::metadata::{strs_view, SubpackageView, VurInfo, VurInfoView};
use crate::text::{decimal, join, trim};
use crate::upgrade::pkgver_of;

verus! {

/// Whether a package answers for `target`: by its name or a subpackage's.
pub open spec fn answers_for(info: VurInfoView, target: Seq<char>) -> bool {
    info.pkgname == target || is_sub(info, target)
}

pub open spec fn is_sub(info: VurInfoView, target: Seq<char>) -> bool {
    exists|i: int| 0 <= i < info.subpackages.len() && #[trigger] info.subpackages[i].pkgname == target
}

/// `label` then the value, when the list is not empty.
pub open spec fn list_field(label: Seq<char>, items: Seq<Seq<char>>, sep: Seq<char>) -> Seq<Seq<char>> {
    if items.len() == 0 {
        Seq::empty()
    } else {
        seq![label + join(items, sep)]
    }
}

pub open spec fn opt_field(label: Seq<char>, o: Option<Seq<char>>) -> Seq<Seq<char>> {
    match o {
        Some(v) => seq![label + v],
        None => Seq::empty(),
    }
}

/// The details of a VUR package, ending with an empty line.
pub open spec fn info_text(repo: Seq<char>, has_binary: bool, info: VurInfoView, target: Seq<char>) -> Seq<Seq<char>> {
    seq!["Repository      : vur:"@ + repo, "Package         : "@ + info.pkgname] + (if is_sub(info, target) {
        seq!["Subpackage      : "@ + target]
    } else {
        Seq::empty()
    }) + seq![
        "Version         : "@ + info.version,
        "Revision        : "@ + decimal(info.revision as nat),
        "Pkgver          : "@ + pkgver_of(info),
        "Archs           : "@ + join(info.archs, ", "@),
    ] + opt_field("Build style     : "@, info.build_style) + list_field("Depends         : "@, info.depends, " "@)
        + list_field("Hostmakedeps    : "@, info.hostmakedepends, " "@) + list_field(
        "Makedepends     : "@,
        info.makedepends,
        " "@,
    ) + list_field("Provides        : "@, info.provides, " "@) + list_field(
        "Replaces        : "@,
        info.replaces,
        " "@,
    ) + opt_field("Maintainer      : "@, info.maintainer) + list_field(
        "Subpackages     : "@,
        info.subpackages.map_values(|s: SubpackageView| s.pkgname),
        ", "@,
    ) + seq![
        "Restricted      : "@ + (if info.restricted {
            "true"@
        } else {
            "false"@
        }),
        "Binary avail    : "@ + (if has_binary {
            "yes"@
        } else {
            "no (source only)"@
        }),
        Seq::empty(),
    ]
}

/// The details the official repositories gave for `target` (the query's
/// output, trimmed), ending with an empty line.
pub open spec fn official_text(target: Seq<char>, output: Seq<char>) -> Seq<Seq<char>> {
    seq!["Repository      : official"@, "Package         : "@ + target, "Info            : "@ + trim(output), Seq::empty()]
}

pub fn official_info_lines(target: &str, output: &str) -> (r: Vec<String>)
    ensures
        strs_view(r@) == official_text(target@, output@),
{
    let mut r: Vec<String> = Vec::new();
    r.push("Repository      : official".to_string());
    r.push(crate::text::concat("Package         : ", target));
    let t = crate::text::trim_string(output);
    r.push(crate::text::concat("Info            : ", t.as_str()));
    r.push(String::new());
    assert(strs_view(r@) =~= official_text(target@, output@));
    r
}

pub fn answers_for_target(info: &VurInfo, target: &str) -> (r: bool)
    ensures
        r == answers_for(info@, target@),
{
    let t = target.to_owned();
    info.pkgname == t || sub_named(info, target)
}

fn sub_named(info: &VurInfo, target: &str) -> (r: bool)
    ensures
        r == is_sub(info@, target@),
{
    let t = target.to_owned();
    let mut i: usize = 0;
    while i < info.subpackages.len()
        invariant
            i <= info.subpackages@.len(),
            t@ == target@,
            forall|j: int| 0 <= j < i ==> info@.subpackages[j].pkgname != target@,
        decreases info.subpackages@.len() - i,
    {
        if info.subpackages[i].pkgname == t {
            assert(info@.subpackages[i as int].pkgname == target@);
            return true;
        }
        i = i + 1;
    }
    false
}

fn push_list(r: &mut Vec<String>, label: &str, items: &Vec<String>, sep: &str)
    ensures
        strs_view(final(r)@) == strs_view(old(r)@) + list_field(label@, strs_view(items@), sep@),
{
    if items.len() > 0 {
        let j = crate::text::join_strings(items, sep);
        r.push(crate::text::concat(label, j.as_str()));
        assert(crate::text::string_views(items@) == strs_view(items@));
    }
    assert(strs_view(r@) =~= strs_view(old(r)@) + list_field(label@, strs_view(items@), sep@));
}

fn push_opt(r: &mut Vec<String>, label: &str, o: &Option<String>)
    ensures
        strs_view(final(r)@) == strs_view(old(r)@) + opt_field(label@, crate::metadata::opt_view(*o)),
{
    match o {
        Some(v) => r.push(crate::text::concat(label, v.as_str())),
        None => {},
    }
    assert(strs_view(r@) =~= strs_view(old(r)@) + opt_field(label@, crate::metadata::opt_view(*o)));
}

/// The lines `-Si` shows for a VUR package answering for `target`.
pub fn info_lines(repo: &str, has_binary: bool, info: &VurInfo, target: &str) -> (r: Vec<String>)
    ensures
        strs_view(r@) == info_text(repo@, has_binary, info@, target@),
{
    let ghost v = info@;
    let mut r: Vec<String> = Vec::new();
    r.push(crate::text::concat("Repository      : vur:", repo));
    r.push(crate::text::concat("Package         : ", info.pkgname.as_str()));
    if sub_named(info, target) {
        r.push(crate::text::concat("Subpackage      : ", target));
    }
    let ghost p1 = strs_view(r@);
    assert(p1 =~= seq!["Repository      : vur:"@ + repo@, "Package         : "@ + v.pkgname] + (if is_sub(v, target@) {
        seq!["Subpackage      : "@ + target@]
    } else {
        Seq::empty()
    }));
    r.push(crate::text::concat("Version         : ", info.version.as_str()));
    let rev = crate::text::decimal_string(info.revision as u64);
    r.push(crate::text::concat("Revision        : ", rev.as_str()));
    let pv = info.pkgver();
    r.push(crate::text::concat("Pkgver          : ", pv.as_str()));
    let archs = crate::text::join_strings(&info.archs, ", ");
    r.push(crate::text::concat("Archs           : ", archs.as_str()));
    let ghost p2 = strs_view(r@);
    assert(crate::text::string_views(info.archs@) == v.archs);
    assert(p2 =~= p1 + seq![
        "Version         : "@ + v.version,
        "Revision        : "@ + decimal(v.revision as nat),
        "Pkgver          : "@ + pkgver_of(v),
        "Archs           : "@ + join(v.archs, ", "@),
    ]);
    push_opt(&mut r, "Build style     : ", &info.build_style);
    push_list(&mut r, "Depends         : ", &info.depends, " ");
    push_list(&mut r, "Hostmakedeps    : ", &info.hostmakedepends, " ");
    push_list(&mut r, "Makedepends     : ", &info.makedepends, " ");
    push_list(&mut r, "Provides        : ", &info.provides, " ");
    push_list(&mut r, "Replaces        : ", &info.replaces, " ");
    push_opt(&mut r, "Maintainer      : ", &info.maintainer);
    let ghost p3 = strs_view(r@);
    assert(p3 =~= p2 + opt_field("Build style     : "@, v.build_style) + list_field("Depends         : "@, v.depends, " "@)
        + list_field("Hostmakedeps    : "@, v.hostmakedepends, " "@) + list_field(
        "Makedepends     : "@,
        v.makedepends,
        " "@,
    ) + list_field("Provides        : "@, v.provides, " "@) + list_field("Replaces        : "@, v.replaces, " "@)
        + opt_field("Maintainer      : "@, v.maintainer));
    let mut subs: Vec<String> = Vec::new();
    let mut i: usize = 0;
    while i < info.subpackages.len()
        invariant
            i <= info.subpackages@.len(),
            v == info@,
            strs_view(subs@) == v.subpackages.map_values(|s: SubpackageView| s.pkgname).take(i as int),
        decreases info.subpackages@.len() - i,
    {
        let ghost before = strs_view(subs@);
        subs.push(info.subpackages[i].pkgname.clone());
        proof {
            let names = v.subpackages.map_values(|s: SubpackageView| s.pkgname);
            assert(names.take(i as int + 1) =~= names.take(i as int).push(names[i as int]));
            assert(strs_view(subs@) =~= before.push(names[i as int]));
        }
        i = i + 1;
    }
    assert(v.subpackages.map_values(|s: SubpackageView| s.pkgname).take(v.subpackages.len() as int)
        =~= v.subpackages.map_values(|s: SubpackageView| s.pkgname));
    push_list(&mut r, "Subpackages     : ", &subs, ", ");
    let ghost p4 = strs_view(r@);
    let restricted = if info.restricted {
        "true"
    } else {
        "false"
    };
    r.push(crate::text::concat("Restricted      : ", restricted));
    let avail = if has_binary {
        "yes"
    } else {
        "no (source only)"
    };
    r.push(crate::text::concat("Binary avail    : ", avail));
    r.push(String::new());
    proof {
        assert(strs_view(r@) =~= p4 + seq![
            "Restricted      : "@ + (if v.restricted {
                "true"@
            } else {
                "false"@
            }),
            "Binary avail    : "@ + (if has_binary {
                "yes"@
            } else {
                "no (source only)"@
            }),
            Seq::empty(),
        ]);
        assert(strs_view(r@) =~= info_text(repo@, has_binary, info@, target@));
    }
    r
}

} // verus!
