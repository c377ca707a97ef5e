//! The stable, colourless text of a resolved plan that `-Sp` prints for
//! scripts: the same line shapes as the `-S` display.
use vstd::prelude::*;
use crate::metadata::{strs_view, VurInfo};
use crate::resolver::{Action, ActionView, BinarySource, Plan, PlanItem, PlanItemView};
use crate::text::{decimal, join, string_views};
use crate::upgrade::pkgver_of;

verus! {

/// Where an install comes from: `official` or the VUR repository.
pub open spec fn source_label(a: ActionView) -> Seq<char> {
    match a {
        ActionView::Official => "official"@,
        ActionView::VulBinary(r) => r,
        ActionView::Build => "?"@,
    }
}

/// ` (pedido como <name>)` when the package was asked for by another name.
pub open spec fn asked_as(item: PlanItemView) -> Seq<char> {
    if item.info.pkgname == item.name {
        Seq::empty()
    } else {
        " (pedido como "@ + item.name + ")"@
    }
}

/// One install: `  <source>/<pkgname>-<version> [<pkgver>]`, or only
/// `  <source>/<pkgname>` when the version is left to XBPS.
pub open spec fn install_line(item: PlanItemView) -> Seq<char> {
    let head = "  "@ + source_label(item.action) + "/"@ + item.info.pkgname;
    if item.info.version.len() == 0 {
        head
    } else {
        head + "-"@ + item.info.version + " ["@ + pkgver_of(item.info) + "]"@ + asked_as(item)
    }
}

/// One build: `    <pkgname>/<pkgver>`.
pub open spec fn build_line(item: PlanItemView) -> Seq<char> {
    "    "@ + item.info.pkgname + "/"@ + pkgver_of(item.info) + asked_as(item)
}

pub open spec fn items_view(v: Seq<PlanItem>) -> Seq<PlanItemView> {
    v.map_values(|x: PlanItem| x@)
}

/// The lines of the build levels, each under its `  level <n>:` header.
pub open spec fn level_lines(levels: Seq<Vec<PlanItem>>) -> Seq<Seq<char>>
    decreases levels.len(),
{
    if levels.len() == 0 {
        Seq::empty()
    } else {
        level_lines(levels.drop_last()) + seq!["  level "@ + decimal((levels.len() - 1) as nat) + ":"@]
            + items_view(levels.last()@).map_values(|x: PlanItemView| build_line(x))
    }
}

/// `  (none)` for an empty section.
pub open spec fn none_if(empty: bool) -> Seq<Seq<char>> {
    if empty {
        seq!["  (none)"@]
    } else {
        Seq::empty()
    }
}

/// The whole text, line by line.
pub open spec fn stable_plan(
    targets: Seq<Seq<char>>,
    installs: Seq<PlanItemView>,
    levels: Seq<Vec<PlanItem>>,
    setups: nat,
    transaction: nat,
    warnings: Seq<Seq<char>>,
) -> Seq<Seq<char>> {
    seq![
        ":: PRINT-ONLY plan for: "@ + join(targets, " "@) + " (no changes will be made)"@,
        "installs [single binary transaction]:"@,
    ] + none_if(installs.len() == 0) + installs.map_values(|x: PlanItemView| install_line(x)) + seq![
        "builds [topological levels]:"@,
    ] + none_if(levels.len() == 0) + level_lines(levels) + seq![
        "elevations [estimated total: "@ + decimal(setups + transaction) + "]:"@,
        "  repo-setup: "@ + decimal(setups),
        "  install-transaction: "@ + decimal(transaction),
    ] + warnings.map_values(|w: Seq<char>| "warning: "@ + w)
}

fn asked_as_text(item: &PlanItem) -> (r: String)
    ensures
        r@ == asked_as(item@),
{
    if item.info.pkgname == item.name {
        String::new()
    } else {
        crate::text::concat3(" (pedido como ", item.name.as_str(), ")")
    }
}

fn install_text(item: &PlanItem) -> (r: String)
    ensures
        r@ == install_line(item@),
{
    let mut r = "  ".to_string();
    match &item.action {
        Action::Install(BinarySource::Official) => crate::text::push_str(&mut r, "official"),
        Action::Install(BinarySource::VulBinary { repo }) => crate::text::push_str(&mut r, repo.as_str()),
        Action::Build => crate::text::push_str(&mut r, "?"),
    }
    crate::text::push_str(&mut r, "/");
    crate::text::push_str(&mut r, item.info.pkgname.as_str());
    if item.info.version.as_str().is_empty() {
        return r;
    }
    crate::text::push_str(&mut r, "-");
    crate::text::push_str(&mut r, item.info.version.as_str());
    crate::text::push_str(&mut r, " [");
    let pv = item.info.pkgver();
    crate::text::push_str(&mut r, pv.as_str());
    crate::text::push_str(&mut r, "]");
    let a = asked_as_text(item);
    crate::text::push_str(&mut r, a.as_str());
    r
}

fn build_text(item: &PlanItem) -> (r: String)
    ensures
        r@ == build_line(item@),
{
    let mut r = "    ".to_string();
    crate::text::push_str(&mut r, item.info.pkgname.as_str());
    crate::text::push_str(&mut r, "/");
    let pv = item.info.pkgver();
    crate::text::push_str(&mut r, pv.as_str());
    let a = asked_as_text(item);
    crate::text::push_str(&mut r, a.as_str());
    r
}

/// The text `-Sp` prints for `plan`: its installs, its builds by level
/// (`levels`, the plan's builds in topological levels), the estimated
/// elevations and the resolver's warnings.
pub fn stable_plan_lines(targets: &Vec<String>, plan: &Plan, levels: &Vec<Vec<PlanItem>>, setups: usize, transaction: usize) -> (r:
    Vec<String>)
    requires
        setups + transaction <= u64::MAX,
    ensures
        strs_view(r@) == stable_plan(
            string_views(targets@),
            items_view(plan.installs@),
            levels@,
            setups as nat,
            transaction as nat,
            strs_view(plan.warnings@),
        ),
{
    let mut r: Vec<String> = Vec::new();
    let mut head = ":: PRINT-ONLY plan for: ".to_string();
    let ts = crate::text::join_strings(targets, " ");
    crate::text::push_str(&mut head, ts.as_str());
    crate::text::push_str(&mut head, " (no changes will be made)");
    let ghost l1 = head@;
    r.push(head);
    r.push("installs [single binary transaction]:".to_string());
    if plan.installs.len() == 0 {
        r.push("  (none)".to_string());
    }
    let ghost base = strs_view(r@);
    assert(base =~= seq![l1, "installs [single binary transaction]:"@] + none_if(plan.installs@.len() == 0));
    let ghost fi = |x: PlanItemView| install_line(x);
    let mut i: usize = 0;
    while i < plan.installs.len()
        invariant
            i <= plan.installs@.len(),
            fi == (|x: PlanItemView| install_line(x)),
            strs_view(r@) == base + items_view(plan.installs@).take(i as int).map_values(fi),
        decreases plan.installs@.len() - i,
    {
        let line = install_text(&plan.installs[i]);
        let ghost before = strs_view(r@);
        r.push(line);
        proof {
            let iv = items_view(plan.installs@);
            assert(iv.take(i as int + 1) =~= iv.take(i as int).push(iv[i as int]));
            assert(iv.take(i as int + 1).map_values(fi) =~= iv.take(i as int).map_values(fi).push(fi(iv[i as int])));
            assert(strs_view(r@) =~= before.push(line@));
        }
        i = i + 1;
    }
    assert(items_view(plan.installs@).take(plan.installs@.len() as int) =~= items_view(plan.installs@));
    let ghost after_installs = strs_view(r@);
    r.push("builds [topological levels]:".to_string());
    if levels.len() == 0 {
        r.push("  (none)".to_string());
    }
    let ghost base2 = strs_view(r@);
    assert(base2 =~= after_installs + seq!["builds [topological levels]:"@] + none_if(levels@.len() == 0));
    let ghost fb = |x: PlanItemView| build_line(x);
    let mut n: usize = 0;
    while n < levels.len()
        invariant
            n <= levels@.len(),
            fb == (|x: PlanItemView| build_line(x)),
            strs_view(r@) == base2 + level_lines(levels@.take(n as int)),
        decreases levels@.len() - n,
    {
        let ghost b0 = strs_view(r@);
        let mut h = "  level ".to_string();
        let d = crate::text::decimal_string(n as u64);
        crate::text::push_str(&mut h, d.as_str());
        crate::text::push_str(&mut h, ":");
        let ghost hv = h@;
        r.push(h);
        assert(strs_view(r@) =~= b0.push(hv));
        let level = &levels[n];
        let ghost b1 = strs_view(r@);
        let mut j: usize = 0;
        while j < level.len()
            invariant
                j <= level@.len(),
                fb == (|x: PlanItemView| build_line(x)),
                strs_view(r@) == b1 + items_view(level@).take(j as int).map_values(fb),
            decreases level@.len() - j,
        {
            let line = build_text(&level[j]);
            let ghost before = strs_view(r@);
            r.push(line);
            proof {
                let iv = items_view(level@);
                assert(iv.take(j as int + 1) =~= iv.take(j as int).push(iv[j as int]));
                assert(iv.take(j as int + 1).map_values(fb) =~= iv.take(j as int).map_values(fb).push(fb(iv[j as int])));
                assert(strs_view(r@) =~= before.push(line@));
            }
            j = j + 1;
        }
        proof {
            let iv = items_view(level@);
            assert(iv.take(iv.len() as int) =~= iv);
            let t1 = levels@.take(n as int + 1);
            assert(t1.drop_last() =~= levels@.take(n as int));
            assert(t1.last() == levels@[n as int]);
            assert(hv == "  level "@ + decimal((t1.len() - 1) as nat) + ":"@);
            assert(level_lines(t1) == level_lines(levels@.take(n as int)) + seq![hv] + iv.map_values(fb));
            assert(strs_view(r@) =~= base2 + level_lines(t1));
        }
        n = n + 1;
    }
    assert(levels@.take(levels@.len() as int) =~= levels@);
    let total = (setups as u64) + (transaction as u64);
    let mut e1 = "elevations [estimated total: ".to_string();
    let t = crate::text::decimal_string(total);
    crate::text::push_str(&mut e1, t.as_str());
    crate::text::push_str(&mut e1, "]:");
    let ghost e1v = e1@;
    r.push(e1);
    let mut e2 = "  repo-setup: ".to_string();
    let s1 = crate::text::decimal_string(setups as u64);
    crate::text::push_str(&mut e2, s1.as_str());
    let ghost e2v = e2@;
    r.push(e2);
    let mut e3 = "  install-transaction: ".to_string();
    let s2 = crate::text::decimal_string(transaction as u64);
    crate::text::push_str(&mut e3, s2.as_str());
    let ghost e3v = e3@;
    r.push(e3);
    let ghost base3 = strs_view(r@);
    let ghost after_levels = base2 + level_lines(levels@);
    assert(base3 =~= after_levels + seq![e1v, e2v, e3v]);
    let ghost fw = |w: Seq<char>| "warning: "@ + w;
    let mut k: usize = 0;
    while k < plan.warnings.len()
        invariant
            k <= plan.warnings@.len(),
            fw == (|w: Seq<char>| "warning: "@ + w),
            strs_view(r@) == base3 + strs_view(plan.warnings@).take(k as int).map_values(fw),
        decreases plan.warnings@.len() - k,
    {
        let line = crate::text::concat("warning: ", plan.warnings[k].as_str());
        let ghost before = strs_view(r@);
        r.push(line);
        proof {
            let wv = strs_view(plan.warnings@);
            assert(wv.take(k as int + 1) =~= wv.take(k as int).push(wv[k as int]));
            assert(wv.take(k as int + 1).map_values(fw) =~= wv.take(k as int).map_values(fw).push(fw(wv[k as int])));
            assert(strs_view(r@) =~= before.push(line@));
        }
        k = k + 1;
    }
    proof {
        let wv = strs_view(plan.warnings@);
        assert(wv.take(wv.len() as int) =~= wv);
        assert(l1 == ":: PRINT-ONLY plan for: "@ + join(string_views(targets@), " "@) + " (no changes will be made)"@);
        assert(e1v == "elevations [estimated total: "@ + decimal(setups as nat + transaction as nat) + "]:"@);
        assert(strs_view(r@) =~= stable_plan(
            string_views(targets@),
            items_view(plan.installs@),
            levels@,
            setups as nat,
            transaction as nat,
            wv,
        ));
    }
    r
}

} // verus!
