//! Which VUR templates declare a package as a dependency.
use vstd::prelude::*;
use crate::resolver::{dep_base, dep_name};
use crate::text::chars_of;
use crate::version::{lemma_text_order_antisym, lemma_text_order_trans, lemma_text_order_zero, text_order, text_order_exec};

verus! {

/// Order of `(repository, template)` pairs: by repository, then template.
pub open spec fn pair_order(a: (Seq<char>, Seq<char>), b: (Seq<char>, Seq<char>)) -> int {
    if text_order(a.0, b.0) != 0 {
        text_order(a.0, b.0)
    } else {
        text_order(a.1, b.1)
    }
}

pub open spec fn pairs_sorted(v: Seq<(Seq<char>, Seq<char>)>) -> bool {
    forall|i: int, j: int| 0 <= i < j < v.len() ==> pair_order(v[i], v[j]) < 0
}

pub open spec fn pairs_view(v: Seq<(String, String)>) -> Seq<(Seq<char>, Seq<char>)> {
    v.map_values(|p: (String, String)| (p.0@, p.1@))
}

proof fn lemma_pair_order(a: (Seq<char>, Seq<char>), b: (Seq<char>, Seq<char>))
    ensures
        (pair_order(a, b) == 0) == (a == b),
        pair_order(a, b) == -pair_order(b, a),
{
    lemma_text_order_zero(a.0, b.0);
    lemma_text_order_zero(a.1, b.1);
    lemma_text_order_antisym(a.0, b.0);
    lemma_text_order_antisym(a.1, b.1);
}

proof fn lemma_pair_order_trans(a: (Seq<char>, Seq<char>), b: (Seq<char>, Seq<char>), c: (Seq<char>, Seq<char>))
    requires
        pair_order(a, b) < 0,
        pair_order(b, c) < 0,
    ensures
        pair_order(a, c) < 0,
{
    lemma_text_order_zero(a.0, b.0);
    lemma_text_order_zero(b.0, c.0);
    lemma_text_order_zero(a.0, c.0);
    if text_order(a.0, b.0) != 0 && text_order(b.0, c.0) != 0 {
        lemma_text_order_trans(a.0, b.0, c.0);
    } else if text_order(a.0, b.0) == 0 && text_order(b.0, c.0) == 0 {
        lemma_text_order_trans(a.1, b.1, c.1);
    }
}

fn pair_order_exec(a: &(String, String), b: &(String, String)) -> (r: i8)
    ensures
        r == pair_order((a.0@, a.1@), (b.0@, b.1@)),
{
    let c = text_order_exec(&chars_of(a.0.as_str()), &chars_of(b.0.as_str()));
    if c != 0 {
        c
    } else {
        text_order_exec(&chars_of(a.1.as_str()), &chars_of(b.1.as_str()))
    }
}

/// Adds `x` to a sorted list of pairs at its place, unless present.
fn insert_pair(out: &mut Vec<(String, String)>, x: (String, String))
    requires
        pairs_sorted(pairs_view(old(out)@)),
    ensures
        pairs_sorted(pairs_view(final(out)@)),
        forall|y: (Seq<char>, Seq<char>)| #[trigger] pairs_view(final(out)@).contains(y) <==> (pairs_view(
            old(out)@,
        ).contains(y) || y == (x.0@, x.1@)),
{
    let ghost prev = pairs_view(out@);
    let ghost xv = (x.0@, x.1@);
    let mut pos: usize = 0;
    while pos < out.len() && pair_order_exec(&out[pos], &x) < 0
        invariant
            pos <= out@.len(),
            prev == pairs_view(out@),
            xv == (x.0@, x.1@),
            forall|m: int| 0 <= m < pos ==> pair_order(prev[m], xv) < 0,
        decreases out@.len() - pos,
    {
        assert(prev[pos as int] == (out@[pos as int].0@, out@[pos as int].1@));
        pos = pos + 1;
    }
    if pos < out.len() && pair_order_exec(&out[pos], &x) == 0 {
        proof {
            assert(prev[pos as int] == (out@[pos as int].0@, out@[pos as int].1@));
            lemma_pair_order(prev[pos as int], xv);
            assert forall|y: (Seq<char>, Seq<char>)| #[trigger] pairs_view(out@).contains(y) <==> (
            prev.contains(y) || y == xv) by {
                if y == xv {
                    assert(prev[pos as int] == y);
                }
            }
        }
        return;
    }
    proof {
        if pos < prev.len() {
            assert(prev[pos as int] == (out@[pos as int].0@, out@[pos as int].1@));
            lemma_pair_order(prev[pos as int], xv);
        }
    }
    out.insert(pos, x);
    proof {
        let o = pairs_view(out@);
        assert(o =~= prev.insert(pos as int, xv));
        assert forall|a: int, b: int| 0 <= a < b < o.len() implies pair_order(o[a], o[b]) < 0 by {
            if b < pos {
                assert(o[a] == prev[a] && o[b] == prev[b]);
            } else if b == pos {
                assert(o[a] == prev[a]);
            } else if a == pos {
                assert(o[b] == prev[b - 1]);
                if b - 1 > pos {
                    lemma_pair_order_trans(xv, prev[pos as int], prev[b - 1]);
                }
            } else if a < pos {
                assert(o[a] == prev[a] && o[b] == prev[b - 1]);
            } else {
                assert(o[a] == prev[a - 1] && o[b] == prev[b - 1]);
            }
        }
        assert forall|y: (Seq<char>, Seq<char>)| #[trigger] o.contains(y) <==> (prev.contains(y) || y == xv) by {
            if o.contains(y) {
                let m = choose|m: int| 0 <= m < o.len() && o[m] == y;
                if m < pos {
                    assert(prev[m] == y);
                } else if m > pos {
                    assert(prev[m - 1] == y);
                }
            }
            if prev.contains(y) {
                let m = choose|m: int| 0 <= m < prev.len() && prev[m] == y;
                if m < pos {
                    assert(o[m] == y);
                } else {
                    assert(o[m + 1] == y);
                }
            }
            if y == xv {
                assert(o[pos as int] == y);
            }
        }
    }
}

/// Whether a dependency list names `target` (version constraints cut off).
pub open spec fn names_dep(deps: Seq<String>, target: Seq<char>) -> bool {
    exists|d: int| 0 <= d < deps.len() && dep_base(deps[d]@) == target
}

/// Whether template `p` (repository, name) of `templates` declares `target`.
pub open spec fn declares(templates: Seq<(&str, &str, Vec<String>)>, target: Seq<char>, p: (Seq<char>, Seq<char>)) -> bool {
    exists|i: int|
        0 <= i < templates.len() && templates[i].0@ == p.0 && templates[i].1@ == p.1 && names_dep(
            templates[i].2@,
            target,
        )
}

/// The templates, given as (repository, name, dependency strings), that
/// declare `target`: each once, ordered by repository then name.
pub fn find_declarers(target: &str, templates: &[(&str, &str, Vec<String>)]) -> (r: Vec<(String, String)>)
    ensures
        pairs_sorted(pairs_view(r@)),
        forall|p: (Seq<char>, Seq<char>)| pairs_view(r@).contains(p) <==> declares(templates@, target@, p),
{
    let mut out: Vec<(String, String)> = Vec::new();
    assert(pairs_view(out@) =~= Seq::<(Seq<char>, Seq<char>)>::empty());
    let tv = chars_of(target);
    let mut i: usize = 0;
    while i < templates.len()
        invariant
            i <= templates@.len(),
            tv@ == target@,
            pairs_sorted(pairs_view(out@)),
            forall|p: (Seq<char>, Seq<char>)| pairs_view(out@).contains(p) <==> declares(templates@.take(i as int), target@, p),
        decreases templates@.len() - i,
    {
        let deps = &templates[i].2;
        let mut hit = false;
        let mut k: usize = 0;
        while k < deps.len()
            invariant
                k <= deps@.len(),
                tv@ == target@,
                hit <==> exists|d: int| 0 <= d < k && dep_base(deps@[d]@) == target@,
            decreases deps@.len() - k,
        {
            let n = dep_name(deps[k].as_str());
            if crate::text::chars_eq(&chars_of(n.as_str()), &tv) {
                hit = true;
            }
            k = k + 1;
        }
        let ghost before = pairs_view(out@);
        let ghost t0 = templates@.take(i as int);
        let ghost t1 = templates@.take(i + 1);
        assert(t1 =~= t0.push(templates@[i as int]));
        if hit {
            insert_pair(&mut out, (templates[i].0.to_string(), templates[i].1.to_string()));
        }
        proof {
            let ti = templates@[i as int];
            assert forall|p: (Seq<char>, Seq<char>)| pairs_view(out@).contains(p) <==> declares(t1, target@, p) by {
                if declares(t1, target@, p) {
                    let j = choose|j: int| 0 <= j < t1.len() && t1[j].0@ == p.0 && t1[j].1@ == p.1 && names_dep(t1[j].2@, target@);
                    if j < i {
                        assert(t0[j] == t1[j]);
                        assert(declares(t0, target@, p));
                    } else {
                        assert(hit);
                    }
                }
                if declares(t0, target@, p) {
                    let j = choose|j: int| 0 <= j < t0.len() && t0[j].0@ == p.0 && t0[j].1@ == p.1 && names_dep(t0[j].2@, target@);
                    assert(t1[j] == t0[j]);
                }
                if hit && p == (ti.0@, ti.1@) {
                    assert(t1[i as int] == ti);
                }
            }
        }
        i = i + 1;
    }
    assert(templates@.take(templates@.len() as int) =~= templates@);
    out
}

/// The dependencies a template declares: host build, build, then run time.
pub open spec fn template_deps_of(info: crate::metadata::VurInfoView) -> Seq<Seq<char>> {
    info.hostmakedepends + info.makedepends + info.depends
}

pub fn template_deps(info: &crate::metadata::VurInfo) -> (r: Vec<String>)
    ensures
        crate::metadata::strs_view(r@) == template_deps_of(info@),
{
    let mut r = crate::metadata::clone_strings(&info.hostmakedepends);
    let mut m = crate::metadata::clone_strings(&info.makedepends);
    let mut d = crate::metadata::clone_strings(&info.depends);
    let ghost a = r@;
    let ghost b = m@;
    let ghost c = d@;
    r.append(&mut m);
    r.append(&mut d);
    assert(crate::metadata::strs_view(r@) =~= crate::metadata::strs_view(a) + crate::metadata::strs_view(b)
        + crate::metadata::strs_view(c));
    r
}

pub open spec fn install_type_name(t: crate::db::InstallType) -> Seq<char> {
    match t {
        crate::db::InstallType::Source => "Source"@,
        crate::db::InstallType::Binary => "Binary"@,
    }
}

/// What `--why` reports: whether vary manages the package, which
/// installed packages require it (as XBPS lists them), and which VUR
/// templates declare it.
pub open spec fn explain_text(
    pkg: Seq<char>,
    managed: Option<crate::db::Entry>,
    rdeps: Seq<Seq<char>>,
    declarers: Seq<(Seq<char>, Seq<char>)>,
) -> Seq<Seq<char>> {
    seq!["why "@ + pkg + ":"@] + match managed {
        Some(e) => seq![
            "  gestionado-por-vary: "@ + e.version@ + " ["@ + e.vur@ + "] ("@ + install_type_name(e.install_type)
                + ")"@,
        ],
        None => seq!["  gestionado-por-vary: no (lo gestiona xbps)"@],
    } + (if rdeps.len() > 0 {
        seq!["  requerido-por-instalados [xbps -X]:"@] + rdeps.map_values(|r: Seq<char>| "    "@ + r)
    } else {
        seq!["  requerido-por-instalados: (ninguno)"@]
    }) + (if declarers.len() == 0 {
        seq!["  declarado-en-plantillas-VUR: (ninguno)"@]
    } else {
        seq!["  declarado-en-plantillas-VUR:"@] + declarers.map_values(
            |d: (Seq<char>, Seq<char>)| "    "@ + d.0 + "/"@ + d.1,
        )
    })
}

/// The report of `--why <pkg>`: refused for a name that is not a package
/// name. `rdeps` is `None` when XBPS could not be asked.
pub fn explain_lines(
    pkg: &str,
    managed: Option<&crate::db::Entry>,
    rdeps: Option<&Vec<String>>,
    declarers: &Vec<(String, String)>,
) -> (r: Result<Vec<String>, String>)
    ensures
        !crate::metadata::valid_pkgname(pkg@) <==> r is Err,
        r matches Err(m) ==> m@ == crate::remove::invalid_target_message(pkg@),
        r matches Ok(lines) ==> crate::metadata::strs_view(lines@) == explain_text(
            pkg@,
            match managed {
                Some(e) => Some(*e),
                None => None,
            },
            match rdeps {
                Some(v) => crate::metadata::strs_view(v@),
                None => Seq::empty(),
            },
            pairs_view(declarers@),
        ),
{
    if !crate::metadata::is_valid_pkgname(pkg) {
        return Err(
            crate::text::concat3(
                "nombre de paquete inválido: '",
                pkg,
                "' (debe coincidir con ^[a-zA-Z0-9][a-zA-Z0-9._+-]*$)",
            ),
        );
    }
    let ghost rv = match rdeps {
        Some(v) => crate::metadata::strs_view(v@),
        None => Seq::<Seq<char>>::empty(),
    };
    let mut r: Vec<String> = Vec::new();
    r.push(crate::text::concat3("why ", pkg, ":"));
    match managed {
        Some(e) => {
            let mut l = crate::text::concat3("  gestionado-por-vary: ", e.version.as_str(), " [");
            crate::text::push_str(&mut l, e.vur.as_str());
            crate::text::push_str(&mut l, "] (");
            let t = match e.install_type {
                crate::db::InstallType::Source => "Source",
                crate::db::InstallType::Binary => "Binary",
            };
            crate::text::push_str(&mut l, t);
            crate::text::push_str(&mut l, ")");
            r.push(l);
        },
        None => r.push("  gestionado-por-vary: no (lo gestiona xbps)".to_string()),
    }
    let ghost p1 = crate::metadata::strs_view(r@);
    let ghost mg = match managed {
        Some(e) => Some(*e),
        None => None,
    };
    assert(p1 =~= seq!["why "@ + pkg@ + ":"@] + match mg {
        Some(e) => seq![
            "  gestionado-por-vary: "@ + e.version@ + " ["@ + e.vur@ + "] ("@ + install_type_name(e.install_type)
                + ")"@,
        ],
        None => seq!["  gestionado-por-vary: no (lo gestiona xbps)"@],
    });
    let empty: Vec<String> = Vec::new();
    let rd = match rdeps {
        Some(v) => v,
        None => &empty,
    };
    assert(crate::metadata::strs_view(rd@) == rv);
    if rd.len() > 0 {
        r.push("  requerido-por-instalados [xbps -X]:".to_string());
        let ghost q = crate::metadata::strs_view(r@);
        let ghost f = |x: Seq<char>| "    "@ + x;
        let mut i: usize = 0;
        while i < rd.len()
            invariant
                i <= rd@.len(),
                f == (|x: Seq<char>| "    "@ + x),
                crate::metadata::strs_view(r@) == q + crate::metadata::strs_view(rd@).take(i as int).map_values(f),
            decreases rd@.len() - i,
        {
            let ghost before = crate::metadata::strs_view(r@);
            r.push(crate::text::concat("    ", rd[i].as_str()));
            proof {
                let w = crate::metadata::strs_view(rd@);
                assert(w.take(i as int + 1) =~= w.take(i as int).push(w[i as int]));
                assert(w.take(i as int + 1).map_values(f) =~= w.take(i as int).map_values(f).push(f(w[i as int])));
                assert(crate::metadata::strs_view(r@) =~= before.push(f(w[i as int])));
            }
            i = i + 1;
        }
        assert(crate::metadata::strs_view(rd@).take(rd@.len() as int) =~= crate::metadata::strs_view(rd@));
    } else {
        r.push("  requerido-por-instalados: (ninguno)".to_string());
    }
    let ghost p2 = crate::metadata::strs_view(r@);
    assert(p2 =~= p1 + (if rv.len() > 0 {
        seq!["  requerido-por-instalados [xbps -X]:"@] + rv.map_values(|x: Seq<char>| "    "@ + x)
    } else {
        seq!["  requerido-por-instalados: (ninguno)"@]
    }));
    if declarers.len() == 0 {
        r.push("  declarado-en-plantillas-VUR: (ninguno)".to_string());
    } else {
        r.push("  declarado-en-plantillas-VUR:".to_string());
        let ghost q = crate::metadata::strs_view(r@);
        let ghost f = |d: (Seq<char>, Seq<char>)| "    "@ + d.0 + "/"@ + d.1;
        let mut i: usize = 0;
        while i < declarers.len()
            invariant
                i <= declarers@.len(),
                f == (|d: (Seq<char>, Seq<char>)| "    "@ + d.0 + "/"@ + d.1),
                crate::metadata::strs_view(r@) == q + pairs_view(declarers@).take(i as int).map_values(f),
            decreases declarers@.len() - i,
        {
            let ghost before = crate::metadata::strs_view(r@);
            let mut l = crate::text::concat3("    ", declarers[i].0.as_str(), "/");
            crate::text::push_str(&mut l, declarers[i].1.as_str());
            r.push(l);
            proof {
                let w = pairs_view(declarers@);
                assert(w.take(i as int + 1) =~= w.take(i as int).push(w[i as int]));
                assert(w.take(i as int + 1).map_values(f) =~= w.take(i as int).map_values(f).push(f(w[i as int])));
                assert(crate::metadata::strs_view(r@) =~= before.push(f(w[i as int])));
            }
            i = i + 1;
        }
        assert(pairs_view(declarers@).take(declarers@.len() as int) =~= pairs_view(declarers@));
    }
    proof {
        let dv = pairs_view(declarers@);
        assert(crate::metadata::strs_view(r@) =~= p2 + (if dv.len() == 0 {
            seq!["  declarado-en-plantillas-VUR: (ninguno)"@]
        } else {
            seq!["  declarado-en-plantillas-VUR:"@] + dv.map_values(
                |d: (Seq<char>, Seq<char>)| "    "@ + d.0 + "/"@ + d.1,
            )
        }));
        assert(crate::metadata::strs_view(r@) =~= explain_text(pkg@, mg, rv, dv));
    }
    Ok(r)
}

} // verus!
