//! Reviewing a template before it is built: where its text is looked up
//! and which pager shows it.
use vstd::prelude::*;
use crate::text::{chars_of, split_ws, split_ws_of, string_from, views};

verus! {

/// The tree paths of a package's template, in lookup order: under each
/// known layout prefix, then at the top level.
pub open spec fn template_paths_of(pkg: Seq<char>) -> Seq<Seq<char>> {
    seq!["srcpkgs/"@ + pkg + "/template"@, "pkgs/"@ + pkg + "/template"@, pkg + "/template"@]
}

/// The tree paths to try for the template of `pkg`.
pub fn template_paths(pkg: &str) -> (r: Vec<String>)
    ensures
        crate::metadata::strs_view(r@) == template_paths_of(pkg@),
{
    let mut r: Vec<String> = Vec::new();
    r.push(crate::text::concat3("srcpkgs/", pkg, "/template"));
    r.push(crate::text::concat3("pkgs/", pkg, "/template"));
    r.push(crate::text::concat(pkg, "/template"));
    assert(crate::metadata::strs_view(r@) =~= template_paths_of(pkg@));
    r
}

/// The default pager: `bat` paging a bash-highlighted text.
pub open spec fn default_pager_args() -> Seq<Seq<char>> {
    seq!["--paging=always"@, "--language=bash"@, "--style=plain"@]
}

/// The pager command and its arguments: the words of `$PAGER` when it has
/// any (so `less -R` keeps its flag), `bat` otherwise.
pub fn pager_cmd(pager: Option<&str>) -> (r: (String, Vec<String>))
    ensures
        match pager {
            Some(p) if split_ws(p@).len() > 0 => r.0@ == split_ws(p@)[0] && crate::metadata::strs_view(r.1@)
                == split_ws(p@).drop_first(),
            _ => r.0@ == "bat"@ && crate::metadata::strs_view(r.1@) == default_pager_args(),
        },
{
    if let Some(p) = pager {
        let cs = chars_of(p);
        let words = split_ws_of(cs.as_slice());
        if words.len() > 0 {
            let bin = string_from(words[0].as_slice());
            let mut args: Vec<String> = Vec::new();
            let mut i: usize = 1;
            while i < words.len()
                invariant
                    1 <= i <= words@.len(),
                    views(words@) == split_ws(p@),
                    crate::metadata::strs_view(args@) == split_ws(p@).subrange(1, i as int),
                decreases words@.len() - i,
            {
                let ghost before = args@;
                args.push(string_from(words[i as usize].as_slice()));
                proof {
                    assert(split_ws(p@).subrange(1, i as int + 1) =~= split_ws(p@).subrange(1, i as int).push(
                        words@[i as int]@,
                    ));
                    assert(crate::metadata::strs_view(args@) =~= crate::metadata::strs_view(before).push(
                        words@[i as int]@,
                    ));
                }
                i = i + 1;
            }
            assert(split_ws(p@).subrange(1, words@.len() as int) =~= split_ws(p@).drop_first());
            return (bin, args);
        }
    }
    let mut args: Vec<String> = Vec::new();
    args.push("--paging=always".to_string());
    args.push("--language=bash".to_string());
    args.push("--style=plain".to_string());
    proof {
        reveal_strlit("--paging=always");
    }
    assert(crate::metadata::strs_view(args@) =~= default_pager_args());
    ("bat".to_string(), args)
}

} // verus!
