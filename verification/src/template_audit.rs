//! Static audit of VUR templates. Findings are advisory: they are shown
//! above the diff or template at the review gate and change nothing else.
//!
//! Rules (documented heuristics, no shell parsing):
//! * `checksum-ausente` (High): the template downloads (non-empty
//!   `distfiles=`, or `do_fetch` with `curl`/`wget` outside dependency
//!   lines) but declares no `checksum=`/`sha256sums=`; on an upgrade, only
//!   when the old template did verify.
//! * `descarga-en-build` (High): a line downloading at build time (`npm
//!   install|ci`, `pip[3] install`, `wget`, or `curl` piped to a shell,
//!   with `-o`/`-O` or a URL).
//! * `url-nueva` (Medium, upgrades only): an added line with a URL.
//! * `hook-nuevo` (Medium, upgrades only): an added `do_*`/`pre_*`/`post_*`
//!   function.
use vstd::prelude::*;
use crate::text::{
    chars_of, contains, find, has_prefix, is_ascii_alnum, lines, lines_of, push_str, str_contains,
    str_starts, string_from, trim, trim_start, trim_start_vec, trim_vec, views,
};

verus! {

/// How serious a finding is.
#[derive(Debug, Clone, Copy, PartialEq, Eq, Structural)]
pub enum Severity {
    High,
    Medium,
}

impl Severity {
    pub fn tag(self) -> (r: &'static str)
        ensures
            r@ == (match self {
                Severity::High => "HIGH"@,
                Severity::Medium => "MEDIUM"@,
            }),
    {
        match self {
            Severity::High => "HIGH",
            Severity::Medium => "MEDIUM",
        }
    }
}

/// A finding: the rule and a detail quoting the line.
#[derive(Debug)]
pub struct AuditFinding {
    pub severity: Severity,
    pub rule: String,
    pub detail: String,
}

pub open spec fn finding_view(f: AuditFinding) -> (Severity, Seq<char>, Seq<char>) {
    (f.severity, f.rule@, f.detail@)
}

pub open spec fn findings_view(v: Seq<AuditFinding>) -> Seq<(Severity, Seq<char>, Seq<char>)> {
    v.map_values(|f: AuditFinding| finding_view(f))
}

pub fn finding(severity: Severity, rule: &str, detail: String) -> (r: AuditFinding)
    ensures
        finding_view(r) == (severity, rule@, detail@),
{
    AuditFinding { severity, rule: rule.to_owned(), detail }
}

/// Declares checksums: a line starting (after indentation) with
/// `checksum=`, `checksum+=` or `sha256sums=`.
pub open spec fn checksum_line(l: Seq<char>) -> bool {
    let t = trim_start(l);
    has_prefix(t, "checksum="@) || has_prefix(t, "checksum+="@) || has_prefix(t, "sha256sums="@)
}

pub open spec fn declares_checksum(text: Seq<char>) -> bool {
    exists|i: int| 0 <= i < lines(text).len() && checksum_line(lines(text)[i])
}

fn is_checksum_line(l: &[char]) -> (r: bool)
    ensures
        r == checksum_line(l@),
{
    let t = trim_start_vec(l);
    str_starts(&t, "checksum=") || str_starts(&t, "checksum+=") || str_starts(&t, "sha256sums=")
}

fn has_checksum(text: &str) -> (r: bool)
    ensures
        r == declares_checksum(text@),
{
    let cs = chars_of(text);
    let ls = lines_of(&cs);
    let mut i: usize = 0;
    while i < ls.len()
        invariant
            i <= ls@.len(),
            views(ls@) == lines(text@),
            forall|j: int| 0 <= j < i ==> !checksum_line(lines(text@)[j]),
        decreases ls@.len() - i,
    {
        assert(views(ls@)[i as int] == ls@[i as int]@);
        if is_checksum_line(&ls[i]) {
            return true;
        }
        i = i + 1;
    }
    false
}

/// `s` without leading and trailing `"` characters.
pub open spec fn strip_quotes(s: Seq<char>) -> Seq<char>
    decreases s.len(),
{
    if s.len() > 0 && s[0] == '"' {
        strip_quotes(s.drop_first())
    } else if s.len() > 0 && s.last() == '"' {
        strip_quotes(s.drop_last())
    } else {
        s
    }
}

fn strip_quotes_vec(s: &[char]) -> (r: Vec<char>)
    ensures
        r@ == strip_quotes(s@),
{
    let mut lo: usize = 0;
    let mut hi: usize = s.len();
    assert(s@.subrange(0, s@.len() as int) =~= s@);
    while lo < hi && s[lo] == '"'
        invariant
            lo <= hi == s@.len(),
            strip_quotes(s@) == strip_quotes(s@.subrange(lo as int, hi as int)),
        decreases hi - lo,
    {
        proof {
            assert(s@.subrange(lo as int, hi as int).drop_first() =~= s@.subrange(lo as int + 1, hi as int));
        }
        lo = lo + 1;
    }
    while lo < hi && s[hi - 1] == '"'
        invariant
            lo <= hi <= s@.len(),
            lo == hi || s@[lo as int] != '"',
            strip_quotes(s@) == strip_quotes(s@.subrange(lo as int, hi as int)),
        decreases hi - lo,
    {
        proof {
            let t = s@.subrange(lo as int, hi as int);
            assert(t.drop_last() =~= s@.subrange(lo as int, hi as int - 1));
        }
        hi = hi - 1;
    }
    crate::text::slice_vec(s, lo, hi)
}

/// The value of a `distfiles=` line, quotes and spaces stripped.
pub open spec fn assigned_value(l: Seq<char>) -> Seq<char> {
    match find(l, "="@) {
        Some(i) => trim(strip_quotes(trim(l.skip(i + 1)))),
        None => Seq::empty(),
    }
}

pub open spec fn distfiles_line(t: Seq<char>) -> bool {
    has_prefix(t, "distfiles="@) || has_prefix(t, "distfiles+="@)
}

/// A line that fetches with `curl`/`wget` (not a dependency list).
pub open spec fn fetcher_line(t: Seq<char>) -> bool {
    &&& !distfiles_line(t)
    &&& !has_prefix(t, "do_fetch"@)
    &&& !contains(t, "depends="@)
    &&& (contains(t, "curl"@) || contains(t, "wget"@))
}

/// The template downloads: a non-empty `distfiles=`, or a `do_fetch`
/// function and a `curl`/`wget` line.
pub open spec fn downloads(text: Seq<char>) -> bool {
    let ls = lines(text);
    ||| exists|i: int|
        0 <= i < ls.len() && distfiles_line(trim(ls[i])) && assigned_value(trim(ls[i])).len() > 0
    ||| (exists|i: int| 0 <= i < ls.len() && has_prefix(trim(ls[i]), "do_fetch"@)) && (exists|i: int|
        0 <= i < ls.len() && fetcher_line(trim(ls[i])))
}

fn assigned_value_of(t: &[char]) -> (r: Vec<char>)
    ensures
        r@ == assigned_value(t@),
{
    let eq = chars_of("=");
    match crate::text::find_exec(t, &eq) {
        Some(i) => {
            proof {
                reveal_strlit("=");
                assert(eq@.len() == 1);
                assert(crate::text::occurs_at(t@, eq@, i as int));
                assert(i + 1 <= t@.len());
            }
            assert(i < t.len());
            let j: usize = i + 1;
            let rest = crate::text::slice_vec(t, j, t.len());
            assert(rest@ =~= t@.skip(i as int + 1));
            let a = trim_vec(&rest);
            let b = strip_quotes_vec(&a);
            trim_vec(&b)
        },
        None => Vec::new(),
    }
}

fn has_downloads(text: &str) -> (r: bool)
    ensures
        r == downloads(text@),
{
    let cs = chars_of(text);
    let ls = lines_of(&cs);
    let mut has_distfiles = false;
    let mut has_do_fetch = false;
    let mut has_fetcher = false;
    let mut i: usize = 0;
    while i < ls.len()
        invariant
            i <= ls@.len(),
            views(ls@) == lines(text@),
            has_distfiles == (exists|j: int|
                0 <= j < i && distfiles_line(trim(lines(text@)[j])) && assigned_value(
                    trim(lines(text@)[j]),
                ).len() > 0),
            has_do_fetch == (exists|j: int| 0 <= j < i && has_prefix(trim(lines(text@)[j]), "do_fetch"@)),
            has_fetcher == (exists|j: int| 0 <= j < i && fetcher_line(trim(lines(text@)[j]))),
        decreases ls@.len() - i,
    {
        assert(views(ls@)[i as int] == ls@[i as int]@);
        let l = trim_vec(&ls[i]);
        if str_starts(&l, "distfiles=") || str_starts(&l, "distfiles+=") {
            proof {
                reveal_strlit("distfiles=");
                reveal_strlit("distfiles+=");
                reveal_strlit("do_fetch");
                if has_prefix(l@, "do_fetch"@) {
                    assert(l@[1] == "do_fetch"@[1]);
                    if has_prefix(l@, "distfiles="@) {
                        assert(l@[1] == "distfiles="@[1]);
                    } else {
                        assert(l@[1] == "distfiles+="@[1]);
                    }
                }
            }
            let v = assigned_value_of(&l);
            if v.len() > 0 {
                has_distfiles = true;
            }
        } else if str_starts(&l, "do_fetch") {
            has_do_fetch = true;
        } else if str_contains(&l, "depends=") {
        } else if str_contains(&l, "curl") || str_contains(&l, "wget") {
            has_fetcher = true;
        }
        i = i + 1;
    }
    has_distfiles || (has_do_fetch && has_fetcher)
}

/// A line for the matchers: leading `+` (diff marks) removed, trimmed.
pub open spec fn cleaned(l: Seq<char>) -> Seq<char>
    decreases l.len(),
{
    if l.len() > 0 && l[0] == '+' {
        cleaned(l.drop_first())
    } else {
        trim(l)
    }
}

fn clean(l: &[char]) -> (r: Vec<char>)
    ensures
        r@ == cleaned(l@),
{
    let mut lo: usize = 0;
    assert(l@.subrange(0, l@.len() as int) =~= l@);
    while lo < l.len() && l[lo] == '+'
        invariant
            lo <= l@.len(),
            cleaned(l@) == cleaned(l@.subrange(lo as int, l@.len() as int)),
        decreases l@.len() - lo,
    {
        proof {
            assert(l@.subrange(lo as int, l@.len() as int).drop_first() =~= l@.subrange(
                lo as int + 1,
                l@.len() as int,
            ));
        }
        lo = lo + 1;
    }
    let rest = crate::text::slice_vec(l, lo, l.len());
    trim_vec(&rest)
}

/// A line that downloads at build time.
pub open spec fn build_download(line: Seq<char>) -> bool {
    let l = cleaned(line);
    ||| contains(l, "npm install"@)
    ||| contains(l, "npm ci"@)
    ||| contains(l, "pip install"@)
    ||| contains(l, "pip3 install"@)
    ||| contains(l, "wget"@)
    ||| (contains(l, "curl"@) && (contains(l, "| sh"@) || contains(l, "|sh"@) || contains(
        l,
        "| bash"@,
    ) || contains(l, "|bash"@) || contains(l, " -o"@) || contains(l, " -O"@) || contains(
        l,
        "http"@,
    )))
}

pub fn is_build_download(line: &[char]) -> (r: bool)
    ensures
        r == build_download(line@),
{
    let l = clean(line);
    str_contains(&l, "npm install") || str_contains(&l, "npm ci") || str_contains(&l, "pip install")
        || str_contains(&l, "pip3 install") || str_contains(&l, "wget") || (str_contains(&l, "curl")
        && (str_contains(&l, "| sh") || str_contains(&l, "|sh") || str_contains(&l, "| bash")
        || str_contains(&l, "|bash") || str_contains(&l, " -o") || str_contains(&l, " -O")
        || str_contains(&l, "http")))
}

/// A `do_*`, `pre_*` or `post_*` function definition: the text before the
/// first `()` starts so and holds only ASCII alphanumerics and `_`.
pub open spec fn hook_def(line: Seq<char>) -> bool {
    let l = cleaned(line);
    match find(l, "()"@) {
        Some(i) => {
            let name = l.take(i);
            &&& (has_prefix(name, "do_"@) || has_prefix(name, "pre_"@) || has_prefix(name, "post_"@))
            &&& forall|k: int| 0 <= k < name.len() ==> is_ascii_alnum(name[k]) || name[k] == '_'
        },
        None => false,
    }
}

fn ident_chars(name: &[char]) -> (r: bool)
    ensures
        r == forall|k: int| 0 <= k < name@.len() ==> is_ascii_alnum(name@[k]) || name@[k] == '_',
{
    let mut k: usize = 0;
    while k < name.len()
        invariant
            k <= name@.len(),
            forall|j: int| 0 <= j < k ==> is_ascii_alnum(name@[j]) || name@[j] == '_',
        decreases name@.len() - k,
    {
        if !(crate::text::ascii_alnum(name[k]) || name[k] == '_') {
            return false;
        }
        k = k + 1;
    }
    true
}

pub fn is_hook_def(line: &[char]) -> (r: bool)
    ensures
        r == hook_def(line@),
{
    let l = clean(line);
    let pat = chars_of("()");
    match crate::text::find_exec(&l, &pat) {
        Some(i) => {
            proof {
                reveal_strlit("()");
                assert(pat@.len() == 2);
            }
            let name = crate::text::slice_vec(&l, 0, i);
            assert(name@ =~= l@.take(i as int));
            (str_starts(&name, "do_") || str_starts(&name, "pre_") || str_starts(&name, "post_"))
                && ident_chars(&name)
        },
        None => false,
    }
}

pub open spec fn url_line(line: Seq<char>) -> bool {
    contains(cleaned(line), "http://"@) || contains(cleaned(line), "https://"@)
}

fn has_url(line: &[char]) -> (r: bool)
    ensures
        r == url_line(line@),
{
    let l = clean(line);
    str_contains(&l, "http://") || str_contains(&l, "https://")
}

/// Bytes a character takes in UTF-8.
pub open spec fn utf8_width(c: char) -> int {
    if c <= '\u{7f}' {
        1
    } else if c <= '\u{7ff}' {
        2
    } else if c <= '\u{ffff}' {
        3
    } else {
        4
    }
}

/// Bytes `s` takes in UTF-8.
pub open spec fn utf8_len(s: Seq<char>) -> int
    decreases s.len(),
{
    if s.len() == 0 {
        0
    } else {
        utf8_len(s.drop_last()) + utf8_width(s.last())
    }
}

/// Longest quote kept in a detail, in bytes.
pub const MAX_QUOTE: usize = 120;

/// A quote can be cut: it fits, or 120 bytes end on a character boundary.
pub open spec fn quotable(line: Seq<char>) -> bool {
    let s = cleaned(line);
    utf8_len(s) <= 120 || exists|k: int| 0 <= k <= s.len() && utf8_len(s.take(k)) == 120
}

/// The quote of a line: cleaned, cut to 120 bytes with `…` when longer.
pub open spec fn quote(line: Seq<char>) -> Seq<char> {
    let s = cleaned(line);
    if utf8_len(s) <= 120 {
        s
    } else {
        s.take(choose|k: int| 0 <= k <= s.len() && utf8_len(s.take(k)) == 120) + "…"@
    }
}

proof fn lemma_utf8_prefix_mono(s: Seq<char>, a: int, b: int)
    requires
        0 <= a <= b <= s.len(),
    ensures
        utf8_len(s.take(a)) <= utf8_len(s.take(b)),
        a < b ==> utf8_len(s.take(a)) < utf8_len(s.take(b)),
    decreases b - a,
{
    if a < b {
        lemma_utf8_prefix_mono(s, a, b - 1);
        assert(s.take(b).drop_last() =~= s.take(b - 1));
    }
}

fn trunc(line: &[char]) -> (r: String)
    requires
        quotable(line@),
    ensures
        r@ == quote(line@),
{
    let s = clean(line);
    let mut bytes: usize = 0;
    let mut k: usize = 0;
    while k < s.len() && bytes <= 120
        invariant
            k <= s@.len(),
            bytes == utf8_len(s@.take(k as int)),
            bytes <= 124,
        decreases s@.len() - k,
    {
        let c = s[k];
        let w: usize = if c <= '\u{7f}' {
            1
        } else if c <= '\u{7ff}' {
            2
        } else if c <= '\u{ffff}' {
            3
        } else {
            4
        };
        proof {
            assert(s@.take(k as int + 1).drop_last() =~= s@.take(k as int));
        }
        bytes = bytes + w;
        k = k + 1;
    }
    if bytes <= 120 {
        assert(s@.take(k as int) =~= s@);
        return string_from(&s);
    }
    // the cut point is the prefix of exactly 120 bytes
    let ghost cut = choose|j: int| 0 <= j <= s@.len() && utf8_len(s@.take(j)) == 120;
    proof {
        assert(utf8_len(s@.take(s@.len() as int)) > 120) by {
            if k < s@.len() {
                lemma_utf8_prefix_mono(s@, k as int, s@.len() as int);
            }
            assert(s@.take(s@.len() as int) =~= s@);
        }
        assert(s@.take(s@.len() as int) =~= s@);
    }
    let mut j: usize = 0;
    let mut acc: usize = 0;
    while acc < 120
        invariant
            j <= s@.len(),
            acc == utf8_len(s@.take(j as int)),
            0 <= cut <= s@.len(),
            utf8_len(s@.take(cut)) == 120,
            j <= cut,
        decreases s@.len() - j,
    {
        proof {
            if j == cut {
                assert(acc == 120);
            }
            lemma_utf8_prefix_mono(s@, j as int + 1, cut);
            assert(s@.take(j as int + 1).drop_last() =~= s@.take(j as int));
        }
        let c = s[j];
        let w: usize = if c <= '\u{7f}' {
            1
        } else if c <= '\u{7ff}' {
            2
        } else if c <= '\u{ffff}' {
            3
        } else {
            4
        };
        acc = acc + w;
        j = j + 1;
    }
    proof {
        if (j as int) < cut {
            lemma_utf8_prefix_mono(s@, j as int, cut);
        }
    }
    let head = crate::text::slice_vec(&s, 0, j);
    assert(head@ =~= s@.take(j as int));
    let mut out = string_from(&head);
    push_str(&mut out, "…");
    out
}

/// The findings of a full template: missing checksums when it downloads,
/// then one for each line downloading at build time, in order.
pub open spec fn template_findings(text: Seq<char>) -> Seq<(Severity, Seq<char>, Seq<char>)> {
    let head = if downloads(text) && !declares_checksum(text) {
        seq![
            (
                Severity::High,
                "checksum-ausente"@,
                "descargas sin `checksum=`/`sha256sums=` que las verifiquen"@,
            ),
        ]
    } else {
        Seq::empty()
    };
    head + line_findings(lines(text))
}

/// One `descarga-en-build` finding per such line.
pub open spec fn line_findings(ls: Seq<Seq<char>>) -> Seq<(Severity, Seq<char>, Seq<char>)>
    decreases ls.len(),
{
    if ls.len() == 0 {
        Seq::empty()
    } else {
        let rest = line_findings(ls.drop_last());
        if build_download(ls.last()) {
            rest.push((Severity::High, "descarga-en-build"@, "descarga en build: "@ + quote(ls.last())))
        } else {
            rest
        }
    }
}

/// Every line of `text` that a finding quotes (one downloading at build
/// time) can be quoted.
pub open spec fn all_quotable(text: Seq<char>) -> bool {
    forall|i: int| 0 <= i < lines(text).len() && build_download(#[trigger] lines(text)[i]) ==> quotable(lines(text)[i])
}

/// Every added line of `patch` that a finding quotes can be quoted.
pub open spec fn patch_quotable(patch: Seq<char>) -> bool {
    forall|i: int|
        0 <= i < lines(patch).len() && added_line(#[trigger] lines(patch)[i]) && added_finding(lines(patch)[i]) is Some
            ==> quotable(lines(patch)[i])
}

/// Audits a full template.
pub fn audit_template(text: &str) -> (r: Vec<AuditFinding>)
    requires
        all_quotable(text@),
    ensures
        findings_view(r@) == template_findings(text@),
{
    let mut out: Vec<AuditFinding> = Vec::new();
    if has_downloads(text) && !has_checksum(text) {
        out.push(
            finding(
                Severity::High,
                "checksum-ausente",
                "descargas sin `checksum=`/`sha256sums=` que las verifiquen".to_owned(),
            ),
        );
    }
    let ghost head = findings_view(out@);
    proof {
        assert(head =~= (if downloads(text@) && !declares_checksum(text@) {
            seq![
                (
                    Severity::High,
                    "checksum-ausente"@,
                    "descargas sin `checksum=`/`sha256sums=` que las verifiquen"@,
                ),
            ]
        } else {
            Seq::empty()
        }));
    }
    let cs = chars_of(text);
    let ls = lines_of(&cs);
    let mut i: usize = 0;
    while i < ls.len()
        invariant
            i <= ls@.len(),
            views(ls@) == lines(text@),
            all_quotable(text@),
            findings_view(out@) == head + line_findings(lines(text@).take(i as int)),
        decreases ls@.len() - i,
    {
        proof {
            assert(views(ls@)[i as int] == ls@[i as int]@);
            assert(lines(text@).take(i as int + 1).drop_last() =~= lines(text@).take(i as int));
            if build_download(lines(text@)[i as int]) {
                assert(quotable(lines(text@)[i as int]));
            }
        }
        if is_build_download(&ls[i]) {
            let mut d = "descarga en build: ".to_owned();
            let q = trunc(&ls[i]);
            push_str(&mut d, q.as_str());
            let ghost before = findings_view(out@);
            out.push(finding(Severity::High, "descarga-en-build", d));
            assert(findings_view(out@) =~= before.push(finding_view(out@.last())));
        }
        i = i + 1;
    }
    assert(lines(text@).take(ls@.len() as int) =~= lines(text@));
    out
}

/// An added line of a unified diff: starts with `+`, not `+++`.
pub open spec fn added_line(l: Seq<char>) -> bool {
    has_prefix(l, "+"@) && !has_prefix(l, "+++"@)
}

/// The finding for one added line: the first rule that applies.
pub open spec fn added_finding(l: Seq<char>) -> Option<(Severity, Seq<char>, Seq<char>)> {
    if build_download(l) {
        Some((Severity::High, "descarga-en-build"@, "descarga en build: "@ + quote(l)))
    } else if hook_def(l) {
        Some((Severity::Medium, "hook-nuevo"@, "nuevo hook: "@ + quote(l)))
    } else if url_line(l) {
        Some((Severity::Medium, "url-nueva"@, "nuevo origen: "@ + quote(l)))
    } else {
        None
    }
}

pub open spec fn patch_findings(ls: Seq<Seq<char>>) -> Seq<(Severity, Seq<char>, Seq<char>)>
    decreases ls.len(),
{
    if ls.len() == 0 {
        Seq::empty()
    } else {
        let rest = patch_findings(ls.drop_last());
        if added_line(ls.last()) && added_finding(ls.last()) is Some {
            rest.push(added_finding(ls.last())->0)
        } else {
            rest
        }
    }
}

/// The findings of an upgrade: a checksum the new template dropped, then
/// one per added line of the patch that a rule flags, in order.
pub open spec fn diff_findings(old: Seq<char>, new: Seq<char>, patch: Seq<char>) -> Seq<
    (Severity, Seq<char>, Seq<char>),
> {
    let head = if declares_checksum(old) && !declares_checksum(new) {
        seq![
            (
                Severity::High,
                "checksum-ausente"@,
                "el nuevo template ELIMINÓ la verificación `checksum=`/`sha256sums=`"@,
            ),
        ]
    } else {
        Seq::empty()
    };
    head + patch_findings(lines(patch))
}

/// Audits an upgrade from the old and new templates and their patch.
pub fn audit_template_diff(old_text: &str, new_text: &str, patch: &str) -> (r: Vec<AuditFinding>)
    requires
        patch_quotable(patch@),
    ensures
        findings_view(r@) == diff_findings(old_text@, new_text@, patch@),
{
    let mut out: Vec<AuditFinding> = Vec::new();
    if has_checksum(old_text) && !has_checksum(new_text) {
        out.push(
            finding(
                Severity::High,
                "checksum-ausente",
                "el nuevo template ELIMINÓ la verificación `checksum=`/`sha256sums=`".to_owned(),
            ),
        );
    }
    let ghost head = findings_view(out@);
    proof {
        assert(head =~= (if declares_checksum(old_text@) && !declares_checksum(new_text@) {
            seq![
                (
                    Severity::High,
                    "checksum-ausente"@,
                    "el nuevo template ELIMINÓ la verificación `checksum=`/`sha256sums=`"@,
                ),
            ]
        } else {
            Seq::empty()
        }));
    }
    let cs = chars_of(patch);
    let ls = lines_of(&cs);
    let mut i: usize = 0;
    while i < ls.len()
        invariant
            i <= ls@.len(),
            views(ls@) == lines(patch@),
            patch_quotable(patch@),
            findings_view(out@) == head + patch_findings(lines(patch@).take(i as int)),
        decreases ls@.len() - i,
    {
        proof {
            assert(views(ls@)[i as int] == ls@[i as int]@);
            assert(lines(patch@).take(i as int + 1).drop_last() =~= lines(patch@).take(i as int));
            let l0 = lines(patch@)[i as int];
            if added_line(l0) && added_finding(l0) is Some {
                assert(quotable(l0));
            }
        }
        let l = &ls[i];
        if str_starts(l, "+") && !str_starts(l, "+++") {
            let ghost before = findings_view(out@);
            if is_build_download(l) {
                let mut d = "descarga en build: ".to_owned();
                let q = trunc(l);
                push_str(&mut d, q.as_str());
                out.push(finding(Severity::High, "descarga-en-build", d));
                assert(findings_view(out@) =~= before.push(finding_view(out@.last())));
            } else if is_hook_def(l) {
                let mut d = "nuevo hook: ".to_owned();
                let q = trunc(l);
                push_str(&mut d, q.as_str());
                out.push(finding(Severity::Medium, "hook-nuevo", d));
                assert(findings_view(out@) =~= before.push(finding_view(out@.last())));
            } else if has_url(l) {
                let mut d = "nuevo origen: ".to_owned();
                let q = trunc(l);
                push_str(&mut d, q.as_str());
                out.push(finding(Severity::Medium, "url-nueva", d));
                assert(findings_view(out@) =~= before.push(finding_view(out@.last())));
            }
        }
        i = i + 1;
    }
    assert(lines(patch@).take(ls@.len() as int) =~= lines(patch@));
    out
}

/// How many findings have severity `sev`.
pub open spec fn count_severity(v: Seq<(Severity, Seq<char>, Seq<char>)>, sev: Severity) -> nat
    decreases v.len(),
{
    if v.len() == 0 {
        0
    } else {
        count_severity(v.drop_last(), sev) + if v.last().0 == sev {
            1nat
        } else {
            0nat
        }
    }
}

pub open spec fn severity_tag(s: Severity) -> Seq<char> {
    match s {
        Severity::High => "HIGH"@,
        Severity::Medium => "MEDIUM"@,
    }
}

/// One line per finding: `   [TAG rule] detail`.
pub open spec fn finding_lines(v: Seq<(Severity, Seq<char>, Seq<char>)>) -> Seq<char>
    decreases v.len(),
{
    if v.len() == 0 {
        Seq::empty()
    } else {
        let f = v.last();
        finding_lines(v.drop_last()) + "   ["@ + severity_tag(f.0) + " "@ + f.1 + "] "@ + f.2 + "\n"@
    }
}

/// The block shown above the diff or template; empty without findings.
pub fn format_findings(pkg: &str, repo: &str, findings: &[AuditFinding]) -> (r: String)
    ensures
        findings@.len() == 0 ==> r@ == Seq::<char>::empty(),
        findings@.len() > 0 ==> r@ == ":: AUDIT template "@ + pkg@ + " (repo "@ + repo@ + "): "@
            + crate::text::decimal(count_severity(findings_view(findings@), Severity::High)) + " HIGH, "@
            + crate::text::decimal(count_severity(findings_view(findings@), Severity::Medium))
            + " MEDIUM\n"@ + finding_lines(findings_view(findings@)),
{
    if findings.len() == 0 {
        return String::new();
    }
    let ghost fv = findings_view(findings@);
    let mut hi: u64 = 0;
    let mut med: u64 = 0;
    let mut i: usize = 0;
    while i < findings.len()
        invariant
            i <= findings@.len(),
            fv == findings_view(findings@),
            hi == count_severity(fv.take(i as int), Severity::High),
            med == count_severity(fv.take(i as int), Severity::Medium),
            hi <= i,
            med <= i,
        decreases findings@.len() - i,
    {
        proof {
            assert(fv.take(i as int + 1).drop_last() =~= fv.take(i as int));
            assert(fv.take(i as int + 1).last() == finding_view(findings@[i as int]));
        }
        match findings[i].severity {
            Severity::High => {
                hi = hi + 1;
            },
            Severity::Medium => {
                med = med + 1;
            },
        }
        i = i + 1;
    }
    assert(fv.take(findings@.len() as int) =~= fv);
    let mut out = ":: AUDIT template ".to_owned();
    push_str(&mut out, pkg);
    push_str(&mut out, " (repo ");
    push_str(&mut out, repo);
    push_str(&mut out, "): ");
    let h = crate::text::decimal_string(hi);
    push_str(&mut out, h.as_str());
    push_str(&mut out, " HIGH, ");
    let m = crate::text::decimal_string(med);
    push_str(&mut out, m.as_str());
    push_str(&mut out, " MEDIUM\n");
    let ghost header = out@;
    let mut k: usize = 0;
    assert(fv.take(0) =~= Seq::<(Severity, Seq<char>, Seq<char>)>::empty());
    while k < findings.len()
        invariant
            k <= findings@.len(),
            fv == findings_view(findings@),
            out@ == header + finding_lines(fv.take(k as int)),
        decreases findings@.len() - k,
    {
        proof {
            assert(fv.take(k as int + 1).drop_last() =~= fv.take(k as int));
            assert(fv.take(k as int + 1).last() == finding_view(findings@[k as int]));
        }
        let f = &findings[k];
        push_str(&mut out, "   [");
        push_str(&mut out, f.severity.tag());
        push_str(&mut out, " ");
        push_str(&mut out, f.rule.as_str());
        push_str(&mut out, "] ");
        push_str(&mut out, f.detail.as_str());
        push_str(&mut out, "\n");
        k = k + 1;
    }
    out
}

} // verus!
