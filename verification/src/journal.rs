//! The operations journal: one line per package operated,
//! `<epoch> <OP> <pkg> <detail...>`, appended and never rewritten.
use vstd::prelude::*;
use crate::metadata::strs_view;
use crate::text::{
    chars_of, first_match_from, is_ascii_digit, is_ws, join, lemma_first_match_from, lines, lines_of,
    split_ws, split_ws_of, string_from, trim, views, words, ws_pred,
};
use crate::version::{digits_value, reads_as_u64};

verus! {

/// The file name of the journal inside the data directory.
pub const JOURNAL_FILE: &'static str = "operations.log";

/// The value of a `u64` text as `str::parse::<u64>` reads it (an optional
/// `+`, then decimal digits, at most `u64::MAX`).
pub open spec fn u64_text(s: Seq<char>) -> Option<nat> {
    let d = if s.len() > 0 && s[0] == '+' {
        s.drop_first()
    } else {
        s
    };
    if reads_as_u64(d) {
        Some(digits_value(d))
    } else {
        None
    }
}

fn parse_u64(s: &[char]) -> (r: Option<u64>)
    ensures
        match u64_text(s@) {
            Some(v) => r == Some(v as u64),
            None => r is None,
        },
{
    let d = if s.len() > 0 && s[0] == '+' {
        crate::text::slice_vec(s, 1, s.len())
    } else {
        crate::text::slice_vec(s, 0, s.len())
    };
    assert(s@.len() > 0 && s@[0] == '+' ==> d@ =~= s@.drop_first());
    assert(!(s@.len() > 0 && s@[0] == '+') ==> d@ =~= s@);
    crate::version::parse_u64_token(&d)
}

/// A journal line read back: epoch, operation, package and the rest of
/// the words joined by single spaces.
pub open spec fn journal_entry(line: Seq<char>) -> Option<(nat, Seq<char>, Seq<char>, Seq<char>)> {
    let ws = split_ws(line);
    if ws.len() < 3 {
        None
    } else {
        match u64_text(ws[0]) {
            None => None,
            Some(epoch) => Some((epoch, ws[1], ws[2], join(ws.skip(3), " "@))),
        }
    }
}

/// Reads one journal line (see [`journal_entry`]).
pub fn parse_line(line: &str) -> (r: Option<(u64, String, String, String)>)
    ensures
        match journal_entry(line@) {
            Some((e, op, pkg, detail)) => r matches Some((e2, op2, pkg2, d2)) && e2 == e && op2@
                == op && pkg2@ == pkg && d2@ == detail,
            None => r is None,
        },
{
    let ws = split_ws_of(&chars_of(line));
    proof {
        if ws@.len() > 0 {
            assert(views(ws@)[0] == ws@[0]@);
        }
    }
    if ws.len() == 0 {
        return None;
    }
    let epoch = match parse_u64(&ws[0]) {
        Some(e) => e,
        None => {
            return None;
        },
    };
    if ws.len() < 3 {
        return None;
    }
    assert(views(ws@)[1] == ws@[1]@);
    assert(views(ws@)[2] == ws@[2]@);
    let mut rest: Vec<String> = Vec::new();
    let mut k: usize = 3;
    while k < ws.len()
        invariant
            3 <= k <= ws@.len(),
            strs_view(rest@) == views(ws@).subrange(3, k as int),
        decreases ws@.len() - k,
    {
        let ghost o = rest@;
        rest.push(string_from(&ws[k]));
        proof {
            assert(strs_view(rest@) =~= strs_view(o).push(ws@[k as int]@));
            assert(views(ws@).subrange(3, k + 1) =~= views(ws@).subrange(3, k as int).push(
                ws@[k as int]@,
            ));
        }
        k = k + 1;
    }
    assert(views(ws@).subrange(3, ws@.len() as int) =~= views(ws@).skip(3));
    let detail = crate::text::join_strings(&rest, " ");
    assert(crate::text::string_views(rest@) == strs_view(rest@));
    Some((epoch, string_from(&ws[1]), string_from(&ws[2]), detail))
}

/// A journal line: `<epoch> <op> <pkg>`, the trimmed detail after a space
/// when there is one, and a newline.
pub open spec fn journal_line(epoch: nat, op: Seq<char>, pkg: Seq<char>, detail: Seq<char>) -> Seq<char> {
    crate::text::decimal(epoch) + " "@ + op + " "@ + pkg + (if trim(detail).len() > 0 {
        " "@ + trim(detail)
    } else {
        Seq::empty()
    }) + "\n"@
}

/// Renders one journal line (see [`journal_line`]).
pub fn format_line(epoch: u64, op: &str, pkg: &str, detail: &str) -> (r: String)
    ensures
        r@ == journal_line(epoch as nat, op@, pkg@, detail@),
{
    let mut s = crate::text::decimal_string(epoch);
    crate::text::push_str(&mut s, " ");
    crate::text::push_str(&mut s, op);
    crate::text::push_str(&mut s, " ");
    crate::text::push_str(&mut s, pkg);
    let d = crate::text::trim_string(detail);
    if !d.as_str().is_empty() {
        crate::text::push_str(&mut s, " ");
        crate::text::push_str(&mut s, d.as_str());
    }
    crate::text::push_str(&mut s, "\n");
    proof {
        if trim(detail@).len() > 0 {
            assert(s@ =~= journal_line(epoch as nat, op@, pkg@, detail@));
        } else {
            assert(s@ =~= journal_line(epoch as nat, op@, pkg@, detail@));
        }
    }
    s
}

/// The journal lines to show: the non-blank lines, trimmed, except those
/// that read as an entry for another package than `filter`.
pub open spec fn shown_lines(ls: Seq<Seq<char>>, filter: Option<Seq<char>>) -> Seq<Seq<char>>
    decreases ls.len(),
{
    if ls.len() == 0 {
        Seq::empty()
    } else {
        let rest = shown_lines(ls.drop_last(), filter);
        let t = trim(ls.last());
        let hidden = match (filter, journal_entry(t)) {
            (Some(f), Some((_, _, pkg, _))) => f != pkg,
            _ => false,
        };
        if t.len() == 0 || hidden {
            rest
        } else {
            rest.push(t)
        }
    }
}

/// Selects the journal lines to show (see [`shown_lines`]).
pub fn select_lines(text: &str, filter: Option<&str>) -> (r: Vec<String>)
    ensures
        strs_view(r@) == shown_lines(lines(text@), match filter {
            Some(f) => Some(f@),
            None => None,
        }),
{
    let ghost fv = match filter {
        Some(f) => Some(f@),
        None => None::<Seq<char>>,
    };
    let ls = lines_of(&chars_of(text));
    let mut r: Vec<String> = Vec::new();
    let mut i: usize = 0;
    while i < ls.len()
        invariant
            i <= ls@.len(),
            views(ls@) == lines(text@),
            fv == (match filter {
                Some(f) => Some(f@),
                None => None::<Seq<char>>,
            }),
            strs_view(r@) == shown_lines(views(ls@).take(i as int), fv),
        decreases ls@.len() - i,
    {
        assert(views(ls@).take(i + 1).drop_last() =~= views(ls@).take(i as int));
        assert(views(ls@).take(i + 1).last() == ls@[i as int]@);
        let t = crate::text::trim_vec(&ls[i]);
        if t.len() > 0 {
            let line = string_from(&t);
            let hidden = match (filter, parse_line(line.as_str())) {
                (Some(f), Some((_, _, pkg, _))) => !crate::text::chars_eq(&chars_of(f), &chars_of(pkg.as_str())),
                _ => false,
            };
            if !hidden {
                let ghost o = r@;
                r.push(line);
                assert(strs_view(r@) =~= strs_view(o).push(t@));
            }
        }
        i = i + 1;
    }
    assert(views(ls@).take(ls@.len() as int) =~= views(ls@));
    r
}

/// A word followed by a separator (or by nothing) is the first word.
proof fn lemma_words_lead(w: Seq<char>, t: Seq<char>, f: spec_fn(char) -> bool)
    requires
        w.len() > 0,
        forall|i: int| 0 <= i < w.len() ==> !f(#[trigger] w[i]),
        t.len() == 0 || f(t[0]),
    ensures
        words(w + t, f) == seq![w] + words(t, f),
{
    let s = w + t;
    assert(s[0] == w[0]);
    let j = first_match_from(s, f, 0);
    lemma_first_match_from(s, f, 0);
    if j < w.len() {
        assert(s[j] == w[j]);
    }
    if j > w.len() {
        assert(s[w.len() as int] == t[0]);
    }
    assert(j == w.len());
    assert(s.subrange(0, j) =~= w);
    assert(s.subrange(j, s.len() as int) =~= t);
}

/// A leading separator is skipped.
proof fn lemma_words_skip(c: char, t: Seq<char>, f: spec_fn(char) -> bool)
    requires
        f(c),
    ensures
        words(seq![c] + t, f) == words(t, f),
{
    let s = seq![c] + t;
    assert(s[0] == c);
    assert(s.drop_first() =~= t);
}

/// A trailing separator adds no word.
proof fn lemma_words_trail(x: Seq<char>, c: char, f: spec_fn(char) -> bool)
    requires
        f(c),
    ensures
        words(x + seq![c], f) == words(x, f),
    decreases x.len(),
{
    let s = x + seq![c];
    assert(s[0] == if x.len() > 0 { x[0] } else { c });
    if x.len() == 0 {
        assert(s.drop_first() =~= Seq::<char>::empty());
        assert(words(s.drop_first(), f) == Seq::<Seq<char>>::empty());
        assert(words(s, f) == words(s.drop_first(), f));
    } else if f(x[0]) {
        assert(s.drop_first() =~= x.drop_first() + seq![c]);
        lemma_words_trail(x.drop_first(), c, f);
    } else {
        let j = first_match_from(s, f, 0);
        let j0 = first_match_from(x, f, 0);
        lemma_first_match_from(s, f, 0);
        lemma_first_match_from(x, f, 0);
        if j < j0 {
            assert(s[j] == x[j]);
        }
        if j > j0 {
            if j0 < x.len() {
                assert(s[j0] == x[j0]);
            } else {
                assert(s[x.len() as int] == c);
            }
        }
        assert(j == j0);
        assert(j0 > 0);
        assert(s.subrange(0, j) =~= x.subrange(0, j0));
        assert(s.subrange(j, s.len() as int) =~= x.subrange(j0, x.len() as int) + seq![c]);
        lemma_words_trail(x.subrange(j0, x.len() as int), c, f);
        assert(words(s, f) == seq![s.subrange(0, j)] + words(s.subrange(j, s.len() as int), f));
        assert(words(x, f) == seq![x.subrange(0, j0)] + words(x.subrange(j0, x.len() as int), f));
    }
}

/// A written journal line reads back: the epoch, the operation and the
/// package as given, and the detail trimmed with each run of whitespace
/// inside it read as one space.
pub proof fn lemma_journal_line_reads_back(
    epoch: nat,
    op: Seq<char>,
    pkg: Seq<char>,
    detail: Seq<char>,
)
    requires
        epoch <= u64::MAX,
        op.len() > 0,
        pkg.len() > 0,
        forall|i: int| 0 <= i < op.len() ==> !is_ws(#[trigger] op[i]),
        forall|i: int| 0 <= i < pkg.len() ==> !is_ws(#[trigger] pkg[i]),
    ensures
        journal_entry(journal_line(epoch, op, pkg, detail)) == Some(
            (epoch, op, pkg, join(split_ws(trim(detail)), " "@)),
        ),
{
    reveal_strlit(" ");
    reveal_strlit("\n");
    let f = ws_pred();
    let dec = crate::text::decimal(epoch);
    crate::text::lemma_decimal_reads_back(epoch);
    assert forall|i: int| 0 <= i < dec.len() implies !f(#[trigger] dec[i]) by {
        assert(is_ascii_digit(dec[i]));
    }
    assert forall|i: int| 0 <= i < op.len() implies !f(#[trigger] op[i]) by {
        assert(!is_ws(op[i]));
    }
    assert forall|i: int| 0 <= i < pkg.len() implies !f(#[trigger] pkg[i]) by {
        assert(!is_ws(pkg[i]));
    }
    let td = trim(detail);
    let tt: Seq<char> = if td.len() > 0 {
        seq![' '] + td
    } else {
        Seq::empty()
    };
    let tail = tt + seq!['\n'];
    let s3 = pkg + tail;
    let s2 = op + (seq![' '] + s3);
    let line = dec + (seq![' '] + s2);
    assert(line =~= journal_line(epoch, op, pkg, detail));
    // the detail's words
    lemma_words_trail(tt, '\n', f);
    if td.len() > 0 {
        lemma_words_skip(' ', td, f);
    } else {
        assert(tt =~= td);
    }
    assert(words(tail, f) == words(td, f));
    assert(tail[0] == ' ' || tail[0] == '\n');
    lemma_words_lead(pkg, tail, f);
    lemma_words_skip(' ', s3, f);
    lemma_words_lead(op, seq![' '] + s3, f);
    lemma_words_skip(' ', s2, f);
    lemma_words_lead(dec, seq![' '] + s2, f);
    let ws = split_ws(line);
    assert(ws =~= seq![dec, op, pkg] + split_ws(td));
    assert(ws.skip(3) =~= split_ws(td));
    assert(dec[0] != '+') by {
        assert(is_ascii_digit(dec[0]));
    }
    assert(reads_as_u64(dec));
}

/// A journal line read back as a line of the file (without its newline)
/// gives the same entry as the written line: see
/// [`lemma_journal_line_reads_back`].
pub proof fn lemma_journal_entry_reads_back(
    epoch: nat,
    op: Seq<char>,
    pkg: Seq<char>,
    detail: Seq<char>,
)
    requires
        epoch <= u64::MAX,
        op.len() > 0,
        pkg.len() > 0,
        forall|i: int| 0 <= i < op.len() ==> !is_ws(#[trigger] op[i]),
        forall|i: int| 0 <= i < pkg.len() ==> !is_ws(#[trigger] pkg[i]),
    ensures
        journal_entry(journal_line(epoch, op, pkg, detail).drop_last()) == Some(
            (epoch, op, pkg, join(split_ws(trim(detail)), " "@)),
        ),
{
    reveal_strlit("\n");
    lemma_journal_line_reads_back(epoch, op, pkg, detail);
    let l = journal_line(epoch, op, pkg, detail);
    assert(l.last() == '\n');
    assert(l.drop_last() + seq!['\n'] =~= l);
    lemma_words_trail(l.drop_last(), '\n', ws_pred());
}

/// A line is no entry when it has fewer than three words, or when its first
/// word does not read as a `u64`.
pub proof fn lemma_journal_rejects(line: Seq<char>)
    ensures
        split_ws(line).len() < 3 ==> journal_entry(line) is None,
        split_ws(line).len() > 0 && u64_text(split_ws(line)[0]) is None ==> journal_entry(line) is None,
{
}

} // verus!
