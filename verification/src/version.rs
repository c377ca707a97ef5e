//! Ordering of package versions (`version`, `revision`).
//!
//! A version is cut into alphanumeric tokens; two tokens that both read as
//! a `u64` compare as numbers, any other pair compares as text. The token
//! lists compare element by element, the longer list wins a tie, and the
//! revision breaks what is left.
use vstd::prelude::*;
use crate::text::{first_match_from, is_ascii_alnum, is_ascii_digit, lemma_first_match_from, slice_vec, views, words, chars_of};
use std::cmp::Ordering;

verus! {

/// `char::is_alphanumeric` (Unicode `Alphabetic` or `Numeric`).
pub uninterp spec fn char_alphanumeric(c: char) -> bool;

/// Calls `char::is_alphanumeric`. Its documentation defines it as
/// alphabetic or numeric in Unicode; for ASCII that is exactly the letters
/// and digits, which is all that is stated here besides the name.
#[verifier::external_body]
fn is_alphanumeric(c: char) -> (r: bool)
    ensures
        r == char_alphanumeric(c),
        c <= '\u{7f}' ==> (r == is_ascii_alnum(c)),
{
    c.is_alphanumeric()
}

/// Separators between version tokens: every non-alphanumeric character.
pub open spec fn token_sep() -> spec_fn(char) -> bool {
    |c: char| !char_alphanumeric(c)
}

/// The alphanumeric tokens of a version, in order, empty pieces dropped.
pub open spec fn version_tokens(v: Seq<char>) -> Seq<Seq<char>> {
    words(v, token_sep())
}

/// Three-way comparison of integers as -1, 0, 1.
pub open spec fn sign_of(d: int) -> int {
    if d < 0 {
        -1
    } else if d > 0 {
        1
    } else {
        0
    }
}

/// Value of a string of ASCII digits.
pub open spec fn digits_value(s: Seq<char>) -> nat
    decreases s.len(),
{
    if s.len() == 0 {
        0
    } else {
        digits_value(s.drop_last()) * 10 + ((s.last() as int) - ('0' as int)) as nat
    }
}

/// Whether `s` reads as a `u64` (`str::parse::<u64>` on a token, which
/// has no sign): non-empty, ASCII digits only, at most `u64::MAX`.
pub open spec fn reads_as_u64(s: Seq<char>) -> bool {
    &&& s.len() > 0
    &&& forall|i: int| 0 <= i < s.len() ==> is_ascii_digit(s[i])
    &&& digits_value(s) <= u64::MAX
}

/// Lexicographic order of code points, which is the byte order of UTF-8
/// (`str` ordering).
pub open spec fn text_order(a: Seq<char>, b: Seq<char>) -> int
    decreases a.len(),
{
    if a.len() == 0 && b.len() == 0 {
        0
    } else if a.len() == 0 {
        -1
    } else if b.len() == 0 {
        1
    } else if a[0] < b[0] {
        -1
    } else if a[0] > b[0] {
        1
    } else {
        text_order(a.drop_first(), b.drop_first())
    }
}

/// Order of two tokens: numeric when both read as `u64`, else textual.
pub open spec fn token_order(a: Seq<char>, b: Seq<char>) -> int {
    if reads_as_u64(a) && reads_as_u64(b) {
        sign_of(digits_value(a) - digits_value(b))
    } else {
        text_order(a, b)
    }
}

/// Token lists compared pairwise; on a common prefix the longer wins.
pub open spec fn tokens_order(a: Seq<Seq<char>>, b: Seq<Seq<char>>) -> int
    decreases a.len(),
{
    if a.len() == 0 || b.len() == 0 {
        sign_of(a.len() - b.len())
    } else if token_order(a[0], b[0]) != 0 {
        token_order(a[0], b[0])
    } else {
        tokens_order(a.drop_first(), b.drop_first())
    }
}

/// Order of `(version, revision)` pairs: -1, 0 or 1.
pub open spec fn version_order(a_ver: Seq<char>, a_rev: u32, b_ver: Seq<char>, b_rev: u32) -> int {
    let t = tokens_order(version_tokens(a_ver), version_tokens(b_ver));
    if t != 0 {
        t
    } else {
        sign_of(a_rev - b_rev)
    }
}

proof fn lemma_digits_value_push(s: Seq<char>, c: char)
    ensures
        digits_value(s.push(c)) == digits_value(s) * 10 + ((c as int) - ('0' as int)) as nat,
{
    assert(s.push(c).drop_last() =~= s);
}

/// `str::parse::<u64>` on a token of alphanumerics.
fn parse_token(t: &[char]) -> (r: Option<u64>)
    ensures
        r is Some <==> reads_as_u64(t@),
        r matches Some(v) ==> v == digits_value(t@),
{
    if t.len() == 0 {
        return None;
    }
    let mut acc: u64 = 0;
    let mut i: usize = 0;
    while i < t.len()
        invariant
            i <= t.len(),
            t@.len() > 0,
            forall|j: int| 0 <= j < i ==> is_ascii_digit(t@[j]),
            acc == digits_value(t@.subrange(0, i as int)),
        decreases t.len() - i,
    {
        let c = t[i];
        proof {
            assert(t@.subrange(0, i as int + 1) =~= t@.subrange(0, i as int).push(c));
            lemma_digits_value_push(t@.subrange(0, i as int), c);
        }
        if !('0' <= c && c <= '9') {
            return None;
        }
        let d: u64 = (c as u32 - '0' as u32) as u64;
        match acc.checked_mul(10) {
            Some(m) => match m.checked_add(d) {
                Some(n) => {
                    acc = n;
                },
                None => {
                    proof {
                        lemma_digits_prefix_bound(t@, i as int + 1);
                    }
                    return None;
                },
            },
            None => {
                proof {
                    lemma_digits_prefix_bound(t@, i as int + 1);
                }
                return None;
            },
        }
        i = i + 1;
    }
    assert(t@.subrange(0, t@.len() as int) =~= t@);
    Some(acc)
}

/// A prefix of a digit string never has a larger value than the whole.
proof fn lemma_digits_prefix_bound(s: Seq<char>, k: int)
    requires
        0 <= k <= s.len(),
        forall|j: int| 0 <= j < k ==> is_ascii_digit(s[j]),
    ensures
        (forall|j: int| 0 <= j < s.len() ==> is_ascii_digit(s[j])) ==> digits_value(s.subrange(0, k))
            <= digits_value(s),
    decreases s.len() - k,
{
    if k < s.len() && (forall|j: int| 0 <= j < s.len() ==> is_ascii_digit(s[j])) {
        lemma_digits_prefix_bound(s, k + 1);
        assert(s.subrange(0, k + 1) =~= s.subrange(0, k).push(s[k]));
        lemma_digits_value_push(s.subrange(0, k), s[k]);
    } else if k == s.len() {
        assert(s.subrange(0, k) =~= s);
    }
}

/// The alphanumeric tokens of `s`.
fn tokens_of(s: &[char]) -> (r: Vec<Vec<char>>)
    ensures
        views(r@) == version_tokens(s@),
{
    let ghost f = token_sep();
    let mut r: Vec<Vec<char>> = Vec::new();
    let mut pos: usize = 0;
    assert(s@.subrange(0, s.len() as int) =~= s@);
    assert(views(r@) + words(s@, f) =~= words(s@, f));
    while pos < s.len()
        invariant
            pos <= s.len(),
            f == token_sep(),
            words(s@, f) == views(r@) + words(s@.subrange(pos as int, s.len() as int), f),
        decreases s.len() - pos,
    {
        proof {
            crate::text::lemma_words_step(s@, f, pos as int);
        }
        if !is_alphanumeric(s[pos]) {
            pos = pos + 1;
        } else {
            let mut j = pos;
            while j < s.len() && is_alphanumeric(s[j])
                invariant
                    pos <= j <= s.len(),
                    f == token_sep(),
                    first_match_from(s@, f, pos as int) == first_match_from(s@, f, j as int),
                decreases s.len() - j,
            {
                j = j + 1;
            }
            let w = slice_vec(s, pos, j);
            let ghost old_r = r@;
            r.push(w);
            proof {
                assert(views(r@) =~= views(old_r) + seq![w@]);
            }
            pos = j;
        }
    }
    proof {
        assert(s@.subrange(pos as int, s.len() as int) =~= Seq::<char>::empty());
        assert(views(r@) + Seq::<Seq<char>>::empty() =~= views(r@));
    }
    r
}

/// Textual order of two tokens.
pub fn text_order_exec(a: &[char], b: &[char]) -> (r: i8)
    ensures
        r == text_order(a@, b@),
{
    let mut i: usize = 0;
    assert(a@.subrange(0, a@.len() as int) =~= a@);
    assert(b@.subrange(0, b@.len() as int) =~= b@);
    while i < a.len() && i < b.len()
        invariant
            i <= a.len(),
            i <= b.len(),
            text_order(a@, b@) == text_order(
                a@.subrange(i as int, a@.len() as int),
                b@.subrange(i as int, b@.len() as int),
            ),
        decreases a.len() - i,
    {
        let x = a[i];
        let y = b[i];
        proof {
            let sa = a@.subrange(i as int, a@.len() as int);
            let sb = b@.subrange(i as int, b@.len() as int);
            assert(sa[0] == x && sb[0] == y);
            assert(sa.drop_first() =~= a@.subrange(i as int + 1, a@.len() as int));
            assert(sb.drop_first() =~= b@.subrange(i as int + 1, b@.len() as int));
        }
        if x < y {
            return -1;
        }
        if x > y {
            return 1;
        }
        i = i + 1;
    }
    if i == a.len() && i == b.len() {
        0
    } else if i == a.len() {
        -1
    } else {
        1
    }
}

fn token_order_exec(a: &[char], b: &[char]) -> (r: i8)
    ensures
        r == token_order(a@, b@),
{
    match (parse_token(a), parse_token(b)) {
        (Some(x), Some(y)) => {
            if x < y {
                -1
            } else if x > y {
                1
            } else {
                0
            }
        },
        _ => text_order_exec(a, b),
    }
}

/// Order of `(a_ver, a_rev)` against `(b_ver, b_rev)` as -1, 0 or 1.
pub fn version_order_exec(a_ver: &str, a_rev: u32, b_ver: &str, b_rev: u32) -> (r: i8)
    ensures
        r == version_order(a_ver@, a_rev, b_ver@, b_rev),
{
    let ca = chars_of(a_ver);
    let cb = chars_of(b_ver);
    let ta = tokens_of(&ca);
    let tb = tokens_of(&cb);
    let mut i: usize = 0;
    assert(views(ta@).subrange(0, ta@.len() as int) =~= views(ta@));
    assert(views(tb@).subrange(0, tb@.len() as int) =~= views(tb@));
    while i < ta.len() && i < tb.len()
        invariant
            i <= ta.len(),
            i <= tb.len(),
            views(ta@) == version_tokens(a_ver@),
            views(tb@) == version_tokens(b_ver@),
            tokens_order(views(ta@), views(tb@)) == tokens_order(
                views(ta@).subrange(i as int, ta@.len() as int),
                views(tb@).subrange(i as int, tb@.len() as int),
            ),
        decreases ta.len() - i,
    {
        let o = token_order_exec(&ta[i], &tb[i]);
        proof {
            let sa = views(ta@).subrange(i as int, ta@.len() as int);
            let sb = views(tb@).subrange(i as int, tb@.len() as int);
            assert(sa[0] == ta@[i as int]@ && sb[0] == tb@[i as int]@);
            assert(sa.drop_first() =~= views(ta@).subrange(i as int + 1, ta@.len() as int));
            assert(sb.drop_first() =~= views(tb@).subrange(i as int + 1, tb@.len() as int));
        }
        if o != 0 {
            proof {
                let sa = views(ta@).subrange(i as int, ta@.len() as int);
                let sb = views(tb@).subrange(i as int, tb@.len() as int);
                assert(sa.len() > 0 && sb.len() > 0);
                assert(tokens_order(sa, sb) == o);
            }
            return o;
        }
        i = i + 1;
    }
    proof {
        let sa = views(ta@).subrange(i as int, ta@.len() as int);
        let sb = views(tb@).subrange(i as int, tb@.len() as int);
        assert(sa.len() == ta@.len() - i);
        assert(sb.len() == tb@.len() - i);
    }
    if ta.len() - i > 0 && tb.len() - i == 0 {
        return 1;
    }
    if ta.len() - i == 0 && tb.len() - i > 0 {
        return -1;
    }
    if a_rev < b_rev {
        -1
    } else if a_rev > b_rev {
        1
    } else {
        0
    }
}

/// Compares `(a_ver, a_rev)` with `(b_ver, b_rev)`.
pub fn cmp_pkgver(a_ver: &str, a_rev: u32, b_ver: &str, b_rev: u32) -> (r: Ordering)
    ensures
        (r == Ordering::Less) == (version_order(a_ver@, a_rev, b_ver@, b_rev) < 0),
        (r == Ordering::Equal) == (version_order(a_ver@, a_rev, b_ver@, b_rev) == 0),
        (r == Ordering::Greater) == (version_order(a_ver@, a_rev, b_ver@, b_rev) > 0),
        forall|i: int| #[trigger] first_textual_difference(version_tokens(a_ver@), version_tokens(b_ver@), i) ==> {
            &&& (r == Ordering::Greater) == str_before(version_tokens(b_ver@)[i], version_tokens(a_ver@)[i])
            &&& (r == Ordering::Less) == str_before(version_tokens(a_ver@)[i], version_tokens(b_ver@)[i])
        },
{
    proof {
        assert forall|i: int| #[trigger] first_textual_difference(version_tokens(a_ver@), version_tokens(b_ver@), i)
            implies {
            &&& (version_order(a_ver@, a_rev, b_ver@, b_rev) > 0) == str_before(version_tokens(b_ver@)[i], version_tokens(a_ver@)[i])
            &&& (version_order(a_ver@, a_rev, b_ver@, b_rev) < 0) == str_before(version_tokens(a_ver@)[i], version_tokens(b_ver@)[i])
        } by {
            lemma_textual_tokens_decide(a_ver@, a_rev, b_ver@, b_rev, i);
        }
    }
    let o = version_order_exec(a_ver, a_rev, b_ver, b_rev);
    if o < 0 {
        Ordering::Less
    } else if o > 0 {
        Ordering::Greater
    } else {
        Ordering::Equal
    }
}

/// `text_order` is zero exactly on equal texts.
pub proof fn lemma_text_order_zero(a: Seq<char>, b: Seq<char>)
    ensures
        (text_order(a, b) == 0) == (a == b),
        -1 <= text_order(a, b) <= 1,
    decreases a.len(),
{
    if a.len() > 0 && b.len() > 0 && a[0] == b[0] {
        lemma_text_order_zero(a.drop_first(), b.drop_first());
        if a.drop_first() == b.drop_first() {
            assert(a[0] == b[0]);
            assert(a =~= seq![a[0]] + a.drop_first());
            assert(b =~= seq![b[0]] + b.drop_first());
        }
    } else if a.len() > 0 && b.len() > 0 {
        if a == b {
            assert(a[0] == b[0]);
        }
    } else if a.len() == 0 && b.len() == 0 {
        assert(a =~= b);
    }
}

/// Swapping the arguments of `text_order` negates it.
pub proof fn lemma_text_order_antisym(a: Seq<char>, b: Seq<char>)
    ensures
        text_order(a, b) == -text_order(b, a),
    decreases a.len(),
{
    if a.len() > 0 && b.len() > 0 && a[0] == b[0] {
        lemma_text_order_antisym(a.drop_first(), b.drop_first());
    }
}

/// `text_order` orders transitively.
pub proof fn lemma_text_order_trans(a: Seq<char>, b: Seq<char>, c: Seq<char>)
    requires
        text_order(a, b) < 0,
        text_order(b, c) < 0,
    ensures
        text_order(a, c) < 0,
    decreases a.len(),
{
    if a.len() > 0 && b.len() > 0 && c.len() > 0 {
        if a[0] == b[0] && b[0] == c[0] {
            lemma_text_order_trans(a.drop_first(), b.drop_first(), c.drop_first());
        }
    }
}

/// Reads a token as `str::parse::<u64>` does (no sign on a token).
pub fn parse_u64_token(t: &[char]) -> (r: Option<u64>)
    ensures
        r is Some <==> reads_as_u64(t@),
        r matches Some(v) ==> v == digits_value(t@),
{
    parse_token(t)
}

/// `a` sorts before `b` as `str` values do (the byte order of UTF-8,
/// which is the order of code points): where they first differ `a` has the
/// smaller character, or `a` is a proper prefix of `b`.
pub open spec fn str_before(a: Seq<char>, b: Seq<char>) -> bool {
    exists|i: int|
        0 <= i <= a.len() && i <= b.len() && #[trigger] a.take(i) == b.take(i) && ((i == a.len() && i < b.len()) || (
        i < a.len() && i < b.len() && a[i] < b[i]))
}

proof fn lemma_text_order_str_before(a: Seq<char>, b: Seq<char>)
    ensures
        (text_order(a, b) < 0) <==> str_before(a, b),
    decreases a.len(),
{
    if a.len() == 0 && b.len() == 0 {
        if str_before(a, b) {
            let i = choose|i: int|
                0 <= i <= a.len() && i <= b.len() && #[trigger] a.take(i) == b.take(i) && ((i == a.len() && i
                    < b.len()) || (i < a.len() && i < b.len() && a[i] < b[i]));
            assert(i == 0);
        }
    } else if a.len() == 0 {
        assert(a.take(0) =~= b.take(0));
    } else if b.len() == 0 {
        if str_before(a, b) {
            let i = choose|i: int|
                0 <= i <= a.len() && i <= b.len() && #[trigger] a.take(i) == b.take(i) && ((i == a.len() && i
                    < b.len()) || (i < a.len() && i < b.len() && a[i] < b[i]));
            assert(i == 0);
        }
    } else if a[0] < b[0] {
        assert(a.take(0) =~= b.take(0));
    } else if a[0] > b[0] {
        if str_before(a, b) {
            let i = choose|i: int|
                0 <= i <= a.len() && i <= b.len() && #[trigger] a.take(i) == b.take(i) && ((i == a.len() && i
                    < b.len()) || (i < a.len() && i < b.len() && a[i] < b[i]));
            if i > 0 {
                assert(a.take(i)[0] == b.take(i)[0]);
            }
        }
    } else {
        let a2 = a.drop_first();
        let b2 = b.drop_first();
        lemma_text_order_str_before(a2, b2);
        if str_before(a, b) {
            let i = choose|i: int|
                0 <= i <= a.len() && i <= b.len() && #[trigger] a.take(i) == b.take(i) && ((i == a.len() && i
                    < b.len()) || (i < a.len() && i < b.len() && a[i] < b[i]));
            assert(i > 0);
            assert(a2.take(i - 1) =~= a.take(i).drop_first());
            assert(b2.take(i - 1) =~= b.take(i).drop_first());
            assert(a2.take(i - 1) == b2.take(i - 1));
            if i < a.len() && i < b.len() {
                assert(a2[i - 1] == a[i] && b2[i - 1] == b[i]);
            }
            assert(str_before(a2, b2));
        }
        if str_before(a2, b2) {
            let i = choose|i: int|
                0 <= i <= a2.len() && i <= b2.len() && #[trigger] a2.take(i) == b2.take(i) && ((i == a2.len() && i
                    < b2.len()) || (i < a2.len() && i < b2.len() && a2[i] < b2[i]));
            assert(a.take(i + 1) =~= seq![a[0]] + a2.take(i));
            assert(b.take(i + 1) =~= seq![b[0]] + b2.take(i));
            assert(a.take(i + 1) == b.take(i + 1));
            if i < a2.len() && i < b2.len() {
                assert(a2[i] == a[i + 1] && b2[i] == b[i + 1]);
            }
            assert(str_before(a, b));
        }
    }
}

proof fn lemma_token_order_self(t: Seq<char>)
    ensures
        token_order(t, t) == 0,
{
    lemma_text_order_zero(t, t);
}

proof fn lemma_tokens_order_at(ta: Seq<Seq<char>>, tb: Seq<Seq<char>>, i: int)
    requires
        0 <= i < ta.len(),
        i < tb.len(),
        forall|j: int| 0 <= j < i ==> ta[j] == tb[j],
        token_order(ta[i], tb[i]) != 0,
    ensures
        tokens_order(ta, tb) == token_order(ta[i], tb[i]),
    decreases i,
{
    if i > 0 {
        assert(ta[0] == tb[0]);
        lemma_token_order_self(ta[0]);
        assert forall|j: int| 0 <= j < i - 1 implies ta.drop_first()[j] == tb.drop_first()[j] by {
            assert(ta[j + 1] == tb[j + 1]);
        }
        lemma_tokens_order_at(ta.drop_first(), tb.drop_first(), i - 1);
    }
}

/// Position `i` is where the version texts `a` and `b` first differ by a
/// token pair that is not both numeric: the tokens before are equal texts,
/// the two at `i` differ and do not both read as `u64`.
pub open spec fn first_textual_difference(ta: Seq<Seq<char>>, tb: Seq<Seq<char>>, i: int) -> bool {
    &&& 0 <= i < ta.len()
    &&& i < tb.len()
    &&& forall|j: int| 0 <= j < i ==> ta[j] == tb[j]
    &&& ta[i] != tb[i]
    &&& !(reads_as_u64(ta[i]) && reads_as_u64(tb[i]))
}

/// When two versions first differ at a token pair that is not both
/// numeric, that pair decides, in `str` order: `1.1.1w` is newer than
/// `1.1.1v`, `1.0b` than `1.0a`, whatever the revisions.
pub proof fn lemma_textual_tokens_decide(a_ver: Seq<char>, a_rev: u32, b_ver: Seq<char>, b_rev: u32, i: int)
    requires
        first_textual_difference(version_tokens(a_ver), version_tokens(b_ver), i),
    ensures
        (version_order(a_ver, a_rev, b_ver, b_rev) < 0) == str_before(version_tokens(a_ver)[i], version_tokens(b_ver)[i]),
        (version_order(a_ver, a_rev, b_ver, b_rev) > 0) == str_before(version_tokens(b_ver)[i], version_tokens(a_ver)[i]),
        version_order(a_ver, a_rev, b_ver, b_rev) != 0,
{
    let ta = version_tokens(a_ver);
    let tb = version_tokens(b_ver);
    lemma_text_order_zero(ta[i], tb[i]);
    lemma_text_order_antisym(ta[i], tb[i]);
    lemma_tokens_order_at(ta, tb, i);
    lemma_text_order_str_before(ta[i], tb[i]);
    lemma_text_order_str_before(tb[i], ta[i]);
}

proof fn lemma_tokens_order_self(t: Seq<Seq<char>>)
    ensures
        tokens_order(t, t) == 0,
    decreases t.len(),
{
    if t.len() > 0 {
        lemma_token_order_self(t[0]);
        lemma_tokens_order_self(t.drop_first());
    }
}

/// When two versions first differ at a pair of numeric tokens, their
/// numbers decide: `1.10` is newer than `1.9`, whatever the revisions; and
/// versions with the same tokens are ordered by revision.
pub proof fn lemma_numbers_then_revision_decide(a_ver: Seq<char>, a_rev: u32, b_ver: Seq<char>, b_rev: u32, i: int)
    ensures
        ({
            let ta = version_tokens(a_ver);
            let tb = version_tokens(b_ver);
            (0 <= i < ta.len() && i < tb.len() && (forall|j: int| 0 <= j < i ==> ta[j] == tb[j]) && reads_as_u64(ta[i])
                && reads_as_u64(tb[i]) && digits_value(ta[i]) != digits_value(tb[i])) ==> {
                &&& (version_order(a_ver, a_rev, b_ver, b_rev) < 0) == (digits_value(ta[i]) < digits_value(tb[i]))
                &&& (version_order(a_ver, a_rev, b_ver, b_rev) > 0) == (digits_value(ta[i]) > digits_value(tb[i]))
            }
        }),
        version_tokens(a_ver) == version_tokens(b_ver) ==> {
            &&& (version_order(a_ver, a_rev, b_ver, b_rev) < 0) == (a_rev < b_rev)
            &&& (version_order(a_ver, a_rev, b_ver, b_rev) > 0) == (a_rev > b_rev)
        },
{
    let ta = version_tokens(a_ver);
    let tb = version_tokens(b_ver);
    if 0 <= i < ta.len() && i < tb.len() && (forall|j: int| 0 <= j < i ==> ta[j] == tb[j]) && reads_as_u64(ta[i])
        && reads_as_u64(tb[i]) && digits_value(ta[i]) != digits_value(tb[i]) {
        lemma_tokens_order_at(ta, tb, i);
    }
    if ta == tb {
        lemma_tokens_order_self(ta);
    }
}

} // verus!
