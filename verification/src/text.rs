//! Character-level text toolkit shared by every parser of the crate.
//!
//! Texts are modelled as `Seq<char>` (the view of `String`/`&str`); the
//! executable helpers work on `&[char]` and are proved against the spec
//! functions below, which follow the documented behaviour of the `str`
//! methods they stand for (`trim`, `lines`, `split_whitespace`, ...).
use vstd::prelude::*;

verus! {

/// Unicode `White_Space`, the set used by `char::is_whitespace`.
pub open spec fn is_ws(c: char) -> bool {
    ||| c == ' '
    ||| ('\t' <= c && c <= '\r')
    ||| c == '\u{85}'
    ||| c == '\u{a0}'
    ||| c == '\u{1680}'
    ||| ('\u{2000}' <= c && c <= '\u{200a}')
    ||| c == '\u{2028}'
    ||| c == '\u{2029}'
    ||| c == '\u{202f}'
    ||| c == '\u{205f}'
    ||| c == '\u{3000}'
}

pub fn is_whitespace(c: char) -> (r: bool)
    ensures
        r == is_ws(c),
{
    c == ' ' || ('\t' <= c && c <= '\r') || c == '\u{85}' || c == '\u{a0}' || c == '\u{1680}'
        || ('\u{2000}' <= c && c <= '\u{200a}') || c == '\u{2028}' || c == '\u{2029}' || c
        == '\u{202f}' || c == '\u{205f}' || c == '\u{3000}'
}

pub open spec fn is_ascii_digit(c: char) -> bool {
    '0' <= c && c <= '9'
}

pub open spec fn is_ascii_alpha(c: char) -> bool {
    ('a' <= c && c <= 'z') || ('A' <= c && c <= 'Z')
}

pub open spec fn is_ascii_alnum(c: char) -> bool {
    is_ascii_digit(c) || is_ascii_alpha(c)
}

pub open spec fn is_ascii_hex(c: char) -> bool {
    is_ascii_digit(c) || ('a' <= c && c <= 'f') || ('A' <= c && c <= 'F')
}

pub fn ascii_alnum(c: char) -> (r: bool)
    ensures
        r == is_ascii_alnum(c),
{
    ('0' <= c && c <= '9') || ('a' <= c && c <= 'z') || ('A' <= c && c <= 'Z')
}

pub fn ascii_digit(c: char) -> (r: bool)
    ensures
        r == is_ascii_digit(c),
{
    '0' <= c && c <= '9'
}

pub fn ascii_hex(c: char) -> (r: bool)
    ensures
        r == is_ascii_hex(c),
{
    ('0' <= c && c <= '9') || ('a' <= c && c <= 'f') || ('A' <= c && c <= 'F')
}

/// `s` with its leading whitespace removed (`str::trim_start`).
pub open spec fn trim_start(s: Seq<char>) -> Seq<char>
    decreases s.len(),
{
    if s.len() > 0 && is_ws(s[0]) {
        trim_start(s.drop_first())
    } else {
        s
    }
}

/// `s` with its trailing whitespace removed (`str::trim_end`).
pub open spec fn trim_end(s: Seq<char>) -> Seq<char>
    decreases s.len(),
{
    if s.len() > 0 && is_ws(s.last()) {
        trim_end(s.drop_last())
    } else {
        s
    }
}

/// `str::trim`.
pub open spec fn trim(s: Seq<char>) -> Seq<char> {
    trim_end(trim_start(s))
}

pub open spec fn has_prefix(s: Seq<char>, p: Seq<char>) -> bool {
    p.len() <= s.len() && s.subrange(0, p.len() as int) == p
}

pub open spec fn has_suffix(s: Seq<char>, p: Seq<char>) -> bool {
    p.len() <= s.len() && s.subrange(s.len() - p.len(), s.len() as int) == p
}

pub open spec fn occurs_at(s: Seq<char>, p: Seq<char>, i: int) -> bool {
    0 <= i && i + p.len() <= s.len() && s.subrange(i, i + p.len()) == p
}

pub open spec fn contains(s: Seq<char>, p: Seq<char>) -> bool {
    exists|i: int| occurs_at(s, p, i)
}

pub open spec fn has_char(s: Seq<char>, c: char) -> bool {
    exists|i: int| 0 <= i < s.len() && s[i] == c
}

/// First position `>= i` where `p` occurs (`str::find` from `i`).
pub open spec fn find_from(s: Seq<char>, p: Seq<char>, i: int) -> Option<int>
    decreases s.len() - i,
{
    if i < 0 || i + p.len() > s.len() {
        None
    } else if occurs_at(s, p, i) {
        Some(i)
    } else if i >= s.len() {
        None
    } else {
        find_from(s, p, i + 1)
    }
}

pub open spec fn find(s: Seq<char>, p: Seq<char>) -> Option<int> {
    find_from(s, p, 0)
}

/// First index `>= i` whose char satisfies `f`, or `s.len()` if none.
pub open spec fn first_match_from(s: Seq<char>, f: spec_fn(char) -> bool, i: int) -> int
    decreases s.len() - i,
{
    if i < 0 || i >= s.len() {
        s.len() as int
    } else if f(s[i]) {
        i
    } else {
        first_match_from(s, f, i + 1)
    }
}

/// The lines of `s` as `str::lines` yields them: split at `\n`, a `\r`
/// right before the `\n` dropped, no empty line after a final `\n`.
pub open spec fn lines(s: Seq<char>) -> Seq<Seq<char>>
    decreases s.len(),
{
    if s.len() == 0 {
        Seq::empty()
    } else {
        let i = first_match_from(s, nl_pred(), 0);
        proof {
            lemma_first_match_from(s, nl_pred(), 0);
        }
        let raw = s.subrange(0, i);
        let line = if i < s.len() && raw.len() > 0 && raw.last() == '\r' {
            raw.drop_last()
        } else {
            raw
        };
        let rest = if i < s.len() {
            s.subrange(i + 1, s.len() as int)
        } else {
            Seq::empty()
        };
        seq![line] + lines(rest)
    }
}

/// Maximal runs of characters that are not separators (`f` marks the
/// separators), in order: `str::split(f)` with the empty pieces dropped.
pub open spec fn words(s: Seq<char>, f: spec_fn(char) -> bool) -> Seq<Seq<char>>
    decreases s.len(),
{
    if s.len() == 0 {
        Seq::empty()
    } else if f(s[0]) {
        words(s.drop_first(), f)
    } else {
        let j = first_match_from(s, f, 0);
        proof {
            lemma_first_match_from(s, f, 0);
        }
        seq![s.subrange(0, j)] + words(s.subrange(j, s.len() as int), f)
    }
}

pub open spec fn nl_pred() -> spec_fn(char) -> bool {
    |c: char| c == '\n'
}

pub open spec fn ws_pred() -> spec_fn(char) -> bool {
    |c: char| is_ws(c)
}

/// `str::split_whitespace`.
pub open spec fn split_ws(s: Seq<char>) -> Seq<Seq<char>> {
    words(s, ws_pred())
}

/// `parts.join(sep)`.
pub open spec fn join(parts: Seq<Seq<char>>, sep: Seq<char>) -> Seq<char>
    decreases parts.len(),
{
    if parts.len() == 0 {
        Seq::empty()
    } else if parts.len() == 1 {
        parts[0]
    } else {
        join(parts.drop_last(), sep) + sep + parts.last()
    }
}

pub open spec fn views(v: Seq<Vec<char>>) -> Seq<Seq<char>> {
    v.map_values(|x: Vec<char>| x@)
}

pub open spec fn string_views(v: Seq<String>) -> Seq<Seq<char>> {
    v.map_values(|x: String| x@)
}

// ------------------------------------------------------------------
// Conversions
// ------------------------------------------------------------------

/// The characters of `s`.
pub fn chars_of(s: &str) -> (v: Vec<char>)
    ensures
        v@ == s@,
{
    let mut v: Vec<char> = Vec::new();
    for c in it: s.chars()
        invariant
            v@ == it.seq().take(it.index() as int),
            it.seq() == s@,
    {
        v.push(c);
    }
    v
}

/// Appends one character (`String::push`).
#[verifier::external_body]
pub fn push_char(s: &mut String, c: char)
    ensures
        final(s)@ == old(s)@.push(c),
{
    s.push(c);
}

/// Appends a string slice (`String::push_str`).
#[verifier::external_body]
pub fn push_str(s: &mut String, t: &str)
    ensures
        final(s)@ == old(s)@ + t@,
{
    s.push_str(t);
}

/// A `String` holding exactly the characters `v`.
pub fn string_from(v: &[char]) -> (s: String)
    ensures
        s@ == v@,
{
    let mut s = String::new();
    let mut i: usize = 0;
    while i < v.len()
        invariant
            i <= v.len(),
            s@ == v@.subrange(0, i as int),
        decreases v.len() - i,
    {
        push_char(&mut s, v[i]);
        i = i + 1;
    }
    s
}

/// A `String` holding `a` followed by `b`.
pub fn concat(a: &str, b: &str) -> (s: String)
    ensures
        s@ == a@ + b@,
{
    let mut s = a.to_owned();
    push_str(&mut s, b);
    s
}

pub fn concat3(a: &str, b: &str, c: &str) -> (s: String)
    ensures
        s@ == a@ + b@ + c@,
{
    let mut s = a.to_owned();
    push_str(&mut s, b);
    push_str(&mut s, c);
    s
}

/// Decimal rendering of an unsigned integer.
pub open spec fn decimal(n: nat) -> Seq<char>
    decreases n,
{
    if n < 10 {
        seq![digit_char(n)]
    } else {
        decimal(n / 10).push(digit_char(n % 10))
    }
}

pub open spec fn digit_char(d: nat) -> char {
    if d == 0 {
        '0'
    } else if d == 1 {
        '1'
    } else if d == 2 {
        '2'
    } else if d == 3 {
        '3'
    } else if d == 4 {
        '4'
    } else if d == 5 {
        '5'
    } else if d == 6 {
        '6'
    } else if d == 7 {
        '7'
    } else if d == 8 {
        '8'
    } else {
        '9'
    }
}

fn digit(d: u64) -> (c: char)
    requires
        d < 10,
    ensures
        c == digit_char(d as nat),
{
    if d == 0 {
        '0'
    } else if d == 1 {
        '1'
    } else if d == 2 {
        '2'
    } else if d == 3 {
        '3'
    } else if d == 4 {
        '4'
    } else if d == 5 {
        '5'
    } else if d == 6 {
        '6'
    } else if d == 7 {
        '7'
    } else if d == 8 {
        '8'
    } else {
        '9'
    }
}

pub fn decimal_string(n: u64) -> (s: String)
    ensures
        s@ == decimal(n as nat),
    decreases n,
{
    if n < 10 {
        let mut s = String::new();
        push_char(&mut s, digit(n));
        s
    } else {
        let mut s = decimal_string(n / 10);
        push_char(&mut s, digit(n % 10));
        s
    }
}

/// Decimal text of a signed integer (`-` before a negative one).
pub open spec fn signed_decimal(n: int) -> Seq<char> {
    if n < 0 {
        seq!['-'] + decimal((-n) as nat)
    } else {
        decimal(n as nat)
    }
}

pub fn decimal_string_i32(n: i32) -> (s: String)
    ensures
        s@ == signed_decimal(n as int),
{
    if n < 0 {
        let m: u64 = (-(n as i64)) as u64;
        let d = decimal_string(m);
        let mut s = String::new();
        push_char(&mut s, '-');
        push_str(&mut s, d.as_str());
        s
    } else {
        decimal_string(n as u64)
    }
}

pub fn decimal_string_i64(n: i64) -> (s: String)
    ensures
        s@ == signed_decimal(n as int),
{
    if n < 0 {
        let m: u64 = if n == i64::MIN {
            9223372036854775808u64
        } else {
            (-n) as u64
        };
        let d = decimal_string(m);
        let mut s = String::new();
        push_char(&mut s, '-');
        push_str(&mut s, d.as_str());
        s
    } else {
        decimal_string(n as u64)
    }
}

/// `s` padded with spaces on the right to `width` characters (`{:<width}`).
pub open spec fn pad_right(s: Seq<char>, width: nat) -> Seq<char> {
    if s.len() < width {
        s + Seq::new((width - s.len()) as nat, |i: int| ' ')
    } else {
        s
    }
}

pub fn pad_right_string(s: &str, width: usize) -> (r: String)
    ensures
        r@ == pad_right(s@, width as nat),
{
    let mut r = s.to_owned();
    let n = chars_of(s).len();
    let mut k = n;
    while k < width
        invariant
            n == s@.len(),
            n <= k,
            k <= width || n >= width,
            n >= width ==> k == n,
            r@ == s@ + Seq::new((k - n) as nat, |i: int| ' '),
        decreases width - k,
    {
        push_char(&mut r, ' ');
        assert(r@ =~= s@ + Seq::new((k + 1 - n) as nat, |i: int| ' '));
        k = k + 1;
    }
    if n >= width {
        assert(r@ =~= s@);
    } else {
        assert(k == width);
    }
    r
}

// ------------------------------------------------------------------
// Searching
// ------------------------------------------------------------------

pub fn has_prefix_exec(s: &[char], p: &[char]) -> (r: bool)
    ensures
        r == has_prefix(s@, p@),
{
    if p.len() > s.len() {
        return false;
    }
    let mut i: usize = 0;
    while i < p.len()
        invariant
            p.len() <= s.len(),
            i <= p.len(),
            s@.subrange(0, i as int) == p@.subrange(0, i as int),
        decreases p.len() - i,
    {
        if s[i] != p[i] {
            assert(s@.subrange(0, p.len() as int)[i as int] != p@[i as int]);
            return false;
        }
        i = i + 1;
        assert(s@.subrange(0, i as int) =~= p@.subrange(0, i as int));
    }
    assert(p@.subrange(0, p.len() as int) =~= p@);
    true
}

pub fn has_suffix_exec(s: &[char], p: &[char]) -> (r: bool)
    ensures
        r == has_suffix(s@, p@),
{
    if p.len() > s.len() {
        return false;
    }
    let off = s.len() - p.len();
    let mut i: usize = 0;
    while i < p.len()
        invariant
            p.len() <= s.len(),
            off == s.len() - p.len(),
            i <= p.len(),
            s@.subrange(off as int, off + i) == p@.subrange(0, i as int),
        decreases p.len() - i,
    {
        if s[off + i] != p[i] {
            assert(s@.subrange(off as int, s.len() as int)[i as int] != p@[i as int]);
            return false;
        }
        i = i + 1;
        assert(s@.subrange(off as int, off + i) =~= p@.subrange(0, i as int));
    }
    assert(p@.subrange(0, p.len() as int) =~= p@);
    true
}

/// Whether `p` occurs at position `i` of `s`.
pub fn occurs_at_exec(s: &[char], p: &[char], i: usize) -> (r: bool)
    ensures
        r == occurs_at(s@, p@, i as int),
{
    if i > s.len() || p.len() > s.len() - i {
        return false;
    }
    let mut k: usize = 0;
    while k < p.len()
        invariant
            i + p.len() <= s.len(),
            k <= p.len(),
            s@.subrange(i as int, i + k) == p@.subrange(0, k as int),
        decreases p.len() - k,
    {
        if s[i + k] != p[k] {
            assert(s@.subrange(i as int, i + p.len())[k as int] != p@[k as int]);
            return false;
        }
        k = k + 1;
        assert(s@.subrange(i as int, i + k) =~= p@.subrange(0, k as int));
    }
    assert(p@.subrange(0, p.len() as int) =~= p@);
    true
}

pub proof fn lemma_find_from_none(s: Seq<char>, p: Seq<char>, i: int)
    requires
        0 <= i,
        find_from(s, p, i) is None,
    ensures
        forall|j: int| i <= j ==> !occurs_at(s, p, j),
    decreases s.len() - i,
{
    if i + p.len() <= s.len() && i < s.len() {
        lemma_find_from_none(s, p, i + 1);
    }
}

pub proof fn lemma_find_from_some(s: Seq<char>, p: Seq<char>, i: int)
    requires
        0 <= i,
        find_from(s, p, i) is Some,
    ensures
        occurs_at(s, p, find_from(s, p, i)->0),
        i <= find_from(s, p, i)->0,
        forall|j: int| i <= j < find_from(s, p, i)->0 ==> !occurs_at(s, p, j),
    decreases s.len() - i,
{
    if !occurs_at(s, p, i) {
        lemma_find_from_some(s, p, i + 1);
    }
}

/// `str::find` starting at `from`.
pub fn find_from_exec(s: &[char], p: &[char], from: usize) -> (r: Option<usize>)
    ensures
        r matches Some(k) ==> find_from(s@, p@, from as int) == Some(k as int),
        r is None ==> find_from(s@, p@, from as int) is None,
{
    let mut i = from;
    if i > s.len() || p.len() > s.len() - i {
        return None;
    }
    let last = s.len() - p.len();
    while i <= last
        invariant
            from <= i,
            last == s.len() - p.len(),
            p.len() <= s.len(),
            find_from(s@, p@, from as int) == find_from(s@, p@, i as int),
        decreases s.len() - i,
    {
        if occurs_at_exec(s, p, i) {
            return Some(i);
        }
        if i >= s.len() {
            return None;
        }
        i = i + 1;
    }
    None
}

pub fn find_exec(s: &[char], p: &[char]) -> (r: Option<usize>)
    ensures
        r matches Some(k) ==> find(s@, p@) == Some(k as int) && occurs_at(s@, p@, k as int),
        r is None ==> find(s@, p@) is None,
{
    let r = find_from_exec(s, p, 0);
    proof {
        if r is Some {
            lemma_find_from_some(s@, p@, 0);
        }
    }
    r
}

pub fn contains_exec(s: &[char], p: &[char]) -> (r: bool)
    ensures
        r == contains(s@, p@),
{
    match find_exec(s, p) {
        Some(k) => {
            proof {
                lemma_find_from_some(s@, p@, 0);
            }
            true
        },
        None => {
            proof {
                lemma_find_from_none(s@, p@, 0);
            }
            false
        },
    }
}

/// Whether `s` contains the literal `p` (`str::contains`).
pub fn str_contains(s: &[char], p: &str) -> (r: bool)
    ensures
        r == contains(s@, p@),
{
    let pv = chars_of(p);
    contains_exec(s, &pv)
}

/// Whether `s` starts with the literal `p` (`str::starts_with`).
pub fn str_starts(s: &[char], p: &str) -> (r: bool)
    ensures
        r == has_prefix(s@, p@),
{
    let pv = chars_of(p);
    has_prefix_exec(s, &pv)
}

pub fn str_ends(s: &[char], p: &str) -> (r: bool)
    ensures
        r == has_suffix(s@, p@),
{
    let pv = chars_of(p);
    has_suffix_exec(s, &pv)
}

/// Whether the two character sequences are equal.
pub fn chars_eq(a: &[char], b: &[char]) -> (r: bool)
    ensures
        r == (a@ == b@),
{
    if a.len() != b.len() {
        return false;
    }
    let r = has_prefix_exec(a, b);
    proof {
        assert(a@.subrange(0, b@.len() as int) =~= a@);
    }
    r
}

/// Whether `s` is exactly the literal `p`.
pub fn str_is(s: &[char], p: &str) -> (r: bool)
    ensures
        r == (s@ == p@),
{
    let pv = chars_of(p);
    chars_eq(s, &pv)
}

pub fn has_char_exec(s: &[char], c: char) -> (r: bool)
    ensures
        r == has_char(s@, c),
{
    let mut i: usize = 0;
    while i < s.len()
        invariant
            i <= s.len(),
            forall|j: int| 0 <= j < i ==> s@[j] != c,
        decreases s.len() - i,
    {
        if s[i] == c {
            return true;
        }
        i = i + 1;
    }
    false
}

pub proof fn lemma_first_match_from(s: Seq<char>, f: spec_fn(char) -> bool, i: int)
    requires
        0 <= i <= s.len(),
    ensures
        i <= first_match_from(s, f, i) <= s.len(),
        first_match_from(s, f, i) < s.len() ==> f(s[first_match_from(s, f, i)]),
        forall|j: int| i <= j < first_match_from(s, f, i) ==> !f(s[j]),
    decreases s.len() - i,
{
    if i < s.len() && !f(s[i]) {
        lemma_first_match_from(s, f, i + 1);
    }
}

// ------------------------------------------------------------------
// Trimming
// ------------------------------------------------------------------

pub proof fn lemma_trim_start_suffix(s: Seq<char>)
    ensures
        trim_start(s).len() <= s.len(),
        trim_start(s) == s.subrange(s.len() - trim_start(s).len(), s.len() as int),
        forall|j: int| 0 <= j < s.len() - trim_start(s).len() ==> is_ws(s[j]),
        trim_start(s).len() > 0 ==> !is_ws(trim_start(s)[0]),
    decreases s.len(),
{
    if s.len() > 0 && is_ws(s[0]) {
        lemma_trim_start_suffix(s.drop_first());
        let t = trim_start(s.drop_first());
        assert(s.drop_first().subrange(s.len() - 1 - t.len(), s.len() - 1) =~= s.subrange(
            s.len() - t.len(),
            s.len() as int,
        ));
        assert forall|j: int| 0 <= j < s.len() - trim_start(s).len() implies is_ws(s[j]) by {
            if j > 0 {
                assert(s[j] == s.drop_first()[j - 1]);
            }
        }
    } else {
        assert(s.subrange(0, s.len() as int) =~= s);
    }
}

pub proof fn lemma_trim_end_prefix(s: Seq<char>)
    ensures
        trim_end(s).len() <= s.len(),
        trim_end(s) == s.subrange(0, trim_end(s).len() as int),
        forall|j: int| trim_end(s).len() <= j < s.len() ==> is_ws(s[j]),
        trim_end(s).len() > 0 ==> !is_ws(trim_end(s).last()),
    decreases s.len(),
{
    if s.len() > 0 && is_ws(s.last()) {
        lemma_trim_end_prefix(s.drop_last());
        let t = trim_end(s.drop_last());
        assert(s.drop_last().subrange(0, t.len() as int) =~= s.subrange(0, t.len() as int));
        assert forall|j: int| trim_end(s).len() <= j < s.len() implies is_ws(s[j]) by {
            if j < s.len() - 1 {
                assert(s[j] == s.drop_last()[j]);
            }
        }
    } else {
        assert(s.subrange(0, s.len() as int) =~= s);
    }
}

/// Index of the first non-whitespace character of `s[lo..hi]`.
fn skip_ws_fwd(s: &[char], lo: usize, hi: usize) -> (r: usize)
    requires
        lo <= hi <= s.len(),
    ensures
        r == hi - trim_start(s@.subrange(lo as int, hi as int)).len(),
        lo <= r <= hi,
{
    let mut i = lo;
    while i < hi && is_whitespace(s[i])
        invariant
            lo <= i <= hi,
            hi <= s.len(),
            trim_start(s@.subrange(lo as int, hi as int)) == trim_start(
                s@.subrange(i as int, hi as int),
            ),
        decreases hi - i,
    {
        assert(s@.subrange(i as int, hi as int).drop_first() =~= s@.subrange(i + 1, hi as int));
        i = i + 1;
    }
    proof {
        let t = s@.subrange(i as int, hi as int);
        if t.len() > 0 {
            assert(t[0] == s@[i as int]);
        }
    }
    i
}

/// Index one past the last non-whitespace character of `s[lo..hi]`.
fn skip_ws_back(s: &[char], lo: usize, hi: usize) -> (r: usize)
    requires
        lo <= hi <= s.len(),
    ensures
        r == lo + trim_end(s@.subrange(lo as int, hi as int)).len(),
        lo <= r <= hi,
{
    let mut j = hi;
    while j > lo && is_whitespace(s[j - 1])
        invariant
            lo <= j <= hi,
            hi <= s.len(),
            trim_end(s@.subrange(lo as int, hi as int)) == trim_end(
                s@.subrange(lo as int, j as int),
            ),
        decreases j - lo,
    {
        assert(s@.subrange(lo as int, j as int).drop_last() =~= s@.subrange(lo as int, j - 1));
        j = j - 1;
    }
    proof {
        let t = s@.subrange(lo as int, j as int);
        if t.len() > 0 {
            assert(t.last() == s@[j - 1]);
        }
    }
    j
}

/// Bounds `(a, b)` with `s[a..b] == trim(s[lo..hi])`.
pub fn trim_bounds(s: &[char], lo: usize, hi: usize) -> (r: (usize, usize))
    requires
        lo <= hi <= s.len(),
    ensures
        lo <= r.0 <= r.1 <= hi,
        s@.subrange(r.0 as int, r.1 as int) == trim(s@.subrange(lo as int, hi as int)),
{
    let a = skip_ws_fwd(s, lo, hi);
    let b = skip_ws_back(s, a, hi);
    proof {
        let w = s@.subrange(lo as int, hi as int);
        lemma_trim_start_suffix(w);
        assert(trim_start(w) =~= s@.subrange(a as int, hi as int));
        let v = s@.subrange(a as int, hi as int);
        lemma_trim_end_prefix(v);
        assert(trim_end(v) =~= s@.subrange(a as int, b as int));
    }
    (a, b)
}

pub fn trim_start_bound(s: &[char], lo: usize, hi: usize) -> (r: usize)
    requires
        lo <= hi <= s.len(),
    ensures
        lo <= r <= hi,
        s@.subrange(r as int, hi as int) == trim_start(s@.subrange(lo as int, hi as int)),
{
    let a = skip_ws_fwd(s, lo, hi);
    proof {
        let w = s@.subrange(lo as int, hi as int);
        lemma_trim_start_suffix(w);
        assert(trim_start(w) =~= s@.subrange(a as int, hi as int));
    }
    a
}

pub fn trim_end_bound(s: &[char], lo: usize, hi: usize) -> (r: usize)
    requires
        lo <= hi <= s.len(),
    ensures
        lo <= r <= hi,
        s@.subrange(lo as int, r as int) == trim_end(s@.subrange(lo as int, hi as int)),
{
    let b = skip_ws_back(s, lo, hi);
    proof {
        let v = s@.subrange(lo as int, hi as int);
        lemma_trim_end_prefix(v);
        assert(trim_end(v) =~= s@.subrange(lo as int, b as int));
    }
    b
}

/// Copy of `s[lo..hi]`.
pub fn slice_vec(s: &[char], lo: usize, hi: usize) -> (r: Vec<char>)
    requires
        lo <= hi <= s.len(),
    ensures
        r@ == s@.subrange(lo as int, hi as int),
{
    let mut r: Vec<char> = Vec::new();
    let mut i = lo;
    while i < hi
        invariant
            lo <= i <= hi,
            hi <= s.len(),
            r@ == s@.subrange(lo as int, i as int),
        decreases hi - i,
    {
        r.push(s[i]);
        i = i + 1;
        assert(r@ =~= s@.subrange(lo as int, i as int));
    }
    r
}

/// `str::trim` on a character slice.
pub fn trim_vec(s: &[char]) -> (r: Vec<char>)
    ensures
        r@ == trim(s@),
{
    let (a, b) = trim_bounds(s, 0, s.len());
    assert(s@.subrange(0, s@.len() as int) =~= s@);
    slice_vec(s, a, b)
}

pub fn trim_start_vec(s: &[char]) -> (r: Vec<char>)
    ensures
        r@ == trim_start(s@),
{
    let a = trim_start_bound(s, 0, s.len());
    assert(s@.subrange(0, s@.len() as int) =~= s@);
    slice_vec(s, a, s.len())
}

pub fn trim_end_vec(s: &[char]) -> (r: Vec<char>)
    ensures
        r@ == trim_end(s@),
{
    let b = trim_end_bound(s, 0, s.len());
    assert(s@.subrange(0, s@.len() as int) =~= s@);
    slice_vec(s, 0, b)
}

/// `str::trim` producing a `String`.
pub fn trim_string(s: &str) -> (r: String)
    ensures
        r@ == trim(s@),
{
    let v = chars_of(s);
    let t = trim_vec(&v);
    string_from(&t)
}

// ------------------------------------------------------------------
// Lines and words
// ------------------------------------------------------------------

pub proof fn lemma_lines_step(s: Seq<char>, pos: int, nl: int)
    requires
        0 <= pos < s.len(),
        nl == first_match_from(s, nl_pred(), pos),
    ensures
        ({
            let t = s.subrange(pos, s.len() as int);
            let raw = s.subrange(pos, nl);
            let line = if nl < s.len() && raw.len() > 0 && raw.last() == '\r' {
                raw.drop_last()
            } else {
                raw
            };
            let next = if nl < s.len() {
                nl + 1
            } else {
                s.len() as int
            };
            lines(t) == seq![line] + lines(s.subrange(next, s.len() as int))
        }),
{
    let f = nl_pred();
    let t = s.subrange(pos, s.len() as int);
    lemma_first_match_from(s, f, pos);
    lemma_first_match_from(t, f, 0);
    let i = first_match_from(t, f, 0);
    // both searches find the same position
    assert(i + pos == nl) by {
        if i + pos < nl {
            assert(t[i] == s[i + pos]);
        } else if i + pos > nl {
            assert(t[nl - pos] == s[nl]);
        }
    }
    assert(t.subrange(0, i) =~= s.subrange(pos, nl));
    if nl < s.len() {
        assert(t.subrange(i + 1, t.len() as int) =~= s.subrange(nl + 1, s.len() as int));
    } else {
        assert(s.subrange(s.len() as int, s.len() as int) =~= Seq::<char>::empty());
    }
}

/// `str::lines`: the lines of `s`.
pub fn lines_of(s: &[char]) -> (r: Vec<Vec<char>>)
    ensures
        views(r@) == lines(s@),
{
    let mut r: Vec<Vec<char>> = Vec::new();
    let mut pos: usize = 0;
    assert(s@.subrange(0, s.len() as int) =~= s@);
    assert(views(r@) + lines(s@) =~= lines(s@));
    while pos < s.len()
        invariant
            pos <= s.len(),
            lines(s@) == views(r@) + lines(s@.subrange(pos as int, s.len() as int)),
        decreases s.len() - pos,
    {
        let mut nl = pos;
        while nl < s.len() && s[nl] != '\n'
            invariant
                pos <= nl <= s.len(),
                first_match_from(s@, nl_pred(), pos as int) == first_match_from(
                    s@,
                    nl_pred(),
                    nl as int,
                ),
            decreases s.len() - nl,
        {
            nl = nl + 1;
        }
        proof {
            lemma_lines_step(s@, pos as int, nl as int);
        }
        let end = if nl < s.len() && nl > pos && s[nl - 1] == '\r' {
            nl - 1
        } else {
            nl
        };
        let line = slice_vec(s, pos, end);
        proof {
            let raw = s@.subrange(pos as int, nl as int);
            if nl < s.len() && raw.len() > 0 && raw.last() == '\r' {
                assert(raw.drop_last() =~= line@);
            } else {
                assert(raw =~= line@);
            }
        }
        let ghost old_r = r@;
        r.push(line);
        pos = if nl < s.len() {
            nl + 1
        } else {
            nl
        };
        proof {
            assert(views(r@) =~= views(old_r) + seq![line@]);
        }
    }
    proof {
        assert(s@.subrange(pos as int, s.len() as int) =~= Seq::<char>::empty());
        assert(views(r@) + Seq::<Seq<char>>::empty() =~= views(r@));
    }
    r
}

pub proof fn lemma_words_step(s: Seq<char>, f: spec_fn(char) -> bool, pos: int)
    requires
        0 <= pos < s.len(),
    ensures
        f(s[pos]) ==> words(s.subrange(pos, s.len() as int), f) == words(
            s.subrange(pos + 1, s.len() as int),
            f,
        ),
        !f(s[pos]) ==> ({
            let j = first_match_from(s, f, pos);
            words(s.subrange(pos, s.len() as int), f) == seq![s.subrange(pos, j)] + words(
                s.subrange(j, s.len() as int),
                f,
            )
        }),
{
    let t = s.subrange(pos, s.len() as int);
    assert(t[0] == s[pos]);
    if f(s[pos]) {
        assert(t.drop_first() =~= s.subrange(pos + 1, s.len() as int));
    } else {
        lemma_first_match_from(s, f, pos);
        lemma_first_match_from(t, f, 0);
        let i = first_match_from(t, f, 0);
        let j = first_match_from(s, f, pos);
        assert(i + pos == j) by {
            if i + pos < j {
                assert(t[i] == s[i + pos]);
            } else if i + pos > j {
                assert(t[j - pos] == s[j]);
            }
        }
        assert(t.subrange(0, i) =~= s.subrange(pos, j));
        assert(t.subrange(i, t.len() as int) =~= s.subrange(j, s.len() as int));
    }
}

pub proof fn lemma_words_nonempty(s: Seq<char>, f: spec_fn(char) -> bool, k: int)
    requires
        0 <= k < s.len(),
        !f(s[k]),
    ensures
        words(s, f).len() > 0,
    decreases s.len(),
{
    if f(s[0]) {
        assert(s.drop_first()[k - 1] == s[k]);
        lemma_words_nonempty(s.drop_first(), f, k - 1);
    }
}

/// A trimmed, non-empty text has at least one word.
pub proof fn lemma_split_ws_nonempty(line: Seq<char>)
    requires
        trim(line).len() > 0,
    ensures
        split_ws(trim(line)).len() > 0,
{
    let t = trim(line);
    lemma_trim_end_prefix(trim_start(line));
    lemma_words_nonempty(t, ws_pred(), t.len() - 1);
}

/// `str::split_whitespace`.
pub fn split_ws_of(s: &[char]) -> (r: Vec<Vec<char>>)
    ensures
        views(r@) == split_ws(s@),
{
    let ghost f = ws_pred();
    let mut r: Vec<Vec<char>> = Vec::new();
    let mut pos: usize = 0;
    assert(s@.subrange(0, s.len() as int) =~= s@);
    assert(views(r@) + words(s@, f) =~= words(s@, f));
    while pos < s.len()
        invariant
            pos <= s.len(),
            f == ws_pred(),
            words(s@, f) == views(r@) + words(s@.subrange(pos as int, s.len() as int), f),
        decreases s.len() - pos,
    {
        proof {
            lemma_words_step(s@, f, pos as int);
        }
        if is_whitespace(s[pos]) {
            pos = pos + 1;
        } else {
            let mut j = pos;
            while j < s.len() && !is_whitespace(s[j])
                invariant
                    pos <= j <= s.len(),
                    f == ws_pred(),
                    first_match_from(s@, f, pos as int) == first_match_from(s@, f, j as int),
                decreases s.len() - j,
            {
                j = j + 1;
            }
            let w = slice_vec(s, pos, j);
            let ghost old_r = r@;
            r.push(w);
            proof {
                assert(views(r@) =~= views(old_r) + seq![w@]);
            }
            pos = j;
        }
    }
    proof {
        assert(s@.subrange(pos as int, s.len() as int) =~= Seq::<char>::empty());
        assert(views(r@) + Seq::<Seq<char>>::empty() =~= views(r@));
    }
    r
}

/// `parts.join(sep)` into a `String`.
pub fn join_strings(parts: &Vec<String>, sep: &str) -> (r: String)
    ensures
        r@ == join(string_views(parts@), sep@),
{
    let mut r = String::new();
    let mut i: usize = 0;
    while i < parts.len()
        invariant
            i <= parts.len(),
            r@ == join(string_views(parts@.subrange(0, i as int)), sep@),
        decreases parts.len() - i,
    {
        let ghost pre = string_views(parts@.subrange(0, i as int));
        if i > 0 {
            push_str(&mut r, sep);
        }
        push_str(&mut r, parts[i].as_str());
        i = i + 1;
        proof {
            let cur = string_views(parts@.subrange(0, i as int));
            assert(cur.drop_last() =~= pre);
            if i == 1 {
                assert(r@ =~= cur[0]);
            }
        }
    }
    assert(parts@.subrange(0, parts.len() as int) =~= parts@);
    r
}

/// `str::to_lowercase`.
pub uninterp spec fn lowercase(s: Seq<char>) -> Seq<char>;

/// ASCII lowercase of each character.
pub open spec fn ascii_lower(s: Seq<char>) -> Seq<char> {
    s.map_values(
        |c: char|
            if 'A' <= c && c <= 'Z' {
                ((c as u32) + 32) as char
            } else {
                c
            },
    )
}

/// Calls `str::to_lowercase`: Unicode lowercase mapping, which on ASCII
/// text maps `A`-`Z` to `a`-`z` and leaves every other character.
#[verifier::external_body]
pub fn to_lower(s: &str) -> (r: String)
    ensures
        r@ == lowercase(s@),
        (forall|i: int| 0 <= i < s@.len() ==> s@[i] <= '\u{7f}') ==> r@ == ascii_lower(s@),
{
    s.to_lowercase()
}

/// The decimal text of a number reads back as that number: non-empty,
/// digits only (so neither `_` nor `+`).
pub proof fn lemma_decimal_reads_back(n: nat)
    ensures
        decimal(n).len() > 0,
        forall|i: int| 0 <= i < decimal(n).len() ==> is_ascii_digit(#[trigger] decimal(n)[i]),
        crate::version::digits_value(decimal(n)) == n,
    decreases n,
{
    let d = decimal(n);
    let k = n % 10;
    assert(k < 10);
    assert(digit_char(k) as int - '0' as int == k);
    assert(is_ascii_digit(digit_char(k)));
    if n >= 10 {
        lemma_decimal_reads_back(n / 10);
        let p = decimal(n / 10);
        assert(d == p.push(digit_char(k)));
        assert(d.drop_last() =~= p);
        assert(d.last() == digit_char(k));
        assert(crate::version::digits_value(d) == crate::version::digits_value(p) * 10 + k);
        assert(n == (n / 10) * 10 + k);
        assert forall|i: int| 0 <= i < d.len() implies is_ascii_digit(#[trigger] d[i]) by {
            if i < d.len() - 1 {
                assert(d[i] == p[i]);
            }
        }
    } else {
        assert(k == n);
        assert(d == seq![digit_char(n)]);
        assert(d.drop_last() =~= Seq::<char>::empty());
        assert(crate::version::digits_value(d.drop_last()) == 0);
        assert(d.last() == digit_char(n));
        assert(crate::version::digits_value(d) == n);
    }
}

} // verus!
