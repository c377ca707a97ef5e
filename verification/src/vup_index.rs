//! VUP-style binary repositories: an `index.json` maps each package to
//! its category, `version_revision`, arches and one binary repository URL
//! per arch. Its entries become metadata records for binary resolution.
use vstd::prelude::*;
use crate::metadata::{strs_view, VurInfo, VurInfoView};
use crate::text::{chars_of, has_char, is_ascii_digit, trim};
use crate::version::digits_value;

verus! {

/// One package of the index.
#[derive(Debug)]
pub struct VupPackage {
    pub category: String,
    /// `version_revision` (XBPS form, e.g. `0.5.0_1`).
    pub version: String,
    pub archs: Vec<String>,
    /// Arch to binary repository URL, arches ascending.
    pub repo_urls: Vec<(String, String)>,
}

/// The index: package name to entry, names ascending.
#[derive(Debug)]
pub struct VupIndex {
    pub packages: Vec<(String, VupPackage)>,
}

/// `c`, or `_` for a path separator or NUL.
pub open spec fn safe_char(c: char) -> char {
    if c == '/' || c == '\\' || c == '\0' {
        '_'
    } else {
        c
    }
}

/// A repository name made safe for a cache file name.
pub fn sanitize_repo_name(name: &str) -> (r: String)
    ensures
        r@ == sanitized(name@),
{
    let cs = chars_of(name);
    let mut out: Vec<char> = Vec::new();
    let mut i: usize = 0;
    while i < cs.len()
        invariant
            i <= cs@.len(),
            cs@ == name@,
            out@ == name@.take(i as int).map_values(|c: char| safe_char(c)),
        decreases cs@.len() - i,
    {
        let c = cs[i];
        let d = if c == '/' || c == '\\' || c == '\0' {
            '_'
        } else {
            c
        };
        out.push(d);
        proof {
            assert(name@.take(i as int + 1).map_values(|c: char| safe_char(c)) =~= name@.take(
                i as int,
            ).map_values(|c: char| safe_char(c)).push(safe_char(c)));
        }
        i = i + 1;
    }
    assert(name@.take(name@.len() as int) =~= name@);
    crate::text::string_from(&out)
}

/// `str::parse::<u32>`: an optional `+`, then one or more ASCII digits,
/// at most `u32::MAX`.
pub open spec fn parses_u32(s: Seq<char>) -> bool {
    &&& u32_digits(s).len() > 0
    &&& forall|i: int| 0 <= i < u32_digits(s).len() ==> is_ascii_digit(#[trigger] u32_digits(s)[i])
    &&& digits_value(u32_digits(s)) <= u32::MAX
}

pub open spec fn u32_value(s: Seq<char>) -> nat {
    if s.len() > 0 && s[0] == '+' {
        digits_value(s.drop_first())
    } else {
        digits_value(s)
    }
}

/// The digits part of a `u32` text (after an optional `+`).
pub open spec fn u32_digits(s: Seq<char>) -> Seq<char> {
    if s.len() > 0 && s[0] == '+' {
        s.drop_first()
    } else {
        s
    }
}

proof fn lemma_u32_digits(s: Seq<char>)
    requires
        parses_u32(s),
    ensures
        crate::version::reads_as_u64(u32_digits(s)),
{
    let d = u32_digits(s);
    assert(forall|i: int| 0 <= i < d.len() ==> is_ascii_digit(d[i]));
    assert(digits_value(d) <= u64::MAX);
}

/// Parses like `str::parse::<u32>`.
pub fn parse_u32(s: &str) -> (r: Option<u32>)
    ensures
        r is Some <==> parses_u32(s@),
        r matches Some(v) ==> v == u32_value(s@),
{
    let cs = chars_of(s);
    let d = if cs.len() > 0 && cs[0] == '+' {
        crate::text::slice_vec(&cs, 1, cs.len())
    } else {
        crate::text::slice_vec(&cs, 0, cs.len())
    };
    assert(d@ =~= u32_digits(s@));
    match crate::version::parse_u64_token(&d) {
        Some(v) => {
            if v <= 0xffff_ffffu64 {
                assert(parses_u32(s@));
                Some(v as u32)
            } else {
                assert(!parses_u32(s@));
                None
            }
        },
        None => {
            proof {
                if parses_u32(s@) {
                    lemma_u32_digits(s@);
                }
            }
            None
        },
    }
}

/// Last index of `c` in `s`, if any.
pub open spec fn last_index_of(s: Seq<char>, c: char) -> Option<int>
    decreases s.len(),
{
    if s.len() == 0 {
        None
    } else if s.last() == c {
        Some(s.len() - 1)
    } else {
        last_index_of(s.drop_last(), c)
    }
}

/// `version_revision` split at the last `_`: a non-empty version and a
/// revision of at least 1.
pub open spec fn pkgver_parts(pkgver: Seq<char>) -> Option<(Seq<char>, u32)> {
    match last_index_of(pkgver, '_') {
        Some(i) => {
            let v = pkgver.take(i);
            let r = pkgver.skip(i + 1);
            if v.len() > 0 && parses_u32(r) && u32_value(r) >= 1 {
                Some((v, u32_value(r) as u32))
            } else {
                None
            }
        },
        None => None,
    }
}

proof fn lemma_last_index_of(s: Seq<char>, c: char, k: int)
    requires
        -1 <= k < s.len(),
        k >= 0 ==> s[k] == c,
        forall|j: int| k < j < s.len() ==> s[j] != c,
    ensures
        last_index_of(s, c) == (if k >= 0 {
            Some(k)
        } else {
            None
        }),
    decreases s.len(),
{
    if s.len() > 0 && k < s.len() - 1 {
        lemma_last_index_of(s.drop_last(), c, k);
    }
}

/// Splits `version_revision` (see [`pkgver_parts`]).
pub fn split_pkgver(pkgver: &str) -> (r: Option<(String, u32)>)
    ensures
        match r {
            Some((v, n)) => pkgver_parts(pkgver@) == Some((v@, n)),
            None => pkgver_parts(pkgver@) is None,
        },
{
    let cs = chars_of(pkgver);
    let mut k: usize = cs.len();
    while k > 0 && cs[k - 1] != '_'
        invariant
            k <= cs@.len(),
            cs@ == pkgver@,
            forall|j: int| k <= j < cs@.len() ==> cs@[j] != '_',
        decreases k,
    {
        k = k - 1;
    }
    if k == 0 {
        proof {
            lemma_last_index_of(pkgver@, '_', -1);
        }
        return None;
    }
    let i = k - 1;
    proof {
        lemma_last_index_of(pkgver@, '_', i as int);
    }
    let v = crate::text::slice_vec(&cs, 0, i);
    let r = crate::text::slice_vec(&cs, i + 1, cs.len());
    proof {
        assert(v@ =~= pkgver@.take(i as int));
        assert(r@ =~= pkgver@.skip(i as int + 1));
    }
    if v.len() == 0 {
        return None;
    }
    let rs = crate::text::string_from(&r);
    match parse_u32(rs.as_str()) {
        Some(n) => {
            if n < 1 {
                return None;
            }
            Some((crate::text::string_from(&v), n))
        },
        None => None,
    }
}

/// The binary metadata an index entry gives for `arch`, with its
/// repository URL: the entry must list `arch`, give a non-blank URL for
/// it (the first listed), and a `version_revision` that splits.
pub open spec fn vup_entry(name: Seq<char>, pkg: VupPackage, arch: Seq<char>) -> Option<
    (VurInfoView, Seq<char>),
> {
    let url_i = crate::source::first_key(crate::source::keys_of(pkg.repo_urls@), arch);
    if !strs_view(pkg.archs@).contains(arch) {
        None
    } else if url_i >= pkg.repo_urls@.len() {
        None
    } else if trim(pkg.repo_urls@[url_i].1@).len() == 0 {
        None
    } else {
        match pkgver_parts(trim(pkg.version@)) {
            Some((v, n)) => Some(
                (
                    VurInfoView {
                        format_version: 1,
                        pkgname: name,
                        version: v,
                        revision: n,
                        archs: seq![arch],
                        subpackages: Seq::empty(),
                        depends: Seq::empty(),
                        hostmakedepends: Seq::empty(),
                        makedepends: Seq::empty(),
                        checkdepends: Seq::empty(),
                        build_style: None,
                        distfiles: Seq::empty(),
                        checksum: Seq::empty(),
                        provides: Seq::empty(),
                        replaces: Seq::empty(),
                        restricted: false,
                        maintainer: None,
                    },
                    trim(pkg.repo_urls@[url_i].1@),
                ),
            ),
            None => None,
        }
    }
}

/// Index entry to binary metadata for `arch` (see [`vup_entry`]).
pub fn to_vur_info(name: &str, pkg: &VupPackage, arch: &str) -> (r: Option<(VurInfo, String)>)
    ensures
        match r {
            Some((info, url)) => vup_entry(name@, *pkg, arch@) == Some((info@, url@)),
            None => vup_entry(name@, *pkg, arch@) is None,
        },
{
    let a = arch.to_owned();
    let mut listed = false;
    let mut i: usize = 0;
    while i < pkg.archs.len()
        invariant
            i <= pkg.archs@.len(),
            a@ == arch@,
            listed == strs_view(pkg.archs@).take(i as int).contains(arch@),
        decreases pkg.archs@.len() - i,
    {
        proof {
            assert(strs_view(pkg.archs@).take(i as int + 1) =~= strs_view(pkg.archs@).take(i as int).push(
                pkg.archs@[i as int]@,
            ));
            crate::sorting::lemma_push_contains(strs_view(pkg.archs@).take(i as int), pkg.archs@[i as int]@, arch@);
        }
        if pkg.archs[i] == a {
            listed = true;
        }
        i = i + 1;
    }
    assert(strs_view(pkg.archs@).take(pkg.archs@.len() as int) =~= strs_view(pkg.archs@));
    if !listed {
        return None;
    }
    let url_i = match crate::source::find_first_pub(&pkg.repo_urls, arch) {
        Some(j) => j,
        None => {
            return None;
        },
    };
    let url = crate::text::trim_string(pkg.repo_urls[url_i].1.as_str());
    if url.as_str().is_empty() {
        return None;
    }
    let ver = crate::text::trim_string(pkg.version.as_str());
    let (version, revision) = match split_pkgver(ver.as_str()) {
        Some(p) => p,
        None => {
            return None;
        },
    };
    let info = VurInfo {
        format_version: 1,
        pkgname: name.to_owned(),
        version,
        revision,
        archs: vec![arch.to_owned()],
        subpackages: Vec::new(),
        depends: Vec::new(),
        hostmakedepends: Vec::new(),
        makedepends: Vec::new(),
        checkdepends: Vec::new(),
        build_style: None,
        distfiles: Vec::new(),
        checksum: Vec::new(),
        provides: Vec::new(),
        replaces: Vec::new(),
        restricted: false,
        maintainer: None,
    };
    proof {
        assert(strs_view(info.archs@) =~= seq![arch@]);
        assert(info.subpackages@.map_values(|s: crate::metadata::Subpackage| s@) =~= Seq::empty());
        assert(strs_view(info.depends@) =~= Seq::empty());
        assert(strs_view(info.hostmakedepends@) =~= Seq::empty());
        assert(strs_view(info.makedepends@) =~= Seq::empty());
        assert(strs_view(info.checkdepends@) =~= Seq::empty());
        assert(strs_view(info.distfiles@) =~= Seq::empty());
        assert(strs_view(info.checksum@) =~= Seq::empty());
        assert(strs_view(info.provides@) =~= Seq::empty());
        assert(strs_view(info.replaces@) =~= Seq::empty());
    }
    Some((info, url))
}

/// Whether a cached index is still fresh: it exists and is younger than
/// the TTL (a modification time in the future counts as age zero).
pub fn cache_is_fresh(age_secs: Option<u64>, ttl_secs: u64) -> (r: bool)
    ensures
        r == match age_secs {
            Some(a) => a < ttl_secs,
            None => false,
        },
{
    match age_secs {
        Some(a) => a < ttl_secs,
        None => false,
    }
}

/// The next step in getting a VUP index: a cached copy young enough is
/// used without the network; otherwise the index is downloaded, and when
/// that fails an older cached copy still serves.
pub enum FetchStep {
    /// Read and parse the cached copy, which is fresh.
    ReadFresh,
    /// The fresh cached copy is the index.
    UseFresh,
    /// Download the index from this (trimmed) URL and parse it.
    Download(String),
    /// The downloaded index is the index (and replaces the cached copy).
    UseDownload,
    /// Read and parse the cached copy, however old.
    ReadStale,
    /// The old cached copy is the index (with a warning).
    UseStale,
    /// No index can be had.
    Fail(String),
}

/// Decides the next step from what has been seen so far: whether the cache
/// is fresh, and, for each read already made, whether it gave a parsable
/// index (`None`: not made yet).
pub fn fetch_step(
    url: &str,
    cache_fresh: bool,
    fresh_read: Option<bool>,
    downloaded: Option<bool>,
    stale_read: Option<bool>,
) -> (r: FetchStep)
    ensures
        ({
            let past_fresh = !cache_fresh || fresh_read == Some(false);
            let u = trim(url@);
            match r {
                FetchStep::ReadFresh => cache_fresh && fresh_read is None,
                FetchStep::UseFresh => cache_fresh && fresh_read == Some(true),
                FetchStep::Download(d) => past_fresh && u.len() > 0 && downloaded is None && d@ == u,
                FetchStep::UseDownload => past_fresh && u.len() > 0 && downloaded == Some(true),
                FetchStep::ReadStale => past_fresh && u.len() > 0 && downloaded == Some(false)
                    && stale_read is None,
                FetchStep::UseStale => past_fresh && u.len() > 0 && downloaded == Some(false)
                    && stale_read == Some(true),
                FetchStep::Fail(m) => past_fresh && ((u.len() == 0 && m@ == "index_url vacío"@) || (
                u.len() > 0 && downloaded == Some(false) && stale_read == Some(false) && m@ == "índice "@
                    + u + " no disponible (sin red ni caché válida)"@)),
            }
        }),
{
    if cache_fresh {
        match fresh_read {
            None => {
                return FetchStep::ReadFresh;
            },
            Some(true) => {
                return FetchStep::UseFresh;
            },
            Some(false) => {},
        }
    }
    let u = crate::text::trim_string(url);
    if u.as_str().is_empty() {
        return FetchStep::Fail("index_url vacío".to_string());
    }
    match downloaded {
        None => FetchStep::Download(u),
        Some(true) => FetchStep::UseDownload,
        Some(false) => match stale_read {
            None => FetchStep::ReadStale,
            Some(true) => FetchStep::UseStale,
            Some(false) => FetchStep::Fail(
                crate::text::concat3("índice ", u.as_str(), " no disponible (sin red ni caché válida)"),
            ),
        },
    }
}

/// A character of the base64 alphabet or its padding.
pub open spec fn b64_char(c: char) -> bool {
    crate::text::is_ascii_alnum(c) || c == '+' || c == '/' || c == '='
}

/// The public key a VUP repository publishes in `keys/*.plist`: the
/// base64 `<data>` after the `public-key` key, decoded to PEM text (its
/// characters outside the base64 alphabet dropped), trimmed and ended
/// with a newline; or why there is none.
pub open spec fn plist_pem(text: Seq<char>) -> Result<Seq<char>, Seq<char>> {
    let key = "<key>public-key</key>"@;
    match crate::text::find(text, key) {
        None => Err("el plist no contiene la clave public-key"@),
        Some(kp) => {
            let after = text.subrange(kp + key.len(), text.len() as int);
            match crate::text::find(after, "<data>"@) {
                None => Err("el plist no contiene bloque <data>"@),
                Some(ds) => {
                    let body = after.subrange(ds + 6, after.len() as int);
                    match crate::text::find(body, "</data>"@) {
                        None => Err("bloque <data> sin cerrar en el plist"@),
                        Some(dl) => {
                            let clean = body.subrange(0, dl).filter(|c: char| b64_char(c));
                            match crate::vur_client::base64_standard_decoded(clean) {
                                None => Err("base64 inválido en el plist"@),
                                Some(bytes) => if !vstd::utf8::valid_utf8(bytes) {
                                    Err("la llave del plist no es texto PEM"@)
                                } else if !crate::text::contains(
                                    crate::text::trim(vstd::utf8::decode_utf8(bytes)),
                                    "BEGIN PUBLIC KEY"@,
                                ) {
                                    Err("la llave del plist no es una public key PEM"@)
                                } else {
                                    Ok(crate::text::trim(vstd::utf8::decode_utf8(bytes)) + "\n"@)
                                },
                            }
                        },
                    }
                },
            }
        },
    }
}

pub fn decode_plist_public_key_pem(plist_text: &str) -> (r: Result<String, String>)
    ensures
        match plist_pem(plist_text@) {
            Ok(p) => r matches Ok(x) && x@ == p,
            Err(m) => r matches Err(x) && x@ == m,
        },
{
    let text = chars_of(plist_text);
    let key = chars_of("<key>public-key</key>");
    let open = chars_of("<data>");
    let close = chars_of("</data>");
    proof {
        reveal_strlit("<data>");
    }
    let kp = match crate::text::find_exec(text.as_slice(), key.as_slice()) {
        Some(p) => p,
        None => {
            return Err("el plist no contiene la clave public-key".to_string());
        },
    };
    assert(crate::text::occurs_at(text@, key@, kp as int));
    assert(kp + key@.len() <= text@.len());
    let klen = key.len();
    let tlen = text.len();
    assert(kp + klen <= tlen);
    let start = kp + klen;
    let after = crate::text::slice_vec(text.as_slice(), start, tlen);
    let ds = match crate::text::find_exec(after.as_slice(), open.as_slice()) {
        Some(p) => p,
        None => {
            return Err("el plist no contiene bloque <data>".to_string());
        },
    };
    let body = crate::text::slice_vec(after.as_slice(), ds + 6, after.len());
    let dl = match crate::text::find_exec(body.as_slice(), close.as_slice()) {
        Some(p) => p,
        None => {
            return Err("bloque <data> sin cerrar en el plist".to_string());
        },
    };
    let ghost raw = body@.subrange(0, dl as int);
    let mut clean = String::new();
    let mut i: usize = 0;
    while i < dl
        invariant
            i <= dl <= body@.len(),
            raw == body@.subrange(0, dl as int),
            clean@ == raw.take(i as int).filter(|c: char| b64_char(c)),
        decreases dl - i,
    {
        let c = body[i];
        proof {
            reveal(Seq::filter);
            assert(raw.take(i as int + 1).drop_last() =~= raw.take(i as int));
            assert(raw.take(i as int + 1).last() == c);
        }
        if crate::text::ascii_alnum(c) || c == '+' || c == '/' || c == '=' {
            crate::text::push_char(&mut clean, c);
        }
        i = i + 1;
    }
    assert(raw.take(dl as int) =~= raw);
    let bytes = match crate::vur_client::base64_decode(clean.as_str()) {
        Some(b) => b,
        None => {
            return Err("base64 inválido en el plist".to_string());
        },
    };
    let pem = match crate::db::utf8_string(bytes.as_slice()) {
        Some(s) => s,
        None => {
            return Err("la llave del plist no es texto PEM".to_string());
        },
    };
    let t = crate::text::trim_string(pem.as_str());
    let tc = chars_of(t.as_str());
    if !crate::text::str_contains(tc.as_slice(), "BEGIN PUBLIC KEY") {
        return Err("la llave del plist no es una public key PEM".to_string());
    }
    Ok(crate::text::concat(t.as_str(), "\n"))
}

/// A sanitized repository name is a single path component: no `/`, no
/// `\\` and no NUL, and one character for each of the name's.
pub proof fn lemma_sanitized_name_is_one_component(name: Seq<char>)
    ensures
        sanitized(name).len() == name.len(),
        forall|i: int|
            0 <= i < name.len() ==> #[trigger] sanitized(name)[i] != '/' && sanitized(name)[i] != '\\'
                && sanitized(name)[i] != '\0',
{
}

/// A name with its path separators and NULs replaced (see [`safe_char`]).
pub open spec fn sanitized(name: Seq<char>) -> Seq<char> {
    name.map_values(|c: char| safe_char(c))
}

/// Splitting a `version_revision` text gives back its parts: for a
/// non-empty version and a revision of at least 1, `<version>_<revision>`
/// splits into exactly them.
pub proof fn lemma_split_pkgver_roundtrip(v: Seq<char>, r: u32)
    requires
        v.len() > 0,
        r >= 1,
    ensures
        pkgver_parts(v + "_"@ + crate::text::decimal(r as nat)) == Some((v, r)),
{
    reveal_strlit("_");
    let d = crate::text::decimal(r as nat);
    crate::text::lemma_decimal_reads_back(r as nat);
    let s = v + "_"@ + d;
    let k = v.len() as int;
    assert(s[k] == '_');
    assert forall|j: int| k < j < s.len() implies s[j] != '_' by {
        assert(s[j] == d[j - k - 1]);
        assert(is_ascii_digit(d[j - k - 1]));
    }
    lemma_last_index_of(s, '_', k);
    assert(s.take(k) =~= v);
    assert(s.skip(k + 1) =~= d);
    assert(is_ascii_digit(d[0]));
    assert(u32_digits(d) == d);
}

} // verus!
