//! Signed binary repositories: where keys and repository configs go, and
//! which names, fingerprints and URLs are accepted.
use vstd::prelude::*;
use crate::text::{lowercase, to_lower, chars_of, contains, has_char, has_prefix, is_ascii_alnum, is_ascii_hex, push_str, str_contains, str_starts, trim, trim_string};

verus! {

/// Where xbps looks for the public keys of signed repositories.
pub fn keys_dir() -> (r: &'static str)
    ensures
        r@ == "/etc/xbps.d/keys"@,
{
    "/etc/xbps.d/keys"
}

/// xbps' own keyring (it writes the plist there on interactive import).
pub fn xbps_keys_dir() -> (r: &'static str)
    ensures
        r@ == "/var/db/xbps/keys"@,
{
    "/var/db/xbps/keys"
}

/// Whether a pin from `repos.conf` names the received key: by its xbps
/// fingerprint (canonical) or by the legacy SHA256 one, ignoring case and
/// surrounding whitespace on the pin.
pub open spec fn pin_matches(expected: Seq<char>, xbps_fp: Seq<char>, sha_fp: Seq<char>) -> bool {
    let e = lowercase(trim(expected));
    e == lowercase(xbps_fp) || e == lowercase(sha_fp)
}

pub fn fingerprint_matches_pin(expected: &str, xbps_fp: &str, sha_fp: &str) -> (r: bool)
    ensures
        r == pin_matches(expected@, xbps_fp@, sha_fp@),
{
    let t = trim_string(expected);
    let e = to_lower(t.as_str());
    let x = to_lower(xbps_fp);
    let s = to_lower(sha_fp);
    e == x || e == s
}

/// Characters a repository name may hold: `[A-Za-z0-9._-]`.
pub open spec fn repo_name_char(c: char) -> bool {
    is_ascii_alnum(c) || c == '.' || c == '_' || c == '-'
}

/// A repository name safe to use in system paths: starts with an ASCII
/// alphanumeric, holds only `[A-Za-z0-9._-]`, no `..` (nor `/`, `\`),
/// and is neither `keys` nor `00-...`.
pub open spec fn valid_repo_name(name: Seq<char>) -> bool {
    &&& name.len() > 0
    &&& is_ascii_alnum(name[0])
    &&& forall|i: int| 0 <= i < name.len() ==> repo_name_char(name[i])
    &&& !contains(name, ".."@)
    &&& !has_char(name, '/')
    &&& !has_char(name, '\\')
    &&& !has_prefix(name, "00-"@)
    &&& name != "keys"@
}

/// Checks a repository name against path traversal and reserved names.
pub fn validate_repo_name(name: &str) -> (r: Result<(), String>)
    ensures
        r is Ok <==> valid_repo_name(name@),
{
    let cs = chars_of(name);
    if cs.len() == 0 {
        return Err("el nombre del repositorio no puede estar vacío".to_owned());
    }
    if !crate::text::ascii_alnum(cs[0]) {
        let mut m = "el nombre del repositorio '".to_owned();
        push_str(&mut m, name);
        push_str(&mut m, "' debe comenzar con un carácter alfanumérico");
        return Err(m);
    }
    let mut i: usize = 0;
    while i < cs.len()
        invariant
            i <= cs@.len(),
            cs@ == name@,
            forall|j: int| 0 <= j < i ==> repo_name_char(cs@[j]),
        decreases cs@.len() - i,
    {
        let c = cs[i];
        if !(crate::text::ascii_alnum(c) || c == '.' || c == '_' || c == '-') {
            let mut m = "el nombre del repositorio '".to_owned();
            push_str(&mut m, name);
            push_str(&mut m, "' contiene caracteres inválidos (solo a-z, 0-9, ., _, -)");
            return Err(m);
        }
        i = i + 1;
    }
    if str_contains(&cs, "..") || crate::text::has_char_exec(&cs, '/') || crate::text::has_char_exec(
        &cs,
        '\\',
    ) {
        let mut m = "intento de path traversal detectado en el nombre del repositorio '".to_owned();
        push_str(&mut m, name);
        push_str(&mut m, "'");
        return Err(m);
    }
    if str_starts(&cs, "00-") || crate::text::str_is(&cs, "keys") {
        let mut m = "nombre de repositorio reservado o no permitido: '".to_owned();
        push_str(&mut m, name);
        push_str(&mut m, "'");
        return Err(m);
    }
    Ok(())
}

/// `/etc/xbps.d/20-vur-<name>.conf`, for a valid name.
pub fn repo_conf_path(name: &str) -> (r: Result<String, String>)
    ensures
        r is Ok <==> valid_repo_name(name@),
        r matches Ok(p) ==> p@ == "/etc/xbps.d/20-vur-"@ + name@ + ".conf"@,
{
    match validate_repo_name(name) {
        Ok(()) => {},
        Err(e) => {
            return Err(e);
        },
    }
    let mut p = "/etc/xbps.d/20-vur-".to_owned();
    push_str(&mut p, name);
    push_str(&mut p, ".conf");
    Ok(p)
}

/// `<keys_dir>/vary-vur-<name>.pem`, for a valid name.
pub fn key_dest_path(name: &str) -> (r: Result<String, String>)
    ensures
        r is Ok <==> valid_repo_name(name@),
        r matches Ok(p) ==> p@ == "/etc/xbps.d/keys"@ + "/vary-vur-"@ + name@ + ".pem"@,
{
    match validate_repo_name(name) {
        Ok(()) => {},
        Err(e) => {
            return Err(e);
        },
    }
    let mut p = keys_dir().to_owned();
    push_str(&mut p, "/vary-vur-");
    push_str(&mut p, name);
    push_str(&mut p, ".pem");
    Ok(p)
}

/// A fingerprint usable as a file name: non-empty hex digits and `:`.
pub open spec fn valid_fingerprint(fp: Seq<char>) -> bool {
    &&& fp.len() > 0
    &&& forall|i: int| 0 <= i < fp.len() ==> is_ascii_hex(fp[i]) || fp[i] == ':'
}

/// The refusal of a fingerprint that cannot name a keyring file.
pub open spec fn invalid_fingerprint_message(fp: Seq<char>) -> Seq<char> {
    "fingerprint inválido para pre-importar llave xbps: '"@ + fp + "'"@
}

/// `<xbps keyring>/<fp>.plist`, for a fingerprint of hex digits and `:`
/// (no `..`, `/` or `\` can then appear).
pub fn xbps_key_plist_path(fp: &str) -> (r: Result<String, String>)
    ensures
        r is Ok <==> valid_fingerprint(fp@),
        r matches Ok(p) ==> p@ == "/var/db/xbps/keys"@ + "/"@ + fp@ + ".plist"@,
        r matches Err(m) ==> m@ == invalid_fingerprint_message(fp@),
{
    let cs = chars_of(fp);
    let mut ok = cs.len() > 0;
    let mut i: usize = 0;
    while i < cs.len()
        invariant
            i <= cs@.len(),
            cs@ == fp@,
            ok == (cs@.len() > 0 && forall|j: int| 0 <= j < i ==> is_ascii_hex(cs@[j]) || cs@[j] == ':'),
        decreases cs@.len() - i,
    {
        if !(crate::text::ascii_hex(cs[i]) || cs[i] == ':') {
            ok = false;
        }
        i = i + 1;
    }
    if !ok {
        let mut m = "fingerprint inválido para pre-importar llave xbps: '".to_owned();
        push_str(&mut m, fp);
        push_str(&mut m, "'");
        return Err(m);
    }
    let mut p = xbps_keys_dir().to_owned();
    push_str(&mut p, "/");
    push_str(&mut p, fp);
    push_str(&mut p, ".plist");
    Ok(p)
}

/// `char::is_control`: the Unicode `Cc` category, U+0000-U+001F and
/// U+007F-U+009F.
pub open spec fn is_control(c: char) -> bool {
    c <= '\u{1f}' || ('\u{7f}' <= c && c <= '\u{9f}')
}

/// A repository URL: no control characters (newlines included), not
/// blank, and `https://`, `http://` or `file://` once trimmed.
pub open spec fn valid_repository_url(url: Seq<char>) -> bool {
    let u = trim(url);
    &&& forall|i: int| 0 <= i < url.len() ==> !is_control(url[i])
    &&& u.len() > 0
    &&& (has_prefix(u, "https://"@) || has_prefix(u, "http://"@) || has_prefix(u, "file://"@))
}

/// Why a URL is refused for `/etc/xbps.d` (when it is).
pub open spec fn repository_url_message(url: Seq<char>) -> Seq<char> {
    if exists|i: int| 0 <= i < url.len() && is_control(#[trigger] url[i]) {
        "URL de repositorio inválida: contiene saltos de línea o caracteres de control"@
    } else if trim(url).len() == 0 {
        "URL de repositorio vacía"@
    } else {
        "URL de repositorio inválida ('"@ + trim(url)
            + "'): esquema no soportado (debe ser https://, http:// o file://)"@
    }
}

pub fn validate_repository_url(url: &str) -> (r: Result<(), String>)
    ensures
        r is Ok <==> valid_repository_url(url@),
        r matches Err(m) ==> m@ == repository_url_message(url@),
{
    let cs = chars_of(url);
    let mut i: usize = 0;
    while i < cs.len()
        invariant
            i <= cs@.len(),
            cs@ == url@,
            forall|j: int| 0 <= j < i ==> !is_control(cs@[j]),
        decreases cs@.len() - i,
    {
        let c = cs[i];
        if c <= '\u{1f}' || ('\u{7f}' <= c && c <= '\u{9f}') {
            assert(is_control(url@[i as int]));
            return Err(
                "URL de repositorio inválida: contiene saltos de línea o caracteres de control".to_owned(),
            );
        }
        i = i + 1;
    }
    let u = crate::text::trim_vec(&cs);
    if u.len() == 0 {
        return Err("URL de repositorio vacía".to_owned());
    }
    if !(str_starts(&u, "https://") || str_starts(&u, "http://") || str_starts(&u, "file://")) {
        let us = crate::text::string_from(&u);
        let m = crate::text::concat3(
            "URL de repositorio inválida ('",
            us.as_str(),
            "'): esquema no soportado (debe ser https://, http:// o file://)",
        );
        return Err(m);
    }
    Ok(())
}


// ------------------------------------------------------------------
// RSA public keys (DER, SubjectPublicKeyInfo)
// ------------------------------------------------------------------

/// Why a DER text is not an RSA `SubjectPublicKeyInfo`.
#[derive(Debug)]
pub enum DerError {
    /// No byte where a tag should be.
    TruncatedTag,
    /// Another tag than the one the structure needs (found, expected).
    UnexpectedTag(u8, u8),
    /// No length byte after a tag.
    TruncatedLength,
    /// A long-form length of 0 or more than 4 bytes.
    UnsupportedLength,
    /// The bytes of a long-form length run past the end.
    Truncated,
    /// A position plus a length overflows.
    LengthOverflow,
    /// An INTEGER's contents run past the end.
    TruncatedInteger,
    /// An INTEGER without contents.
    EmptyInteger,
    /// Bytes after the BIT STRING.
    TrailingAfterSpki,
    /// The BIT STRING does not start with a zero unused-bits byte.
    UnusedBits,
    /// Bytes after the two INTEGERs of the key.
    TrailingAfterKey,
}

/// The big-endian value of the `n` bytes of `b` from `i`.
pub open spec fn be_value(b: Seq<u8>, i: int, n: int) -> nat
    decreases n,
{
    if n <= 0 {
        0
    } else {
        be_value(b, i, n - 1) * 256 + b[i + n - 1] as nat
    }
}

/// A tag and length at `i`: the position where the contents start and
/// their length; short form, or long form with 1 to 4 length bytes.
pub open spec fn read_tl(b: Seq<u8>, i: int, expect: u8) -> Result<(int, int), DerError> {
    if i < 0 || i >= b.len() {
        Err(DerError::TruncatedTag)
    } else if b[i] != expect {
        Err(DerError::UnexpectedTag(b[i], expect))
    } else if i + 1 >= b.len() {
        Err(DerError::TruncatedLength)
    } else if b[i + 1] < 0x80 {
        Ok((i + 2, b[i + 1] as int))
    } else {
        let n = b[i + 1] - 0x80;
        if n == 0 || n > 4 {
            Err(DerError::UnsupportedLength)
        } else if i + 2 + n > b.len() {
            Err(DerError::Truncated)
        } else {
            Ok((i + 2 + n, be_value(b, i + 2, n) as int))
        }
    }
}

/// An INTEGER at `i`: the position after it and its content bytes.
pub open spec fn read_int(b: Seq<u8>, i: int) -> Result<(int, Seq<u8>), DerError> {
    match read_tl(b, i, 0x02) {
        Err(e) => Err(e),
        Ok((j, len)) => if j + len > usize::MAX {
            Err(DerError::LengthOverflow)
        } else if j + len > b.len() {
            Err(DerError::TruncatedInteger)
        } else if len == 0 {
            Err(DerError::EmptyInteger)
        } else {
            Ok((j + len, b.subrange(j, j + len)))
        },
    }
}

/// The key inside a BIT STRING body: `0x00`, then
/// `SEQUENCE { INTEGER n, INTEGER e }` and nothing after.
pub open spec fn rsa_key_body(body: Seq<u8>) -> Result<(Seq<u8>, Seq<u8>), DerError> {
    if body.len() == 0 || body[0] != 0 {
        Err(DerError::UnusedBits)
    } else {
        match read_tl(body, 1, 0x30) {
            Err(e) => Err(e),
            Ok((k, _)) => match read_int(body, k) {
                Err(e) => Err(e),
                Ok((k2, n)) => match read_int(body, k2) {
                    Err(e) => Err(e),
                    Ok((k3, e)) => if k3 != body.len() {
                        Err(DerError::TrailingAfterKey)
                    } else {
                        Ok((n, e))
                    },
                },
            },
        }
    }
}

/// The modulus and exponent of an RSA `SubjectPublicKeyInfo`:
/// `SEQUENCE { SEQUENCE { .. }, BIT STRING { .. } }` with nothing after,
/// or the first deviation found.
pub open spec fn rsa_spki(der: Seq<u8>) -> Result<(Seq<u8>, Seq<u8>), DerError> {
    match read_tl(der, 0, 0x30) {
        Err(e) => Err(e),
        Ok((i, _)) => match read_tl(der, i, 0x30) {
            Err(e) => Err(e),
            Ok((j, alg)) => if j + alg > usize::MAX {
                Err(DerError::LengthOverflow)
            } else {
                match read_tl(der, j + alg, 0x03) {
                    Err(e) => Err(e),
                    Ok((j2, bs)) => if j2 + bs > usize::MAX {
                        Err(DerError::LengthOverflow)
                    } else if j2 + bs != der.len() {
                        Err(DerError::TrailingAfterSpki)
                    } else {
                        rsa_key_body(der.subrange(j2, der.len() as int))
                    },
                }
            },
        },
    }
}

fn read_tl_exec(b: &[u8], i: usize, expect: u8) -> (r: Result<(usize, usize), DerError>)
    ensures
        match read_tl(b@, i as int, expect) {
            Ok((j, len)) => r matches Ok((j2, len2)) && j2 == j && len2 == len,
            Err(e) => r == Err::<(usize, usize), DerError>(e),
        },
{
    if i >= b.len() {
        return Err(DerError::TruncatedTag);
    }
    let got = b[i];
    if got != expect {
        return Err(DerError::UnexpectedTag(got, expect));
    }
    if i + 1 >= b.len() {
        return Err(DerError::TruncatedLength);
    }
    let l0 = b[i + 1];
    if l0 < 0x80 {
        return Ok((i + 2, l0 as usize));
    }
    let n = (l0 - 0x80) as usize;
    if n == 0 || n > 4 {
        return Err(DerError::UnsupportedLength);
    }
    if n > b.len() - (i + 2) {
        return Err(DerError::Truncated);
    }
    let start = i + 2;
    let blen = b.len();
    let mut v: usize = 0;
    let mut k: usize = 0;
    while k < n
        invariant
            n <= 4,
            start + n <= b@.len(),
            b@.len() == blen,
            k <= n,
            v == be_value(b@, start as int, k as int),
            v < (if k == 0 {
                1nat
            } else if k == 1 {
                256nat
            } else if k == 2 {
                65536nat
            } else if k == 3 {
                16777216nat
            } else {
                4294967296nat
            }),
        decreases n - k,
    {
        assert(v < 16777216);
        assert(v * 256 + 255 < 4294967296) by (nonlinear_arith)
            requires
                v < 16777216,
        ;
        v = v * 256 + b[start + k] as usize;
        k = k + 1;
    }
    Ok((start + n, v))
}

fn read_int_exec(b: &[u8], i: usize) -> (r: Result<(usize, Vec<u8>), DerError>)
    ensures
        match read_int(b@, i as int) {
            Ok((j, v)) => r matches Ok((j2, v2)) && j2 == j && v2@ == v,
            Err(e) => r == Err::<(usize, Vec<u8>), DerError>(e),
        },
{
    let (j, len) = match read_tl_exec(b, i, 0x02) {
        Ok(p) => p,
        Err(e) => {
            return Err(e);
        },
    };
    let end = match j.checked_add(len) {
        Some(e) => e,
        None => {
            return Err(DerError::LengthOverflow);
        },
    };
    if end > b.len() {
        return Err(DerError::TruncatedInteger);
    }
    if len == 0 {
        return Err(DerError::EmptyInteger);
    }
    let v = vstd::slice::slice_to_vec(vstd::slice::slice_subrange(b, j, end));
    Ok((end, v))
}

/// Reads the modulus and exponent of an RSA `SubjectPublicKeyInfo` (see
/// [`rsa_spki`]); any other structure is refused.
pub fn parse_rsa_spki_pubkey(der: &[u8]) -> (r: Result<(Vec<u8>, Vec<u8>), DerError>)
    ensures
        match rsa_spki(der@) {
            Ok((n, e)) => r matches Ok((n2, e2)) && n2@ == n && e2@ == e,
            Err(e) => r == Err::<(Vec<u8>, Vec<u8>), DerError>(e),
        },
{
    let (i, _) = match read_tl_exec(der, 0, 0x30) {
        Ok(p) => p,
        Err(e) => {
            return Err(e);
        },
    };
    let (j, alg_len) = match read_tl_exec(der, i, 0x30) {
        Ok(p) => p,
        Err(e) => {
            return Err(e);
        },
    };
    let i = match j.checked_add(alg_len) {
        Some(v) => v,
        None => {
            return Err(DerError::LengthOverflow);
        },
    };
    let (j, bs_len) = match read_tl_exec(der, i, 0x03) {
        Ok(p) => p,
        Err(e) => {
            return Err(e);
        },
    };
    let bs_end = match j.checked_add(bs_len) {
        Some(v) => v,
        None => {
            return Err(DerError::LengthOverflow);
        },
    };
    if bs_end != der.len() {
        return Err(DerError::TrailingAfterSpki);
    }
    let body = vstd::slice::slice_subrange(der, j, bs_end);
    if body.len() == 0 || body[0] != 0 {
        return Err(DerError::UnusedBits);
    }
    let (k, _) = match read_tl_exec(body, 1, 0x30) {
        Ok(p) => p,
        Err(e) => {
            return Err(e);
        },
    };
    let (k, n) = match read_int_exec(body, k) {
        Ok(p) => p,
        Err(e) => {
            return Err(e);
        },
    };
    let (k, e) = match read_int_exec(body, k) {
        Ok(p) => p,
        Err(e) => {
            return Err(e);
        },
    };
    if k != body.len() {
        return Err(DerError::TrailingAfterKey);
    }
    Ok((n, e))
}

/// Position of the first non-zero byte of `v` at or after `p`
/// (`v.len()` when there is none).
pub open spec fn first_nonzero(v: Seq<u8>, p: int) -> int
    decreases v.len() - p,
{
    if p < 0 || p >= v.len() {
        v.len() as int
    } else if v[p] != 0 {
        p
    } else {
        first_nonzero(v, p + 1)
    }
}

/// The minimal big-endian form of a non-empty unsigned integer: its
/// leading zeros dropped, a single zero kept for zero.
pub open spec fn minimal_be(v: Seq<u8>) -> Seq<u8> {
    let p = first_nonzero(v, 0);
    if p < v.len() {
        v.skip(p)
    } else {
        v.skip(v.len() - 1)
    }
}

/// The four big-endian bytes of `x` taken modulo 2^32.
pub open spec fn be32(x: nat) -> Seq<u8> {
    seq![
        ((x / 0x1000000) % 256) as u8,
        ((x / 0x10000) % 256) as u8,
        ((x / 0x100) % 256) as u8,
        (x % 256) as u8,
    ]
}

/// RFC 4251 `mpint` of a non-empty unsigned big-endian integer: a 32-bit
/// length (wrapping, as a `u32` sum does), then the minimal bytes, with a zero byte in front when the high
/// bit would read as a sign.
pub open spec fn mpint(v: Seq<u8>) -> Seq<u8> {
    let t = minimal_be(v);
    let hi = t[0] >= 0x80;
    be32(((t.len() + if hi {
        1nat
    } else {
        0nat
    }) % 0x1_0000_0000) as nat) + (if hi {
        seq![0u8]
    } else {
        Seq::<u8>::empty()
    }) + t
}

/// The OpenSSH encoding of an RSA public key, which the xbps fingerprint
/// hashes: `uint32(7) "ssh-rsa" mpint(e) mpint(n)`.
pub open spec fn ssh_rsa_blob(n: Seq<u8>, e: Seq<u8>) -> Seq<u8> {
    seq![0u8, 0u8, 0u8, 7u8, 115u8, 115u8, 104u8, 45u8, 114u8, 115u8, 97u8] + mpint(e) + mpint(n)
}

fn mpint_exec(v: &Vec<u8>) -> (r: Vec<u8>)
    requires
        v@.len() > 0,
    ensures
        r@ == mpint(v@),
{
    let mut p: usize = 0;
    while p < v.len() && v[p] == 0
        invariant
            p <= v@.len(),
            first_nonzero(v@, 0) == first_nonzero(v@, p as int),
        decreases v@.len() - p,
    {
        p = p + 1;
    }
    let start = if p < v.len() {
        p
    } else {
        v.len() - 1
    };
    let t = vstd::slice::slice_subrange(v.as_slice(), start, v.len());
    assert(t@ =~= minimal_be(v@));
    let hi = t[0] >= 0x80;
    let l: u64 = (t.len() as u64) % 0x1_0000_0000;
    let h: u64 = if hi {
        1
    } else {
        0
    };
    let x: u64 = (l + h) % 0x1_0000_0000;
    proof {
        vstd::arithmetic::div_mod::lemma_add_mod_noop(t@.len() as int, h as int, 0x1_0000_0000);
    }
    let mut out: Vec<u8> = Vec::new();
    out.push(((x / 0x1000000) % 256) as u8);
    out.push(((x / 0x10000) % 256) as u8);
    out.push(((x / 0x100) % 256) as u8);
    out.push((x % 256) as u8);
    if hi {
        out.push(0);
    }
    let mut k: usize = 0;
    let ghost head = out@;
    while k < t.len()
        invariant
            k <= t@.len(),
            out@ == head + t@.take(k as int),
        decreases t@.len() - k,
    {
        out.push(t[k]);
        k = k + 1;
        assert(out@ =~= head + t@.take(k as int));
    }
    assert(t@.take(t@.len() as int) =~= t@);
    assert(out@ =~= mpint(v@));
    out
}

/// The MD5 digest of `data`.
pub uninterp spec fn md5_digest(data: Seq<u8>) -> Seq<u8>;

/// `md5::compute`: the 16-byte MD5 digest of `data`.
#[verifier::external_body]
fn md5_of(data: &[u8]) -> (r: Vec<u8>)
    ensures
        r@ == md5_digest(data@),
        r@.len() == 16,
{
    md5::compute(data).0.to_vec()
}

/// The SHA-256 digest of `data`.
pub uninterp spec fn sha256_digest(data: Seq<u8>) -> Seq<u8>;

/// `sha2::Sha256::digest`: the 32-byte SHA-256 digest of `data`.
#[verifier::external_body]
pub(crate) fn sha256_of(data: &[u8]) -> (r: Vec<u8>)
    ensures
        r@ == sha256_digest(data@),
        r@.len() == 32,
{
    <sha2::Sha256 as sha2::Digest>::digest(data).as_slice().to_vec()
}

/// A lowercase hexadecimal digit.
pub open spec fn hex_digit(d: nat) -> char {
    if d < 10 {
        (48 + d) as char
    } else {
        (87 + d) as char
    }
}

/// A byte as two lowercase hexadecimal digits (`{:02x}`).
pub open spec fn hex_pair(b: u8) -> Seq<char> {
    seq![hex_digit(b as nat / 16), hex_digit(b as nat % 16)]
}

/// Bytes as lowercase hexadecimal pairs joined by `:`.
pub open spec fn hex_colon(bytes: Seq<u8>) -> Seq<char> {
    crate::text::join(bytes.map_values(|b: u8| hex_pair(b)), ":"@)
}

pub(crate) fn hex_digit_exec(d: u8) -> (r: char)
    requires
        d < 16,
    ensures
        r == hex_digit(d as nat),
{
    if d < 10 {
        (48u8 + d) as char
    } else {
        (87u8 + d) as char
    }
}

fn hex_colon_exec(bytes: &[u8]) -> (r: String)
    ensures
        r@ == hex_colon(bytes@),
{
    let mut r = String::new();
    let mut i: usize = 0;
    while i < bytes.len()
        invariant
            i <= bytes@.len(),
            r@ == crate::text::join(bytes@.take(i as int).map_values(|b: u8| hex_pair(b)), ":"@),
        decreases bytes@.len() - i,
    {
        let ghost pre = bytes@.take(i as int).map_values(|b: u8| hex_pair(b));
        let b = bytes[i];
        if i > 0 {
            crate::text::push_char(&mut r, ':');
        }
        crate::text::push_char(&mut r, hex_digit_exec(b / 16));
        crate::text::push_char(&mut r, hex_digit_exec(b % 16));
        i = i + 1;
        proof {
            let cur = bytes@.take(i as int).map_values(|b: u8| hex_pair(b));
            assert(cur.drop_last() =~= pre);
            assert(cur.last() == hex_pair(b));
            reveal_strlit(":");
            if i == 1 {
                assert(r@ =~= cur[0]);
            } else {
                assert(r@ =~= crate::text::join(pre, ":"@) + ":"@ + hex_pair(b));
            }
        }
    }
    assert(bytes@.take(bytes@.len() as int) =~= bytes@);
    r
}

/// Why a PEM text gives no fingerprint.
#[derive(Debug)]
pub enum KeyError {
    /// The PEM text holds no DER bytes.
    Pem(crate::vur_client::PemError),
    /// The DER bytes are not an RSA public key.
    Der(DerError),
}

/// The xbps fingerprint of a PEM public key: MD5 of the key's OpenSSH
/// encoding, in lowercase hex pairs joined by `:` (what xbps shows in its
/// prompts and uses to name `<fp>.plist`). Only RSA keys have one.
pub fn xbps_fingerprint_pem(pem: &str) -> (r: Result<String, KeyError>)
    ensures
        match crate::vur_client::pem_der(pem@) {
            Err(pe) => r == Err::<String, KeyError>(KeyError::Pem(pe)),
            Ok(der) => match rsa_spki(der) {
                Err(de) => r == Err::<String, KeyError>(KeyError::Der(de)),
                Ok((n, e)) => r matches Ok(s) && s@ == hex_colon(md5_digest(ssh_rsa_blob(n, e))),
            },
        },
{
    let der = match crate::vur_client::decode_pem_body(pem) {
        Ok(d) => d,
        Err(pe) => {
            return Err(KeyError::Pem(pe));
        },
    };
    let (n, e) = match parse_rsa_spki_pubkey(der.as_slice()) {
        Ok(p) => p,
        Err(de) => {
            return Err(KeyError::Der(de));
        },
    };
    proof {
        lemma_rsa_key_nonempty(der@);
    }
    let mut blob: Vec<u8> = vec![0u8, 0u8, 0u8, 7u8, 115u8, 115u8, 104u8, 45u8, 114u8, 115u8, 97u8];
    let mut me = mpint_exec(&e);
    let mut mn = mpint_exec(&n);
    blob.append(&mut me);
    blob.append(&mut mn);
    let digest = md5_of(blob.as_slice());
    proof {
        assert(blob@ =~= ssh_rsa_blob(n@, e@));
    }
    Ok(hex_colon_exec(digest.as_slice()))
}

proof fn lemma_rsa_key_nonempty(der: Seq<u8>)
    requires
        rsa_spki(der) is Ok,
    ensures
        rsa_spki(der)->Ok_0.0.len() > 0,
        rsa_spki(der)->Ok_0.1.len() > 0,
{
}

/// The legacy fingerprint of a PEM key: SHA-256 of its DER bytes, in
/// lowercase hex pairs joined by `:`; kept to accept older pins.
pub fn sha256_fingerprint_pem(pem: &str) -> (r: Result<String, crate::vur_client::PemError>)
    ensures
        match crate::vur_client::pem_der(pem@) {
            Err(e) => r == Err::<String, crate::vur_client::PemError>(e),
            Ok(der) => r matches Ok(s) && s@ == hex_colon(sha256_digest(der)),
        },
{
    let der = match crate::vur_client::decode_pem_body(pem) {
        Ok(d) => d,
        Err(e) => {
            return Err(e);
        },
    };
    let digest = sha256_of(der.as_slice());
    Ok(hex_colon_exec(digest.as_slice()))
}

/// A byte in `{:#x}` form: `0x` and its hex digits without leading zeros.
pub open spec fn hex_alt(b: u8) -> Seq<char> {
    "0x"@ + if b < 16 {
        seq![hex_digit(b as nat)]
    } else {
        hex_pair(b)
    }
}

fn hex_alt_exec(b: u8) -> (r: String)
    ensures
        r@ == hex_alt(b),
{
    let mut r = "0x".to_string();
    if b >= 16 {
        crate::text::push_char(&mut r, hex_digit_exec(b / 16));
    }
    crate::text::push_char(&mut r, hex_digit_exec(b % 16));
    proof {
        reveal_strlit("0x");
        assert(r@ =~= hex_alt(b));
    }
    r
}

/// The message that explains a DER error.
pub open spec fn der_message(e: DerError) -> Seq<char> {
    match e {
        DerError::TruncatedTag => "DER truncado (tag)"@,
        DerError::UnexpectedTag(got, expect) => "DER inesperado: tag "@ + hex_alt(got)
            + ", esperaba "@ + hex_alt(expect) + " (solo RSA)"@,
        DerError::TruncatedLength => "DER truncado (longitud)"@,
        DerError::UnsupportedLength => "longitud DER no soportada"@,
        DerError::Truncated => "DER truncado"@,
        DerError::LengthOverflow => "longitud DER excede"@,
        DerError::TruncatedInteger => "DER truncado (INTEGER)"@,
        DerError::EmptyInteger => "INTEGER DER vacío"@,
        DerError::TrailingAfterSpki => "basura final tras la SPKI"@,
        DerError::UnusedBits => "BIT STRING con bits sin usar (solo RSA)"@,
        DerError::TrailingAfterKey => "basura final tras la llave RSA"@,
    }
}

impl DerError {
    pub fn message(&self) -> (r: String)
        ensures
            r@ == der_message(*self),
    {
        match self {
            DerError::TruncatedTag => "DER truncado (tag)".to_string(),
            DerError::UnexpectedTag(got, expect) => {
                let mut r = "DER inesperado: tag ".to_string();
                push_str(&mut r, hex_alt_exec(*got).as_str());
                push_str(&mut r, ", esperaba ");
                push_str(&mut r, hex_alt_exec(*expect).as_str());
                push_str(&mut r, " (solo RSA)");
                r
            },
            DerError::TruncatedLength => "DER truncado (longitud)".to_string(),
            DerError::UnsupportedLength => "longitud DER no soportada".to_string(),
            DerError::Truncated => "DER truncado".to_string(),
            DerError::LengthOverflow => "longitud DER excede".to_string(),
            DerError::TruncatedInteger => "DER truncado (INTEGER)".to_string(),
            DerError::EmptyInteger => "INTEGER DER vacío".to_string(),
            DerError::TrailingAfterSpki => "basura final tras la SPKI".to_string(),
            DerError::UnusedBits => "BIT STRING con bits sin usar (solo RSA)".to_string(),
            DerError::TrailingAfterKey => "basura final tras la llave RSA".to_string(),
        }
    }
}

impl KeyError {
    /// `PEM inválido` for a PEM text without DER bytes, else what the DER
    /// parser reported.
    pub fn message(&self) -> (r: String)
        ensures
            r@ == (match self {
                KeyError::Pem(_) => "PEM inválido"@,
                KeyError::Der(e) => der_message(*e),
            }),
    {
        match self {
            KeyError::Pem(_) => "PEM inválido".to_string(),
            KeyError::Der(e) => e.message(),
        }
    }
}
} // verus!
