//! Package metadata (`.VURINFO`, format v1) and its validation rules.
use vstd::prelude::*;
use crate::text::{
    ascii_alnum, chars_eq, chars_of, decimal, decimal_string, has_prefix, is_ascii_alnum, push_str,
    str_is, str_starts, trim, trim_string,
};

verus! {

/// A subpackage declared by a template.
#[derive(Debug)]
pub struct Subpackage {
    pub pkgname: String,
    pub depends: Vec<String>,
    pub short_desc: Option<String>,
}

/// Metadata of one package, as published by a VUR repository.
#[derive(Debug)]
pub struct VurInfo {
    pub format_version: u32,
    pub pkgname: String,
    pub version: String,
    pub revision: u32,
    pub archs: Vec<String>,
    pub subpackages: Vec<Subpackage>,
    pub depends: Vec<String>,
    pub hostmakedepends: Vec<String>,
    pub makedepends: Vec<String>,
    pub checkdepends: Vec<String>,
    pub build_style: Option<String>,
    pub distfiles: Vec<String>,
    pub checksum: Vec<String>,
    pub provides: Vec<String>,
    pub replaces: Vec<String>,
    pub restricted: bool,
    pub maintainer: Option<String>,
}

/// The view of an optional string.
pub open spec fn opt_view(o: Option<String>) -> Option<Seq<char>> {
    match o {
        Some(s) => Some(s@),
        None => None,
    }
}

/// The views of a list of strings.
pub open spec fn strs_view(v: Seq<String>) -> Seq<Seq<char>> {
    v.map_values(|s: String| s@)
}

/// What a [`Subpackage`] holds, as mathematical values.
pub ghost struct SubpackageView {
    pub pkgname: Seq<char>,
    pub depends: Seq<Seq<char>>,
    pub short_desc: Option<Seq<char>>,
}

/// What a [`VurInfo`] holds, as mathematical values.
pub ghost struct VurInfoView {
    pub format_version: u32,
    pub pkgname: Seq<char>,
    pub version: Seq<char>,
    pub revision: u32,
    pub archs: Seq<Seq<char>>,
    pub subpackages: Seq<SubpackageView>,
    pub depends: Seq<Seq<char>>,
    pub hostmakedepends: Seq<Seq<char>>,
    pub makedepends: Seq<Seq<char>>,
    pub checkdepends: Seq<Seq<char>>,
    pub build_style: Option<Seq<char>>,
    pub distfiles: Seq<Seq<char>>,
    pub checksum: Seq<Seq<char>>,
    pub provides: Seq<Seq<char>>,
    pub replaces: Seq<Seq<char>>,
    pub restricted: bool,
    pub maintainer: Option<Seq<char>>,
}

impl View for Subpackage {
    type V = SubpackageView;

    open spec fn view(&self) -> SubpackageView {
        SubpackageView {
            pkgname: self.pkgname@,
            depends: strs_view(self.depends@),
            short_desc: opt_view(self.short_desc),
        }
    }
}

impl View for VurInfo {
    type V = VurInfoView;

    open spec fn view(&self) -> VurInfoView {
        VurInfoView {
            format_version: self.format_version,
            pkgname: self.pkgname@,
            version: self.version@,
            revision: self.revision,
            archs: strs_view(self.archs@),
            subpackages: self.subpackages@.map_values(|s: Subpackage| s@),
            depends: strs_view(self.depends@),
            hostmakedepends: strs_view(self.hostmakedepends@),
            makedepends: strs_view(self.makedepends@),
            checkdepends: strs_view(self.checkdepends@),
            build_style: opt_view(self.build_style),
            distfiles: strs_view(self.distfiles@),
            checksum: strs_view(self.checksum@),
            provides: strs_view(self.provides@),
            replaces: strs_view(self.replaces@),
            restricted: self.restricted,
            maintainer: opt_view(self.maintainer),
        }
    }
}

pub fn clone_opt_string(o: &Option<String>) -> (r: Option<String>)
    ensures
        r == *o,
{
    match o {
        Some(s) => Some(s.clone()),
        None => None,
    }
}

pub fn clone_strings(v: &Vec<String>) -> (r: Vec<String>)
    ensures
        r@ == v@,
{
    let r = v.clone();
    assert(r@ =~= v@);
    r
}

impl Clone for Subpackage {
    fn clone(&self) -> (r: Self)
        ensures
            r@ == self@,
    {
        Subpackage {
            pkgname: self.pkgname.clone(),
            depends: clone_strings(&self.depends),
            short_desc: clone_opt_string(&self.short_desc),
        }
    }
}

fn clone_subpackages(v: &Vec<Subpackage>) -> (r: Vec<Subpackage>)
    ensures
        r@.map_values(|s: Subpackage| s@) == v@.map_values(|s: Subpackage| s@),
{
    let mut r: Vec<Subpackage> = Vec::new();
    let mut i: usize = 0;
    while i < v.len()
        invariant
            i <= v.len(),
            r@.len() == i,
            forall|j: int| 0 <= j < i ==> (#[trigger] r@[j])@ == v@[j]@,
        decreases v.len() - i,
    {
        r.push(v[i].clone());
        i = i + 1;
    }
    assert(r@.map_values(|s: Subpackage| s@) =~= v@.map_values(|s: Subpackage| s@));
    r
}

impl Clone for VurInfo {
    fn clone(&self) -> (r: Self)
        ensures
            r@ == self@,
    {
        let subs = clone_subpackages(&self.subpackages);
        VurInfo {
            format_version: self.format_version,
            pkgname: self.pkgname.clone(),
            version: self.version.clone(),
            revision: self.revision,
            archs: clone_strings(&self.archs),
            subpackages: subs,
            depends: clone_strings(&self.depends),
            hostmakedepends: clone_strings(&self.hostmakedepends),
            makedepends: clone_strings(&self.makedepends),
            checkdepends: clone_strings(&self.checkdepends),
            build_style: clone_opt_string(&self.build_style),
            distfiles: clone_strings(&self.distfiles),
            checksum: clone_strings(&self.checksum),
            provides: clone_strings(&self.provides),
            replaces: clone_strings(&self.replaces),
            restricted: self.restricted,
            maintainer: clone_opt_string(&self.maintainer),
        }
    }
}

/// The only metadata format version this library understands.
pub const SUPPORTED_FORMAT_VERSION: u32 = 1;

/// Characters allowed in a version: `[A-Za-z0-9._+]`.
pub open spec fn version_char(c: char) -> bool {
    is_ascii_alnum(c) || c == '.' || c == '_' || c == '+'
}

/// Characters allowed in a package name after the first: `[A-Za-z0-9._+-]`.
pub open spec fn pkgname_char(c: char) -> bool {
    is_ascii_alnum(c) || c == '.' || c == '_' || c == '+' || c == '-'
}

/// A version is non-empty and made of `[A-Za-z0-9._+]` only.
pub open spec fn valid_version(v: Seq<char>) -> bool {
    v.len() > 0 && forall|i: int| 0 <= i < v.len() ==> version_char(v[i])
}

/// A package name starts with an ASCII alphanumeric and continues with
/// `[A-Za-z0-9._+-]`.
pub open spec fn valid_pkgname(n: Seq<char>) -> bool {
    n.len() > 0 && is_ascii_alnum(n[0]) && forall|i: int| 1 <= i < n.len() ==> pkgname_char(n[i])
}

pub fn is_valid_version(v: &str) -> (r: bool)
    ensures
        r == valid_version(v@),
{
    let cs = chars_of(v);
    if cs.len() == 0 {
        return false;
    }
    let mut i: usize = 0;
    while i < cs.len()
        invariant
            i <= cs.len(),
            cs@ == v@,
            forall|j: int| 0 <= j < i ==> version_char(cs@[j]),
        decreases cs.len() - i,
    {
        let c = cs[i];
        if !(ascii_alnum(c) || c == '.' || c == '_' || c == '+') {
            return false;
        }
        i = i + 1;
    }
    true
}

pub fn is_valid_pkgname(n: &str) -> (r: bool)
    ensures
        r == valid_pkgname(n@),
        r <==> pkgname_pattern(n@),
{
    proof {
        lemma_pkgname_pattern(n@);
    }
    let cs = chars_of(n);
    if cs.len() == 0 || !ascii_alnum(cs[0]) {
        return false;
    }
    let mut i: usize = 1;
    while i < cs.len()
        invariant
            1 <= i <= cs.len(),
            cs@ == n@,
            forall|j: int| 1 <= j < i ==> pkgname_char(cs@[j]),
        decreases cs.len() - i,
    {
        let c = cs[i];
        if !(ascii_alnum(c) || c == '.' || c == '_' || c == '+' || c == '-') {
            return false;
        }
        i = i + 1;
    }
    true
}

/// Why a `VurInfo` is rejected; each variant names the offending field
/// (and its position, for list elements).
#[derive(Debug)]
pub enum ValidationError {
    FormatVersion(u32),
    EmptyPkgname,
    InvalidPkgname,
    EmptyVersion,
    InvalidVersion,
    Revision(u32),
    EmptyArchs,
    Checksum(usize),
    EmptySubpackageName(usize),
    InvalidSubpackageName(usize),
    DuplicateSubpackageName(usize),
    BlankSubpackageDependency(usize, usize),
}

/// A checksum entry is accepted when it is `SKIP` or starts with `sha256:`.
pub open spec fn checksum_ok(sum: Seq<char>) -> bool {
    sum == "SKIP"@ || (sum.len() > 0 && has_prefix(sum, "sha256:"@))
}

/// Index of the first rejected checksum entry at or after `i`.
pub open spec fn first_bad_checksum(sums: Seq<Seq<char>>, i: int) -> Option<int>
    decreases sums.len() - i,
{
    if i < 0 || i >= sums.len() {
        None
    } else if !checksum_ok(sums[i]) {
        Some(i)
    } else {
        first_bad_checksum(sums, i + 1)
    }
}

/// Index of the first blank dependency at or after `j`.
pub open spec fn first_blank(deps: Seq<Seq<char>>, j: int) -> Option<int>
    decreases deps.len() - j,
{
    if j < 0 || j >= deps.len() {
        None
    } else if trim(deps[j]).len() == 0 {
        Some(j)
    } else {
        first_blank(deps, j + 1)
    }
}

/// The error for subpackage `i` (or a later one), if any.
pub open spec fn subpackage_error(
    parent: Seq<char>,
    subs: Seq<SubpackageView>,
    i: int,
) -> Option<ValidationError>
    decreases subs.len() - i,
{
    if i < 0 || i >= subs.len() {
        None
    } else {
        let sub = subs[i];
        if trim(sub.pkgname).len() == 0 {
            Some(ValidationError::EmptySubpackageName(i as usize))
        } else if !valid_pkgname(sub.pkgname) {
            Some(ValidationError::InvalidSubpackageName(i as usize))
        } else if sub.pkgname == parent {
            Some(ValidationError::DuplicateSubpackageName(i as usize))
        } else if first_blank(sub.depends, 0) is Some {
            Some(
                ValidationError::BlankSubpackageDependency(
                    i as usize,
                    first_blank(sub.depends, 0)->0 as usize,
                ),
            )
        } else {
            subpackage_error(parent, subs, i + 1)
        }
    }
}

/// The first rule of format v1 that `info` breaks, checked in the
/// documented order; `None` when `info` is valid.
pub open spec fn validation_error(info: VurInfoView) -> Option<ValidationError> {
    if info.format_version != SUPPORTED_FORMAT_VERSION {
        Some(ValidationError::FormatVersion(info.format_version))
    } else if info.pkgname.len() == 0 {
        Some(ValidationError::EmptyPkgname)
    } else if !valid_pkgname(info.pkgname) {
        Some(ValidationError::InvalidPkgname)
    } else if info.version.len() == 0 {
        Some(ValidationError::EmptyVersion)
    } else if !valid_version(info.version) {
        Some(ValidationError::InvalidVersion)
    } else if info.revision < 1 {
        Some(ValidationError::Revision(info.revision))
    } else if info.archs.len() == 0 {
        Some(ValidationError::EmptyArchs)
    } else if first_bad_checksum(info.checksum, 0) is Some {
        Some(ValidationError::Checksum(first_bad_checksum(info.checksum, 0)->0 as usize))
    } else {
        subpackage_error(info.pkgname, info.subpackages, 0)
    }
}

fn blank_dep(deps: &Vec<String>) -> (r: Option<usize>)
    ensures
        r matches Some(j) ==> first_blank(strs_view(deps@), 0) == Some(j as int),
        r is None ==> first_blank(strs_view(deps@), 0) is None,
{
    let mut j: usize = 0;
    while j < deps.len()
        invariant
            j <= deps.len(),
            first_blank(strs_view(deps@), 0) == first_blank(strs_view(deps@), j as int),
        decreases deps.len() - j,
    {
        let t = trim_string(deps[j].as_str());
        if t.as_str().is_empty() {
            assert(t@.len() == 0);
            return Some(j);
        }
        proof {
            assert(t@.len() > 0) by {
                if t@.len() == 0 {
                }
            }
        }
        j = j + 1;
    }
    None
}

impl VurInfo {
    /// Checks the format v1 rules: format version 1; non-empty valid
    /// `pkgname`; non-empty `version` of `[A-Za-z0-9._+]`; `revision >= 1`;
    /// at least one arch; every checksum `SKIP` or `sha256:...`; every
    /// subpackage with a non-blank valid name other than the parent's and
    /// no blank dependency.
    pub fn validate(&self) -> (r: Result<(), ValidationError>)
        ensures
            r is Ok <==> validation_error(self@) is None,
            r matches Err(e) ==> validation_error(self@) == Some(e),
    {
        if self.format_version != SUPPORTED_FORMAT_VERSION {
            return Err(ValidationError::FormatVersion(self.format_version));
        }
        if self.pkgname.as_str().is_empty() {
            return Err(ValidationError::EmptyPkgname);
        }
        if !is_valid_pkgname(self.pkgname.as_str()) {
            return Err(ValidationError::InvalidPkgname);
        }
        if self.version.as_str().is_empty() {
            return Err(ValidationError::EmptyVersion);
        }
        if !is_valid_version(self.version.as_str()) {
            return Err(ValidationError::InvalidVersion);
        }
        if self.revision < 1 {
            return Err(ValidationError::Revision(self.revision));
        }
        if self.archs.len() == 0 {
            return Err(ValidationError::EmptyArchs);
        }
        let mut i: usize = 0;
        while i < self.checksum.len()
            invariant
                i <= self.checksum.len(),
                validation_error(self@) == (if first_bad_checksum(self@.checksum, 0) is Some {
                    Some(ValidationError::Checksum(first_bad_checksum(self@.checksum, 0)->0 as usize))
                } else {
                    subpackage_error(self@.pkgname, self@.subpackages, 0)
                }),
                first_bad_checksum(self@.checksum, 0) == first_bad_checksum(self@.checksum, i as int),
            decreases self.checksum.len() - i,
        {
            let sum = chars_of(self.checksum[i].as_str());
            if !str_is(&sum, "SKIP") {
                if sum.len() == 0 || !str_starts(&sum, "sha256:") {
                    return Err(ValidationError::Checksum(i));
                }
            }
            i = i + 1;
        }
        let mut k: usize = 0;
        while k < self.subpackages.len()
            invariant
                k <= self.subpackages.len(),
                validation_error(self@) == subpackage_error(self@.pkgname, self@.subpackages, k as int),
            decreases self.subpackages.len() - k,
        {
            let sub = &self.subpackages[k];
            let t = trim_string(sub.pkgname.as_str());
            if t.as_str().is_empty() {
                return Err(ValidationError::EmptySubpackageName(k));
            }
            if !is_valid_pkgname(sub.pkgname.as_str()) {
                return Err(ValidationError::InvalidSubpackageName(k));
            }
            if sub.pkgname == self.pkgname {
                return Err(ValidationError::DuplicateSubpackageName(k));
            }
            match blank_dep(&sub.depends) {
                Some(j) => {
                    return Err(ValidationError::BlankSubpackageDependency(k, j));
                },
                None => {},
            }
            k = k + 1;
        }
        Ok(())
    }

    /// Normalisation after parsing. In format v1 every subpackage shares
    /// the parent's archs, so there is nothing to carry over.
    pub fn normalize(&mut self)
        ensures
            *final(self) == *old(self),
    {
    }

    /// Void-style `pkgver`: `<pkgname>-<version>_<revision>`.
    pub fn pkgver(&self) -> (r: String)
        ensures
            r@ == self.pkgname@ + "-"@ + self.version@ + "_"@ + decimal(self.revision as nat),
    {
        let mut s = self.pkgname.clone();
        push_str(&mut s, "-");
        push_str(&mut s, self.version.as_str());
        push_str(&mut s, "_");
        let rev = decimal_string(self.revision as u64);
        push_str(&mut s, rev.as_str());
        s
    }
}

/// Whether an arch list admits `arch`: it names it, or it is declared
/// for every arch (`all`, `noarch`).
pub open spec fn arch_ok(archs: Seq<Seq<char>>, arch: Seq<char>) -> bool {
    exists|i: int|
        0 <= i < archs.len() && (archs[i] == arch || archs[i] == "all"@ || archs[i] == "noarch"@)
}

pub fn arch_supports(archs: &Vec<String>, arch: &str) -> (r: bool)
    ensures
        r == arch_ok(strs_view(archs@), arch@),
        r <==> (strs_view(archs@).contains(arch@) || strs_view(archs@).contains("all"@) || strs_view(
            archs@,
        ).contains("noarch"@)),
{
    proof {
        lemma_arch_list(strs_view(archs@), arch@);
    }
    let mut i: usize = 0;
    while i < archs.len()
        invariant
            i <= archs.len(),
            forall|j: int|
                0 <= j < i ==> !(archs@[j]@ == arch@ || archs@[j]@ == "all"@ || archs@[j]@
                    == "noarch"@),
        decreases archs.len() - i,
    {
        let a = chars_of(archs[i].as_str());
        let want = chars_of(arch);
        if chars_eq(&a, &want) || str_is(&a, "all") || str_is(&a, "noarch") {
            assert(strs_view(archs@)[i as int] == archs@[i as int]@);
            return true;
        }
        i = i + 1;
    }
    proof {
        assert forall|j: int| 0 <= j < archs@.len() implies !(strs_view(archs@)[j] == arch@
            || strs_view(archs@)[j] == "all"@ || strs_view(archs@)[j] == "noarch"@) by {
            assert(strs_view(archs@)[j] == archs@[j]@);
        }
    }
    false
}


proof fn lemma_first_bad_in_range(sums: Seq<Seq<char>>, i: int)
    requires
        0 <= i,
        first_bad_checksum(sums, i) is Some,
    ensures
        i <= first_bad_checksum(sums, i)->0 < sums.len(),
        sums.len() <= usize::MAX ==> first_bad_checksum(sums, i)->0 as usize as int == first_bad_checksum(sums, i)->0,
    decreases sums.len() - i,
{
    if i < sums.len() && checksum_ok(sums[i]) {
        lemma_first_bad_in_range(sums, i + 1);
    }
}

proof fn lemma_subpackage_error_in_range(parent: Seq<char>, subs: Seq<SubpackageView>, i: int)
    requires
        0 <= i,
        subpackage_error(parent, subs, i) is Some,
        subs.len() <= usize::MAX,
    ensures
        match subpackage_error(parent, subs, i)->0 {
            ValidationError::EmptySubpackageName(k) => i <= k < subs.len(),
            ValidationError::InvalidSubpackageName(k) => i <= k < subs.len(),
            ValidationError::DuplicateSubpackageName(k) => i <= k < subs.len(),
            ValidationError::BlankSubpackageDependency(k, _) => i <= k < subs.len(),
            _ => false,
        },
    decreases subs.len() - i,
{
    let sub = subs[i];
    if trim(sub.pkgname).len() == 0 || !valid_pkgname(sub.pkgname) || sub.pkgname == parent {
    } else if first_blank(sub.depends, 0) is Some {
    } else {
        lemma_subpackage_error_in_range(parent, subs, i + 1);
    }
}

/// The message that explains a broken rule of `info`.
pub open spec fn validation_message(info: VurInfoView, e: ValidationError) -> Seq<char> {
    match e {
        ValidationError::FormatVersion(v) => "format_version no soportado: "@ + decimal(v as nat)
            + " (soportado: 1)"@,
        ValidationError::EmptyPkgname => "pkgname vacío: el nombre del paquete es obligatorio"@,
        ValidationError::InvalidPkgname => "pkgname inválido: '"@ + info.pkgname
            + "' contiene caracteres prohibidos o empieza por '-' (permitidos: [a-zA-Z0-9._+-], sin '-' inicial)"@,
        ValidationError::EmptyVersion => "version vacía: la versión upstream es obligatoria"@,
        ValidationError::InvalidVersion => "version inválida: '"@ + info.version
            + "' contiene caracteres prohibidos (permitidos: [A-Za-z0-9._+]); los guiones están prohibidos en la versión porque delimitan 'pkgname-version_revision' según la convención de Void Linux"@,
        ValidationError::Revision(r) => "revision inválida: "@ + decimal(r as nat)
            + " (debe ser >= 1)"@,
        ValidationError::EmptyArchs => "archs vacío: debe declararse al menos una arquitectura objetivo"@,
        ValidationError::Checksum(i) => "checksum["@ + decimal(i as nat) + "] inválido: '"@
            + info.checksum[i as int]
            + "' debe empezar por 'sha256:' o ser 'SKIP' (las cadenas vacías tampoco son válidas)"@,
        ValidationError::EmptySubpackageName(i) => "subpackages["@ + decimal(i as nat)
            + "].pkgname vacío: el nombre del subpaquete es obligatorio"@,
        ValidationError::InvalidSubpackageName(i) => "subpackages["@ + decimal(i as nat)
            + "].pkgname inválido: '"@ + info.subpackages[i as int].pkgname
            + "' contiene caracteres prohibidos o no empieza por alfanumérico (permitidos: [a-zA-Z0-9._+-], primer carácter alfanumérico)"@,
        ValidationError::DuplicateSubpackageName(i) => "subpackages["@ + decimal(i as nat)
            + "].pkgname duplicado: '"@ + info.subpackages[i as int].pkgname
            + "' coincide con el pkgname del padre"@,
        ValidationError::BlankSubpackageDependency(i, j) => "subpackages["@ + decimal(i as nat)
            + "].depends["@ + decimal(j as nat)
            + "] inválida: la dependencia está vacía o solo contiene espacios"@,
    }
}

impl VurInfo {
    /// The message of the first broken rule (see [`VurInfo::validate`]),
    /// naming the offending value; `None` when `self` is valid.
    pub fn validation_report(&self) -> (r: Option<String>)
        ensures
            r is None <==> validation_error(self@) is None,
            r matches Some(m) ==> m@ == validation_message(self@, validation_error(self@)->0),
    {
        let e = match self.validate() {
            Ok(()) => {
                return None;
            },
            Err(e) => e,
        };
        let nc = self.checksum.len();
        let ns = self.subpackages.len();
        proof {
            if first_bad_checksum(self@.checksum, 0) is Some {
                lemma_first_bad_in_range(self@.checksum, 0);
            }
            if subpackage_error(self@.pkgname, self@.subpackages, 0) is Some {
                lemma_subpackage_error_in_range(self@.pkgname, self@.subpackages, 0);
            }
        }
        let mut m = String::new();
        match e {
            ValidationError::FormatVersion(v) => {
                push_str(&mut m, "format_version no soportado: ");
                push_str(&mut m, decimal_string(v as u64).as_str());
                push_str(&mut m, " (soportado: 1)");
            },
            ValidationError::EmptyPkgname => {
                push_str(&mut m, "pkgname vacío: el nombre del paquete es obligatorio");
            },
            ValidationError::InvalidPkgname => {
                push_str(&mut m, "pkgname inválido: '");
                push_str(&mut m, self.pkgname.as_str());
                push_str(
                    &mut m,
                    "' contiene caracteres prohibidos o empieza por '-' (permitidos: [a-zA-Z0-9._+-], sin '-' inicial)",
                );
            },
            ValidationError::EmptyVersion => {
                push_str(&mut m, "version vacía: la versión upstream es obligatoria");
            },
            ValidationError::InvalidVersion => {
                push_str(&mut m, "version inválida: '");
                push_str(&mut m, self.version.as_str());
                push_str(
                    &mut m,
                    "' contiene caracteres prohibidos (permitidos: [A-Za-z0-9._+]); los guiones están prohibidos en la versión porque delimitan 'pkgname-version_revision' según la convención de Void Linux",
                );
            },
            ValidationError::Revision(r) => {
                push_str(&mut m, "revision inválida: ");
                push_str(&mut m, decimal_string(r as u64).as_str());
                push_str(&mut m, " (debe ser >= 1)");
            },
            ValidationError::EmptyArchs => {
                push_str(&mut m, "archs vacío: debe declararse al menos una arquitectura objetivo");
            },
            ValidationError::Checksum(i) => {
                push_str(&mut m, "checksum[");
                push_str(&mut m, decimal_string(i as u64).as_str());
                push_str(&mut m, "] inválido: '");
                push_str(&mut m, self.checksum[i].as_str());
                push_str(
                    &mut m,
                    "' debe empezar por 'sha256:' o ser 'SKIP' (las cadenas vacías tampoco son válidas)",
                );
            },
            ValidationError::EmptySubpackageName(i) => {
                push_str(&mut m, "subpackages[");
                push_str(&mut m, decimal_string(i as u64).as_str());
                push_str(&mut m, "].pkgname vacío: el nombre del subpaquete es obligatorio");
            },
            ValidationError::InvalidSubpackageName(i) => {
                push_str(&mut m, "subpackages[");
                push_str(&mut m, decimal_string(i as u64).as_str());
                push_str(&mut m, "].pkgname inválido: '");
                push_str(&mut m, self.subpackages[i].pkgname.as_str());
                push_str(
                    &mut m,
                    "' contiene caracteres prohibidos o no empieza por alfanumérico (permitidos: [a-zA-Z0-9._+-], primer carácter alfanumérico)",
                );
            },
            ValidationError::DuplicateSubpackageName(i) => {
                push_str(&mut m, "subpackages[");
                push_str(&mut m, decimal_string(i as u64).as_str());
                push_str(&mut m, "].pkgname duplicado: '");
                push_str(&mut m, self.subpackages[i].pkgname.as_str());
                push_str(&mut m, "' coincide con el pkgname del padre");
            },
            ValidationError::BlankSubpackageDependency(i, j) => {
                push_str(&mut m, "subpackages[");
                push_str(&mut m, decimal_string(i as u64).as_str());
                push_str(&mut m, "].depends[");
                push_str(&mut m, decimal_string(j as u64).as_str());
                push_str(&mut m, "] inválida: la dependencia está vacía o solo contiene espacios");
            },
        }
        Some(m)
    }
}

/// Validates parsed entries in order; the first invalid one gives its
/// position and the rule it breaks.
pub fn check_entries(items: Vec<VurInfo>) -> (r: Result<Vec<VurInfo>, (usize, ValidationError)>)
    ensures
        match r {
            Ok(v) => v@ == items@ && forall|i: int|
                0 <= i < items@.len() ==> validation_error(#[trigger] items@[i]@) is None,
            Err((k, e)) => k < items@.len() && validation_error(items@[k as int]@) == Some(e)
                && forall|i: int| 0 <= i < k ==> validation_error(#[trigger] items@[i]@) is None,
        },
{
    let mut i: usize = 0;
    while i < items.len()
        invariant
            i <= items@.len(),
            forall|j: int| 0 <= j < i ==> validation_error(#[trigger] items@[j]@) is None,
        decreases items@.len() - i,
    {
        match items[i].validate() {
            Ok(()) => {},
            Err(e) => {
                return Err((i, e));
            },
        }
        i = i + 1;
    }
    Ok(items)
}
/// Whether `n` matches `^[a-zA-Z0-9][a-zA-Z0-9._+-]*$`, the character
/// classes written out.
pub open spec fn pkgname_pattern(n: Seq<char>) -> bool {
    &&& n.len() > 0
    &&& (('a' <= n[0] && n[0] <= 'z') || ('A' <= n[0] && n[0] <= 'Z') || ('0' <= n[0] && n[0] <= '9'))
    &&& forall|i: int|
        1 <= i < n.len() ==> (('a' <= #[trigger] n[i] && n[i] <= 'z') || ('A' <= n[i] && n[i] <= 'Z') || (
        '0' <= n[i] && n[i] <= '9') || n[i] == '.' || n[i] == '_' || n[i] == '+' || n[i] == '-')
}

/// Package names are exactly the texts matching
/// `^[a-zA-Z0-9][a-zA-Z0-9._+-]*$`: `gtk+3`, `libstdc++` and `python3.12`
/// are names, `-x`, `.hidden`, `a/b` and the empty text are not.
pub proof fn lemma_pkgname_pattern(n: Seq<char>)
    ensures
        valid_pkgname(n) <==> pkgname_pattern(n),
{
    if valid_pkgname(n) {
        assert forall|i: int| 1 <= i < n.len() implies (('a' <= #[trigger] n[i] && n[i] <= 'z') || ('A' <= n[i]
            && n[i] <= 'Z') || ('0' <= n[i] && n[i] <= '9') || n[i] == '.' || n[i] == '_' || n[i] == '+' || n[i]
            == '-') by {
            assert(pkgname_char(n[i]));
        }
    }
    if pkgname_pattern(n) {
        assert forall|i: int| 1 <= i < n.len() implies pkgname_char(n[i]) by {
            assert(('a' <= n[i] && n[i] <= 'z') || ('A' <= n[i] && n[i] <= 'Z') || ('0' <= n[i] && n[i] <= '9')
                || n[i] == '.' || n[i] == '_' || n[i] == '+' || n[i] == '-');
        }
    }
}

/// A package is available on an architecture exactly when its arch list
/// names that architecture, `all` or `noarch`: a `noarch` package is
/// available everywhere.
pub proof fn lemma_arch_list(archs: Seq<Seq<char>>, arch: Seq<char>)
    ensures
        arch_ok(archs, arch) <==> (archs.contains(arch) || archs.contains("all"@) || archs.contains("noarch"@)),
        archs.contains("noarch"@) ==> arch_ok(archs, arch),
        archs.contains("all"@) ==> arch_ok(archs, arch),
{
    if archs.contains(arch) {
        let i = choose|i: int| 0 <= i < archs.len() && archs[i] == arch;
        assert(archs[i] == arch);
    }
    if archs.contains("all"@) {
        let i = choose|i: int| 0 <= i < archs.len() && archs[i] == "all"@;
        assert(archs[i] == "all"@);
    }
    if archs.contains("noarch"@) {
        let i = choose|i: int| 0 <= i < archs.len() && archs[i] == "noarch"@;
        assert(archs[i] == "noarch"@);
    }
    if arch_ok(archs, arch) {
        let i = choose|i: int|
            0 <= i < archs.len() && (archs[i] == arch || archs[i] == "all"@ || archs[i] == "noarch"@);
        assert(archs.contains(archs[i]));
    }
}

} // verus!
