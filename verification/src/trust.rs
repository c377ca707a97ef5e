//! Registering a binary repository's key: the checks that run before the
//! user is asked (the URLs, the key's fingerprint against the pin in
//! `repos.conf`), the trust-on-first-use check against a key already
//! installed, and the `/etc/xbps.d` text that registers the repository.
use vstd::prelude::*;
use crate::keys::{hex_colon, md5_digest, pin_matches, rsa_spki, sha256_digest, ssh_rsa_blob, valid_repository_url};
use crate::metadata::{opt_view, strs_view};
use crate::reposconf::RepoEntry;
use crate::text::{lowercase, trim};
use crate::vur_client::pem_der;

verus! {

/// The xbps fingerprint of a PEM key, when it is an RSA public key.
pub open spec fn xbps_fp(pem: Seq<char>) -> Option<Seq<char>> {
    match pem_der(pem) {
        Err(_) => None,
        Ok(der) => match rsa_spki(der) {
            Err(_) => None,
            Ok((n, e)) => Some(hex_colon(md5_digest(ssh_rsa_blob(n, e)))),
        },
    }
}

/// The legacy SHA-256 fingerprint of a PEM key.
pub open spec fn sha_fp(pem: Seq<char>) -> Option<Seq<char>> {
    match pem_der(pem) {
        Err(_) => None,
        Ok(der) => Some(hex_colon(sha256_digest(der))),
    }
}

/// The alarm for a key that differs from the one installed.
pub open spec fn tofu_alert(name: Seq<char>, installed: Seq<char>, fp: Seq<char>) -> Seq<char> {
    "ALERTA DE SEGURIDAD CRÍTICA (Posible rotación no confiable o suplantación):\nLa llave pública del repo '"@
        + name
        + "' ha cambiado respecto a la instalada en el sistema.\n  Instalada previamente: "@ + installed
        + "\n  Recibida remotamente:  "@ + fp
        + "\nOperación BLOQUEADA (fallo cerrado).\nSi la rotación es legítima y verificada, ejecuta: vary --repo rekey "@
        + name
}

/// The outcome of the trust-on-first-use check: nothing installed yet
/// passes; an installed key that cannot be read or is not an RSA key
/// fails closed; a different key raises the alarm.
pub open spec fn tofu_outcome(dest: Seq<char>, installed: Option<Option<Seq<char>>>, fp: Seq<char>, name: Seq<char>) -> Option<
    Seq<char>,
> {
    match installed {
        None => None,
        Some(None) => Some("no se pudo leer la llave instalada de '"@ + name + "' en "@ + dest),
        Some(Some(pem)) => match xbps_fp(pem) {
            None => Some("la llave instalada de '"@ + name + "' en "@ + dest + " no es una public key RSA válida"@),
            Some(old) => if lowercase(old) != lowercase(fp) {
                Some(tofu_alert(name, old, fp))
            } else {
                None
            },
        },
    }
}

pub open spec fn opt_opt(o: Option<Option<&str>>) -> Option<Option<Seq<char>>> {
    match o {
        None => None,
        Some(None) => Some(None),
        Some(Some(s)) => Some(Some(s@)),
    }
}

/// The trust-on-first-use check against the key installed at `dest`:
/// `installed` is `None` when there is none, `Some(None)` when it could
/// not be read.
pub fn verify_key_tofu(dest: &str, installed: Option<Option<&str>>, fp: &str, name: &str) -> (r: Result<(), String>)
    ensures
        match tofu_outcome(dest@, opt_opt(installed), fp@, name@) {
            Some(m) => r matches Err(x) && x@ == m,
            None => r is Ok,
        },
{
    match installed {
        None => Ok(()),
        Some(None) => {
            let mut m = crate::text::concat3("no se pudo leer la llave instalada de '", name, "' en ");
            crate::text::push_str(&mut m, dest);
            Err(m)
        },
        Some(Some(pem)) => match crate::keys::xbps_fingerprint_pem(pem) {
            Err(_) => {
                let mut m = crate::text::concat3("la llave instalada de '", name, "' en ");
                crate::text::push_str(&mut m, dest);
                crate::text::push_str(&mut m, " no es una public key RSA válida");
                Err(m)
            },
            Ok(old) => {
                let a = crate::text::to_lower(old.as_str());
                let b = crate::text::to_lower(fp);
                if !crate::text::chars_eq(crate::text::chars_of(a.as_str()).as_slice(), crate::text::chars_of(b.as_str()).as_slice()) {
                    let mut m = crate::text::concat3(
                        "ALERTA DE SEGURIDAD CRÍTICA (Posible rotación no confiable o suplantación):\nLa llave pública del repo '",
                        name,
                        "' ha cambiado respecto a la instalada en el sistema.\n  Instalada previamente: ",
                    );
                    crate::text::push_str(&mut m, old.as_str());
                    crate::text::push_str(&mut m, "\n  Recibida remotamente:  ");
                    crate::text::push_str(&mut m, fp);
                    crate::text::push_str(
                        &mut m,
                        "\nOperación BLOQUEADA (fallo cerrado).\nSi la rotación es legítima y verificada, ejecuta: vary --repo rekey ",
                    );
                    crate::text::push_str(&mut m, name);
                    Err(m)
                } else {
                    Ok(())
                }
            },
        },
    }
}

/// A pin counts when it is set and not blank.
pub open spec fn pin_of(e: RepoEntry) -> Option<Seq<char>> {
    match e.key_fingerprint {
        Some(p) => if trim(p@).len() > 0 {
            Some(trim(p@))
        } else {
            None
        },
        None => None,
    }
}

/// The message for a key that does not match the pin.
pub open spec fn pin_mismatch(what: Seq<char>, name: Seq<char>, expected: Seq<char>, fp: Seq<char>) -> Seq<char> {
    "fingerprint de llave del "@ + what + " '"@ + name + "' NO coincide:\n  esperado (repos.conf): "@ + expected
        + "\n  recibido:              "@ + fp
        + "\nSi el mantenedor rotó la llave legítimamente, ejecuta: vary --repo rekey "@ + name
}

/// Checks the key's fingerprints against the pin of `entry`, if any
/// (either fingerprint may match, without regard to case).
fn check_pin(what: &str, name: &str, entry: &RepoEntry, fp: &str, sha: &str) -> (r: Result<(), String>)
    ensures
        match pin_of(*entry) {
            Some(p) => if pin_matches(p, fp@, sha@) {
                r is Ok
            } else {
                r matches Err(m) && m@ == pin_mismatch(what@, name@, p, fp@)
            },
            None => r is Ok,
        },
{
    match &entry.key_fingerprint {
        Some(p) => {
            let t = crate::text::trim_string(p.as_str());
            if t.as_str().is_empty() {
                return Ok(());
            }
            if crate::keys::fingerprint_matches_pin(t.as_str(), fp, sha) {
                Ok(())
            } else {
                let mut m = crate::text::concat3("fingerprint de llave del ", what, " '");
                crate::text::push_str(&mut m, name);
                crate::text::push_str(&mut m, "' NO coincide:\n  esperado (repos.conf): ");
                crate::text::push_str(&mut m, t.as_str());
                crate::text::push_str(&mut m, "\n  recibido:              ");
                crate::text::push_str(&mut m, fp);
                crate::text::push_str(&mut m, "\nSi el mantenedor rotó la llave legítimamente, ejecuta: vary --repo rekey ");
                crate::text::push_str(&mut m, name);
                Err(m)
            }
        },
        None => Ok(()),
    }
}

/// The binary repository URL of an entry, when set and not blank.
pub open spec fn binary_url_of(e: RepoEntry) -> Option<Seq<char>> {
    match e.binary_repo_url {
        Some(u) => if trim(u@).len() > 0 {
            Some(u@)
        } else {
            None
        },
        None => None,
    }
}

/// The message for a key that is not an RSA public key.
pub open spec fn key_error_text(pem: Seq<char>) -> Seq<char> {
    match pem_der(pem) {
        Err(_) => "PEM inválido"@,
        Ok(der) => match rsa_spki(der) {
            Err(de) => crate::keys::der_message(de),
            Ok(_) => Seq::empty(),
        },
    }
}

/// What registering a VUR binary repository with key `pem` comes to
/// before the user is asked: the key's xbps fingerprint and the
/// `/etc/xbps.d` text, or why it cannot be registered.
pub open spec fn binary_repo_outcome(name: Seq<char>, e: RepoEntry, pem: Seq<char>) -> Result<(Seq<char>, Seq<char>), Seq<char>> {
    match binary_url_of(e) {
        None => Err("el VUR '"@ + name + "' es source-only (sin binary_repo_url); solo puede compilarse"@),
        Some(url) => if !valid_repository_url(url) {
            Err(crate::keys::repository_url_message(url))
        } else {
            match xbps_fp(pem) {
                None => Err(key_error_text(pem)),
                Some(fp) => match pin_of(e) {
                    Some(p) => if !pin_matches(p, fp, sha_fp(pem)->Some_0) {
                        Err(pin_mismatch("VUR"@, name, p, fp))
                    } else {
                        Ok((fp, "repository="@ + url + "\n"@))
                    },
                    None => Ok((fp, "repository="@ + url + "\n"@)),
                },
            }
        },
    }
}

pub fn binary_repo_plan(name: &str, entry: &RepoEntry, pem: &str) -> (r: Result<(String, String), String>)
    ensures
        match binary_repo_outcome(name@, *entry, pem@) {
            Ok((fp, conf)) => r matches Ok((a, b)) && a@ == fp && b@ == conf,
            Err(m) => r matches Err(x) && x@ == m,
        },
{
    let url = match &entry.binary_repo_url {
        Some(u) => {
            let t = crate::text::trim_string(u.as_str());
            if t.as_str().is_empty() {
                None
            } else {
                Some(u.clone())
            }
        },
        None => None,
    };
    let url = match url {
        Some(u) => u,
        None => {
            return Err(
                crate::text::concat3("el VUR '", name, "' es source-only (sin binary_repo_url); solo puede compilarse"),
            );
        },
    };
    match crate::keys::validate_repository_url(url.as_str()) {
        Err(m) => {
            return Err(m);
        },
        Ok(()) => {},
    }
    let fp = match crate::keys::xbps_fingerprint_pem(pem) {
        Ok(f) => f,
        Err(e) => {
            return Err(e.message());
        },
    };
    let sha = match crate::keys::sha256_fingerprint_pem(pem) {
        Ok(s) => s,
        Err(_) => {
            return Err("PEM inválido".to_string());
        },
    };
    match check_pin("VUR", name, entry, fp.as_str(), sha.as_str()) {
        Err(m) => {
            return Err(m);
        },
        Ok(()) => {},
    }
    let conf = crate::text::concat3("repository=", url.as_str(), "\n");
    Ok((fp, conf))
}

/// The distinct, non-blank (trimmed) URLs of a VUP repository, each
/// checked as it is first met.
pub open spec fn vup_url_list(us: Seq<Seq<char>>) -> Result<Seq<Seq<char>>, Seq<char>>
    decreases us.len(),
{
    if us.len() == 0 {
        Ok(Seq::empty())
    } else {
        match vup_url_list(us.drop_last()) {
            Err(m) => Err(m),
            Ok(acc) => {
                let u = trim(us.last());
                if u.len() > 0 && !acc.contains(u) {
                    if !valid_repository_url(u) {
                        Err(crate::keys::repository_url_message(u))
                    } else {
                        Ok(acc.push(u))
                    }
                } else {
                    Ok(acc)
                }
            },
        }
    }
}

/// The `/etc/xbps.d` text registering each URL.
pub open spec fn conf_text(urls: Seq<Seq<char>>) -> Seq<char>
    decreases urls.len(),
{
    if urls.len() == 0 {
        Seq::empty()
    } else {
        conf_text(urls.drop_last()) + "repository="@ + urls.last() + "\n"@
    }
}

/// What registering a VUP repository comes to before the user is asked:
/// its URLs, the key's xbps fingerprint and the `/etc/xbps.d` text, or why
/// it cannot be registered.
pub open spec fn vup_repo_outcome(name: Seq<char>, urls: Seq<Seq<char>>, pem: Seq<char>, e: RepoEntry) -> Result<
    (Seq<Seq<char>>, Seq<char>, Seq<char>),
    Seq<char>,
> {
    match vup_url_list(urls) {
        Err(m) => Err(m),
        Ok(list) => if list.len() == 0 {
            Err("el repo VUP '"@ + name + "' no aporta ninguna URL binaria para esta arquitectura"@)
        } else {
            match xbps_fp(pem) {
                None => Err(key_error_text(pem)),
                Some(fp) => match pin_of(e) {
                    Some(p) => if !pin_matches(p, fp, sha_fp(pem)->Some_0) {
                        Err(pin_mismatch("repo VUP"@, name, p, fp))
                    } else {
                        Ok((list, fp, conf_text(list)))
                    },
                    None => Ok((list, fp, conf_text(list))),
                },
            }
        },
    }
}

pub fn vup_repo_plan(name: &str, repo_urls: &Vec<String>, key_pem: &str, entry: &RepoEntry) -> (r: Result<
    (Vec<String>, String, String),
    String,
>)
    ensures
        match vup_repo_outcome(name@, strs_view(repo_urls@), key_pem@, *entry) {
            Ok((list, fp, conf)) => r matches Ok((a, b, c)) && strs_view(a@) == list && b@ == fp && c@ == conf,
            Err(m) => r matches Err(x) && x@ == m,
        },
{
    let ghost us = strs_view(repo_urls@);
    let mut urls: Vec<String> = Vec::new();
    assert(us.take(0) =~= Seq::<Seq<char>>::empty());
    assert(strs_view(urls@) =~= Seq::<Seq<char>>::empty());
    let mut i: usize = 0;
    while i < repo_urls.len()
        invariant
            i <= repo_urls@.len(),
            us == strs_view(repo_urls@),
            vup_url_list(us.take(i as int)) == Ok::<Seq<Seq<char>>, Seq<char>>(strs_view(urls@)),
        decreases repo_urls@.len() - i,
    {
        proof {
            assert(us.take(i as int + 1).drop_last() =~= us.take(i as int));
            assert(us.take(i as int + 1).last() == us[i as int]);
        }
        let u = crate::text::trim_string(repo_urls[i].as_str());
        if !u.as_str().is_empty() {
            let mut seen = false;
            let mut j: usize = 0;
            while j < urls.len()
                invariant
                    j <= urls@.len(),
                    seen == strs_view(urls@).take(j as int).contains(u@),
                decreases urls@.len() - j,
            {
                proof {
                    assert(strs_view(urls@).take(j as int + 1) =~= strs_view(urls@).take(j as int).push(urls@[j as int]@));
                    crate::sorting::lemma_push_contains(strs_view(urls@).take(j as int), urls@[j as int]@, u@);
                }
                if urls[j] == u {
                    seen = true;
                }
                j = j + 1;
            }
            assert(strs_view(urls@).take(urls@.len() as int) =~= strs_view(urls@));
            if !seen {
                match crate::keys::validate_repository_url(u.as_str()) {
                    Err(m) => {
                        proof {
                            lemma_url_error_sticks(us, i as int + 1);
                        }
                        return Err(m);
                    },
                    Ok(()) => {},
                }
                let ghost before = strs_view(urls@);
                urls.push(u);
                assert(strs_view(urls@) =~= before.push(urls@.last()@));
            }
        }
        i = i + 1;
    }
    assert(us.take(us.len() as int) =~= us);
    if urls.len() == 0 {
        return Err(
            crate::text::concat3("el repo VUP '", name, "' no aporta ninguna URL binaria para esta arquitectura"),
        );
    }
    let fp = match crate::keys::xbps_fingerprint_pem(key_pem) {
        Ok(f) => f,
        Err(e) => {
            return Err(e.message());
        },
    };
    let sha = match crate::keys::sha256_fingerprint_pem(key_pem) {
        Ok(s) => s,
        Err(_) => {
            return Err("PEM inválido".to_string());
        },
    };
    match check_pin("repo VUP", name, entry, fp.as_str(), sha.as_str()) {
        Err(m) => {
            return Err(m);
        },
        Ok(()) => {},
    }
    let mut conf = String::new();
    let mut k: usize = 0;
    while k < urls.len()
        invariant
            k <= urls@.len(),
            conf@ == conf_text(strs_view(urls@).take(k as int)),
        decreases urls@.len() - k,
    {
        crate::text::push_str(&mut conf, "repository=");
        crate::text::push_str(&mut conf, urls[k].as_str());
        crate::text::push_str(&mut conf, "\n");
        proof {
            let w = strs_view(urls@);
            assert(w.take(k as int + 1).drop_last() =~= w.take(k as int));
            assert(w.take(k as int + 1).last() == w[k as int]);
        }
        k = k + 1;
    }
    assert(strs_view(urls@).take(urls@.len() as int) =~= strs_view(urls@));
    Ok((urls, fp, conf))
}

proof fn lemma_url_error_sticks(us: Seq<Seq<char>>, i: int)
    requires
        0 <= i <= us.len(),
        vup_url_list(us.take(i)) is Err,
    ensures
        vup_url_list(us) == vup_url_list(us.take(i)),
    decreases us.len() - i,
{
    if i < us.len() {
        assert(us.take(i + 1).drop_last() =~= us.take(i));
        lemma_url_error_sticks(us, i + 1);
    } else {
        assert(us.take(i) =~= us);
    }
}

/// What pre-importing a repository's key plist into the xbps keyring
/// comes to, after its key was verified as `fp`: the file to write, or
/// why nothing is written. The plist must decode to the very key `fp`
/// names (fail closed).
pub open spec fn preimport_outcome(fp: Seq<char>, plist: Seq<char>, keys_dir: Seq<char>) -> Result<Seq<char>, Seq<char>> {
    if !crate::keys::valid_fingerprint(fp) {
        Err(crate::keys::invalid_fingerprint_message(fp))
    } else {
        match crate::vup_index::plist_pem(plist) {
            Err(_) => Err("el plist a pre-importar no decodifica a una public key PEM"@),
            Ok(pem) => match xbps_fp(pem) {
                None => Err("PEM del plist inválido"@),
                Some(pfp) => if lowercase(pfp) != lowercase(fp) {
                    Err(
                        "el plist a pre-importar no corresponde a la llave verificada (fallo cerrado):\n  verificado: "@
                            + fp + "\n  del plist:  "@ + pfp,
                    )
                } else {
                    Ok(keys_dir + "/"@ + fp + ".plist"@)
                },
            },
        }
    }
}

/// The checks before the key plist of a verified repository is written to
/// the xbps keyring: the fingerprint can name a file, and the plist holds
/// the same key. Returns the file to write.
pub fn preimport_check(fp: &str, key_plist: &str, keys_dir: &str) -> (r: Result<String, String>)
    ensures
        match preimport_outcome(fp@, key_plist@, keys_dir@) {
            Ok(dest) => r matches Ok(x) && x@ == dest,
            Err(m) => r matches Err(x) && x@ == m,
        },
{
    match crate::keys::xbps_key_plist_path(fp) {
        Err(m) => {
            return Err(m);
        },
        Ok(_) => {},
    }
    let pem = match crate::vup_index::decode_plist_public_key_pem(key_plist) {
        Ok(p) => p,
        Err(_) => {
            return Err("el plist a pre-importar no decodifica a una public key PEM".to_string());
        },
    };
    let plist_fp = match crate::keys::xbps_fingerprint_pem(pem.as_str()) {
        Ok(f) => f,
        Err(_) => {
            return Err("PEM del plist inválido".to_string());
        },
    };
    let a = crate::text::to_lower(plist_fp.as_str());
    let b = crate::text::to_lower(fp);
    if !crate::text::chars_eq(crate::text::chars_of(a.as_str()).as_slice(), crate::text::chars_of(b.as_str()).as_slice()) {
        let mut m = crate::text::concat3(
            "el plist a pre-importar no corresponde a la llave verificada (fallo cerrado):\n  verificado: ",
            fp,
            "\n  del plist:  ",
        );
        crate::text::push_str(&mut m, plist_fp.as_str());
        return Err(m);
    }
    let mut dest = crate::text::concat3(keys_dir, "/", fp);
    crate::text::push_str(&mut dest, ".plist");
    Ok(dest)
}

} // verus!
