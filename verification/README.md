# vary

`vary` installs packages for Void Linux from VUR repositories (git
repositories of xbps-src templates, or signed binary repositories), next to
the official xbps repositories.

## Layout

- `src/` is the library, verified with Verus: dependency resolution and
  build ordering, template and `.VURINFO` reading, version comparison, key
  fingerprints and the trust checks around them, the installed-package
  database, the journal, the lock file, the command line, and the decisions
  of each command. Every public function states what it returns in its
  `ensures`; the laws that relate several functions are public proof
  functions (`lemma_*`).
- The few calls into other crates (petgraph, sha2, md5, base64, diffy,
  ruzstd, tar) and into the system clock or file system sit behind small
  trusted wrappers, each with a doc comment saying what its contract
  claims.
- `app/` is the `vary` command. It reads the environment and the
  configuration files, takes the instance lock, parses the command line
  through the library, and carries out `--repo list` and `-R` (running
  `xbps-remove`, then updating the database and the journal). The drivers
  of the other operations (git clones, index downloads, xbps-src builds)
  are not part of it: it answers those with an error. Their decisions,
  among them the install sequence (`install::install_step`), are in the
  library.
- `tests/` runs the library on concrete inputs.
