//! Verified core of `vary`, a package manager front end for Void Linux.
use vstd::prelude::*;

pub mod text;
pub mod paths;
pub mod metadata;
pub mod version;
pub mod depgraph;
pub mod resolver;
pub mod source;
pub mod reposconf;
pub mod signal;
pub mod masterdir;
pub mod keys;
pub mod sorting;
pub mod soname;
pub mod vup_index;
pub mod util;
pub mod template_audit;
pub mod vur_client;

verus! {
} // verus!
pub mod xbps;
pub mod elevate;
pub mod preflight;
pub mod challenge;
pub mod why;
pub mod keyed;
pub mod lockfile;
pub mod journal;
pub mod init;
pub mod bootstrap;
pub mod db;
pub mod install;
pub mod config;
pub mod command_line;
pub mod source_maps;
pub mod upgrade;
pub mod review;
pub mod repo;
pub mod remove;
pub mod plan_text;
pub mod search;
pub mod info;
pub mod trust;
pub mod listing;
pub mod cache;
