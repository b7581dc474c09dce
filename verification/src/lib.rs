//! Profile bookkeeping for a Codex account switcher: labels, the profiles
//! index, managed-file lists, profile identities, ordering and selection of
//! saved profiles, config snapshots and JSON envelopes.
use vstd::prelude::*;

pub mod commands;
pub mod details;
pub mod config_snapshot;
pub mod entries;
pub mod error;
pub mod identity;
pub mod index;
pub mod json_output;
pub mod json_response;
pub mod labels;
pub mod laws;
pub mod order;
pub mod managed_files;
pub mod paths;
pub mod select;
pub mod status;
pub mod store;
pub mod strmap;
pub mod text;
pub mod transfer;
pub mod ui;

verus! {

} // verus!
