//! Folder synchronisation decisions: conflict naming, backup naming, and
//! the last-writer-wins overwrite rule.
//!
//! The file system work — existence checks, renames, directory creation —
//! stays with the surrounding application; it consults these functions
//! for every name it writes and every overwrite it performs.

use crate::text::decimal_of;
use crate::text::u64_to_string;
use vstd::prelude::*;
use vstd::string::StringExecFns;

verus! {

/// Naming and overwrite rules for one shared folder.
pub struct SyncManager {
    pub shared_folder: String,
    pub backup_folder: String,
}

impl SyncManager {
    /// A manager whose backups live under the shared folder.
    pub fn new(shared_folder: String) -> (r: SyncManager)
        ensures
            r.shared_folder@ == shared_folder@,
            r.backup_folder@ == shared_folder@ + "/.proxishare/backups"@,
    {
        let backup_folder = shared_folder.clone().concat("/.proxishare/backups");
        SyncManager { shared_folder, backup_folder }
    }

    /// Last writer wins: a remote change overwrites unless the local copy
    /// is readable and at least as recent. `local_modified` is the local
    /// copy's modification time, `None` where the file is missing or its
    /// metadata unreadable.
    pub fn should_overwrite(&self, local_modified: Option<u64>, remote_timestamp: u64) -> (r: bool)
        ensures
            r == match local_modified {
                None => true,
                Some(ts) => remote_timestamp > ts,
            },
    {
        match local_modified {
            None => true,
            Some(ts) => remote_timestamp > ts,
        }
    }

    /// The name a file is parked under before it is overwritten.
    pub fn backup_name(&self, file_name: &String, timestamp: u64) -> (r: String)
        ensures
            r@ == file_name@ + "."@ + decimal_of(timestamp as int) + ".bak"@,
    {
        file_name.clone().concat(".").concat(u64_to_string(timestamp).as_str()).concat(".bak")
    }

    /// The `index`-th candidate name for a conflicting file. The caller
    /// tries indices from one upward until a candidate does not exist.
    pub fn handle_rename_conflict(&self, file_stem: &String, extension: &String, index: u64) -> (r:
        String)
        ensures
            extension@.len() == 0 ==> r@ == file_stem@ + ".conflict."@ + decimal_of(index as int),
            extension@.len() > 0 ==> r@ == file_stem@ + ".conflict."@ + decimal_of(index as int)
                + "."@ + extension@,
    {
        let base = file_stem.clone().concat(".conflict.").concat(u64_to_string(index).as_str());
        if extension.as_str().is_empty() {
            base
        } else {
            base.concat(".").concat(extension.as_str())
        }
    }
}

/// The mutable synchronisation state of the application.
pub struct SyncState {
    pub shared_folder: Option<String>,
    pub manager: Option<SyncManager>,
}

impl SyncState {
    /// No folder is shared at start.
    pub fn new() -> (r: SyncState)
        ensures
            r.shared_folder is None,
            r.manager is None,
    {
        SyncState { shared_folder: None, manager: None }
    }
}

} // verus!
