//! Backups. Volumes and configuration are backed up by hand for now (stop
//! the services, archive the volumes and `.env` with `keys/`), so the
//! manager has nothing to do yet.

use vstd::prelude::*;

verus! {

/// Creates and lists backups.
#[derive(Debug)]
pub struct BackupManager {}

impl BackupManager {
    pub fn new() -> (r: BackupManager) {
        BackupManager {}
    }

    /// Backs up a service: nothing is archived yet, and it succeeds.
    pub fn create_backup(&self, service: &str) -> (r: Result<(), String>)
        ensures
            r is Ok,
    {
        Ok(())
    }

    /// The backups made: none yet.
    pub fn list_backups(&self) -> (r: Vec<String>)
        ensures
            r@.len() == 0,
    {
        Vec::new()
    }
}

} // verus!
