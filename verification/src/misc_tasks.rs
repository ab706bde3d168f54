//! The janitor: the hourly maintenance sweeps. The store work it triggers
//! is verified in the store; the timers run outside the library.

use vstd::prelude::*;

verus! {

/// How often each maintenance sweep runs.
pub const SWEEP_INTERVAL_SECS: i64 = 3600;

/// The janitor service behind the vacuum and stale sweeps.
pub struct MiscTasksService {}

impl MiscTasksService {
    /// A new janitor.
    pub fn new() -> (r: MiscTasksService)
        ensures
            r == (MiscTasksService {  }),
    {
        MiscTasksService {  }
    }

    /// The maintenance statement issued against the torrents table; a
    /// no-op on engines that maintain themselves.
    pub fn vacuum_statement(&self) -> (r: &'static str)
        ensures
            r@ == "VACUUM torrents"@,
    {
        "VACUUM torrents"
    }
}

} // verus!
