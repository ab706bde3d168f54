//! The stat-counter table: five enumerated counters, maintained
//! incrementally by the store's mutations and reconciled from ground-truth
//! counts when they grow stale.

use vstd::prelude::*;

verus! {

#[derive(Clone, Copy, PartialEq, Eq, Debug, Structural)]
pub enum StatType {
    TotalTorrents,
    ScrapedTorrents,
    QueueInfo,
    QueueTrackers,
    Stale,
}

/// One stat-counter row.
#[derive(Clone, Copy, PartialEq, Eq, Debug, Structural)]
pub struct Model {
    pub name: StatType,
    pub value: u64,
    pub last_updated: i64,
}

/// The canonical position of each counter in the stats table.
pub open spec fn stat_name_at(k: int) -> StatType {
    if k == 0 {
        StatType::TotalTorrents
    } else if k == 1 {
        StatType::ScrapedTorrents
    } else if k == 2 {
        StatType::QueueInfo
    } else if k == 3 {
        StatType::QueueTrackers
    } else {
        StatType::Stale
    }
}

pub open spec fn stat_idx(name: StatType) -> int {
    match name {
        StatType::TotalTorrents => 0,
        StatType::ScrapedTorrents => 1,
        StatType::QueueInfo => 2,
        StatType::QueueTrackers => 3,
        StatType::Stale => 4,
    }
}

/// The table's position for each counter name.
pub fn stat_index(name: StatType) -> (r: usize)
    ensures
        r == stat_idx(name),
        r < 5,
{
    match name {
        StatType::TotalTorrents => 0,
        StatType::ScrapedTorrents => 1,
        StatType::QueueInfo => 2,
        StatType::QueueTrackers => 3,
        StatType::Stale => 4,
    }
}

/// The two queue depths reported by the stats query.
#[derive(Clone, Copy, PartialEq, Eq, Debug, Structural)]
pub struct Queue {
    pub info: u64,
    pub trackers: u64,
}

/// The counters reported by the stats query.
#[derive(Clone, Copy, PartialEq, Eq, Debug, Structural)]
pub struct OutputStats {
    pub torrents: u64,
    pub scraped: u64,
    pub stale: u64,
    pub queue: Queue,
}

} // verus!
