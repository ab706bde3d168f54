//! The torrent store: an ordered table of torrent rows plus the stat
//! counters, with the query and mutation semantics the scheduler and the
//! read API rely on. Rows are kept in ascending id order; info-hashes are
//! stored uppercase and unique.

use vstd::prelude::*;
use crate::torrent::{Model, ModelV, Tracker, TrackerV, Trackers, best_tracker_index, next_last_stale};
use crate::stats::{Model as StatModel, StatType, stat_name_at, stat_idx, stat_index};
use crate::text::{upper_seq, lower_seq, lemma_upper_idempotent, to_upper, to_lower};
use crate::search::{like_match, search_pattern, build_search_pattern, like_matches};
use crate::stats::{Queue, OutputStats};

verus! {

/// Errors a store mutation can report.
#[derive(Clone, Copy, PartialEq, Eq, Debug, Structural)]
pub enum StoreError {
    /// No row carries the requested id.
    NotFound,
    /// A row with the same info-hash already exists; the later insert loses.
    Duplicate,
    /// The id space is exhausted.
    Full,
}

impl StoreError {
    pub fn message(&self) -> (r: &'static str)
        ensures
            *self == StoreError::NotFound ==> r@ == "Cannot find torrent."@,
            *self == StoreError::Duplicate ==> r@ == "Torrent already exists."@,
            *self == StoreError::Full ==> r@ == "Torrent id space is exhausted."@,
    {
        match self {
            StoreError::NotFound => "Cannot find torrent.",
            StoreError::Duplicate => "Torrent already exists.",
            StoreError::Full => "Torrent id space is exhausted.",
        }
    }
}

/// Whether a counter is raised or lowered.
#[derive(Clone, Copy, PartialEq, Eq, Debug, Structural)]
pub enum StatAction {
    Inc,
    Dec,
}

#[verifier::ext_equal]
pub ghost struct StoreV {
    pub torrents: Seq<ModelV>,
    pub stats: Seq<StatModel>,
    pub next_id: int,
}

pub open spec fn views_of(ms: Seq<Model>) -> Seq<ModelV> {
    ms.map_values(|m: Model| m@)
}

/// Row views distribute over appending a row.
pub proof fn lemma_views_push(ms: Seq<Model>, m: Model)
    ensures
        views_of(ms.push(m)) == views_of(ms).push(m@),
{
    assert(views_of(ms.push(m)) =~= views_of(ms).push(m@));
}

/// Row views distribute over inserting a row.
pub proof fn lemma_views_insert(ms: Seq<Model>, j: int, m: Model)
    requires
        0 <= j <= ms.len(),
    ensures
        views_of(ms.insert(j, m)) == views_of(ms).insert(j, m@),
{
    assert(views_of(ms.insert(j, m)) =~= views_of(ms).insert(j, m@));
}

pub open spec fn stats_table_wf(stats: Seq<StatModel>) -> bool {
    stats.len() == 5 && (forall|k: int| 0 <= k < 5 ==> (#[trigger] stats[k]).name == stat_name_at(
        k,
    ))
}

/// Row-table well-formedness: ascending id order (so ids are unique), ids
/// positive and below the allocator, info-hashes unique and stored
/// uppercase.
pub open spec fn rows_wf(ts: Seq<ModelV>, next_id: int) -> bool {
    &&& forall|i: int, j: int|
        0 <= i < j < ts.len() ==> #[trigger] ts[i].id < #[trigger] ts[j].id
    &&& forall|i: int| 0 <= i < ts.len() ==> 0 < #[trigger] ts[i].id < next_id
    &&& forall|i: int, j: int|
        0 <= i < j < ts.len() ==> #[trigger] ts[i].info_hash != #[trigger] ts[j].info_hash
    &&& forall|i: int|
        0 <= i < ts.len() ==> #[trigger] ts[i].info_hash == upper_seq(ts[i].info_hash)
}

/// The store's invariant: well-formed rows and the five counters in
/// canonical order.
pub open spec fn store_inv(s: StoreV) -> bool {
    &&& rows_wf(s.torrents, s.next_id)
    &&& 1 <= s.next_id <= i32::MAX as int
    &&& stats_table_wf(s.stats)
}

/// Filtering a well-formed row table keeps it well-formed.
pub proof fn lemma_filter_rows_wf(ts: Seq<ModelV>, pred: spec_fn(ModelV) -> bool, next_id: int)
    requires
        rows_wf(ts, next_id),
    ensures
        rows_wf(ts.filter(pred), next_id),
    decreases ts.len(),
{
    reveal(Seq::filter);
    if ts.len() > 0 {
        let rest = ts.drop_last();
        let last = ts.last();
        assert(rows_wf(rest, next_id));
        lemma_filter_rows_wf(rest, pred, next_id);
        if pred(last) {
            let f = rest.filter(pred);
            assert forall|a: int| 0 <= a < f.len() implies (#[trigger] f[a]).id < last.id && f[a].info_hash
                != last.info_hash by {
                assert(f.contains(f[a]));
                rest.lemma_filter_contains_rev(pred, f[a]);
                let k = choose|k: int| 0 <= k < rest.len() && rest[k] == f[a];
                assert(ts[k] == f[a]);
                assert(ts[k].id < ts[ts.len() - 1].id);
                assert(ts[k].info_hash != ts[ts.len() - 1].info_hash);
            }
            assert(ts.filter(pred) == f.push(last));
        }
    }
}

/// Replacing one row without changing its id or hash keeps the table
/// well-formed.
pub proof fn lemma_update_keeps_rows_wf(ts: Seq<ModelV>, i: int, row: ModelV, next_id: int)
    requires
        rows_wf(ts, next_id),
        0 <= i < ts.len(),
        row.id == ts[i].id,
        row.info_hash == ts[i].info_hash,
    ensures
        rows_wf(ts.update(i, row), next_id),
{
    let ts2 = ts.update(i, row);
    assert forall|a: int, b: int| 0 <= a < b < ts2.len() implies #[trigger] ts2[a].id
        < #[trigger] ts2[b].id by {
        assert(ts[a].id < ts[b].id);
    }
    assert forall|a: int, b: int| 0 <= a < b < ts2.len() implies #[trigger] ts2[a].info_hash
        != #[trigger] ts2[b].info_hash by {
        assert(ts[a].info_hash != ts[b].info_hash);
    }
}

/// Some row carries this (already uppercased) info-hash.
pub open spec fn has_hash(ts: Seq<ModelV>, h: Seq<char>) -> bool {
    exists|i: int| 0 <= i < ts.len() && (#[trigger] ts[i]).info_hash == h
}

/// Some row carries this id.
pub open spec fn has_id(ts: Seq<ModelV>, id: int) -> bool {
    exists|i: int| 0 <= i < ts.len() && (#[trigger] ts[i]).id == id
}

/// `id` occurs in the ignore list.
pub open spec fn id_in(ids: Seq<i32>, id: int) -> bool {
    exists|k: int| 0 <= k < ids.len() && (#[trigger] ids[k]) as int == id
}

/// A freshly inserted, unresolved row.
pub open spec fn fresh_row(h: Seq<char>, id: int, now: int) -> ModelV {
    ModelV {
        id: id,
        name: None,
        info_hash: h,
        size: 0,
        files: Seq::empty(),
        added_at: now,
        seeders: 0,
        leechers: 0,
        trackers: Seq::empty(),
        last_scrape: None,
        last_tracker_scrape: None,
        last_stale: None,
    }
}

/// A freshly inserted row that already carries resolved metadata.
pub open spec fn resolved_row(
    h: Seq<char>,
    name: Seq<char>,
    size: int,
    files: Seq<Seq<char>>,
    id: int,
    now: int,
) -> ModelV {
    ModelV {
        id: id,
        name: Some(name),
        info_hash: h,
        size: size,
        files: files,
        added_at: now,
        seeders: 0,
        leechers: 0,
        trackers: Seq::empty(),
        last_scrape: Some(now),
        last_tracker_scrape: None,
        last_stale: None,
    }
}

/// A row after its metadata is resolved: name, size, files and the
/// resolution instant change; identity and swarm fields stay.
pub open spec fn with_info(
    t: ModelV,
    name: Seq<char>,
    size: int,
    files: Seq<Seq<char>>,
    now: int,
) -> ModelV {
    ModelV {
        id: t.id,
        name: Some(name),
        info_hash: t.info_hash,
        size: size,
        files: files,
        added_at: t.added_at,
        seeders: t.seeders,
        leechers: t.leechers,
        trackers: t.trackers,
        last_scrape: Some(now),
        last_tracker_scrape: t.last_tracker_scrape,
        last_stale: t.last_stale,
    }
}

/// The stale-run state machine over view values.
pub open spec fn next_stale_v(prev: Option<int>, seeders: int, leechers: int, now: int) -> Option<
    int,
> {
    if seeders == 0 && leechers == 0 {
        if prev is Some {
            prev
        } else {
            Some(now)
        }
    } else {
        None
    }
}

/// A row after a tracker-scrape batch: the observation list is replaced,
/// the swarm counters copy the best observation, and the stale marker is
/// advanced by the state machine.
pub open spec fn with_trackers(t: ModelV, tv: Seq<TrackerV>, b: int, now: int) -> ModelV {
    ModelV {
        id: t.id,
        name: t.name,
        info_hash: t.info_hash,
        size: t.size,
        files: t.files,
        added_at: t.added_at,
        seeders: tv[b].seeders,
        leechers: tv[b].leechers,
        trackers: tv,
        last_scrape: t.last_scrape,
        last_tracker_scrape: Some(now),
        last_stale: next_stale_v(t.last_stale, tv[b].seeders, tv[b].leechers, now),
    }
}

/// `b` is the first position of the maximum seeder count in `tv`.
pub open spec fn is_best_observation(tv: Seq<TrackerV>, b: int) -> bool {
    &&& 0 <= b < tv.len()
    &&& forall|j: int| 0 <= j < tv.len() ==> (#[trigger] tv[j]).seeders <= tv[b].seeders
    &&& forall|j: int| 0 <= j < b ==> (#[trigger] tv[j]).seeders < tv[b].seeders
}

pub open spec fn tracker_views(ts: Seq<Tracker>) -> Seq<TrackerV> {
    ts.map_values(|t: Tracker| t@)
}

/// A dead swarm not yet marked stale.
pub open spec fn stale_candidate(t: ModelV) -> bool {
    t.last_stale is None && t.seeders == 0 && t.leechers == 0
}

pub open spec fn mark_one(t: ModelV, now: int) -> ModelV {
    if stale_candidate(t) {
        ModelV {
            id: t.id,
            name: t.name,
            info_hash: t.info_hash,
            size: t.size,
            files: t.files,
            added_at: t.added_at,
            seeders: t.seeders,
            leechers: t.leechers,
            trackers: t.trackers,
            last_scrape: t.last_scrape,
            last_tracker_scrape: t.last_tracker_scrape,
            last_stale: Some(now),
        }
    } else {
        t
    }
}

/// How long a stale run must last before the row is deleted.
pub const STALE_DELETE_SECS: i64 = 259200;

/// A stale run old enough that the row is deleted.
pub open spec fn stale_expired(t: ModelV, now: int) -> bool {
    t.last_stale is Some && t.last_stale->0 < now - STALE_DELETE_SECS as int
}

/// The rows that survive a stale sweep at `now`.
pub open spec fn kept_after_stale(ts: Seq<ModelV>, now: int) -> Seq<ModelV> {
    ts.filter(|t: ModelV| !stale_expired(t, now))
}

/// The rows whose id is not listed.
pub open spec fn kept_after_delete(ts: Seq<ModelV>, ids: Seq<i32>) -> Seq<ModelV> {
    ts.filter(|t: ModelV| !id_in(ids, t.id))
}

pub open spec fn sat_add(v: u64, d: u64) -> u64 {
    if v + d > u64::MAX {
        u64::MAX
    } else {
        (v + d) as u64
    }
}

pub open spec fn sat_sub(v: u64, d: u64) -> u64 {
    if d > v {
        0u64
    } else {
        (v - d) as u64
    }
}

/// The stats table after one counter is raised or lowered (saturating) by
/// `value`, or by one when `value` is absent.
pub open spec fn spec_update_stat(
    stats: Seq<StatModel>,
    name: StatType,
    action: StatAction,
    value: Option<u64>,
) -> Seq<StatModel> {
    let k = stat_idx(name);
    let d = match value {
        Some(v) => v,
        None => 1u64,
    };
    let nv = match action {
        StatAction::Inc => sat_add(stats[k].value, d),
        StatAction::Dec => sat_sub(stats[k].value, d),
    };
    stats.update(
        k,
        StatModel { name: stats[k].name, value: nv, last_updated: stats[k].last_updated },
    )
}

/// How indexing reads through a one-element removal.
pub proof fn lemma_remove_index(s: Seq<ModelV>, i: int)
    requires
        0 <= i < s.len(),
    ensures
        s.remove(i).len() == s.len() - 1,
        forall|k: int| 0 <= k < i ==> s.remove(i)[k] == s[k],
        forall|k: int| i <= k < s.len() - 1 ==> s.remove(i)[k] == s[k + 1],
{
}

/// The fresh rows a bulk insert appends, with consecutive ids.
pub open spec fn fresh_rows(hs: Seq<Seq<char>>, id0: int, now: int) -> Seq<ModelV> {
    Seq::new(hs.len(), |j: int| fresh_row(hs[j], id0 + j, now))
}

/// The ignore list carried by the queue queries.
pub open spec fn ig_seq(ignore: Option<Vec<i32>>) -> Seq<i32> {
    match ignore {
        Some(v) => v@,
        None => Seq::empty(),
    }
}

/// A row the info-resolution queue selects: never resolved, not in flight.
pub open spec fn queue_info_pred(t: ModelV, ig: Seq<i32>) -> bool {
    t.last_scrape is None && !id_in(ig, t.id)
}

pub open spec fn queue_info_rows(ts: Seq<ModelV>, ig: Seq<i32>) -> Seq<ModelV> {
    ts.filter(|t: ModelV| queue_info_pred(t, ig))
}

/// How long a row may go without a tracker scrape before it is queued
/// again.
pub const TRACKER_REFRESH_SECS: i64 = 259200;

/// A row the tracker-scrape queue selects: resolved, never tracker-scraped
/// or tracker-scraped too long ago, not in flight.
pub open spec fn queue_trackers_pred(t: ModelV, ig: Seq<i32>, now: int) -> bool {
    &&& t.last_scrape is Some
    &&& (t.last_tracker_scrape is None || t.last_tracker_scrape->0 < now
        - TRACKER_REFRESH_SECS as int)
    &&& !id_in(ig, t.id)
}

pub open spec fn queue_trackers_rows(ts: Seq<ModelV>, ig: Seq<i32>, now: int) -> Seq<ModelV> {
    ts.filter(|t: ModelV| queue_trackers_pred(t, ig, now))
}

/// Ordering by last tracker scrape, an absent instant counting as the
/// smallest.
pub open spec fn lts_le(a: ModelV, b: ModelV) -> bool {
    match (a.last_tracker_scrape, b.last_tracker_scrape) {
        (Option::None, _) => true,
        (Option::Some(x), Option::Some(y)) => x <= y,
        (Option::Some(_), Option::None) => false,
    }
}

pub open spec fn lts_lt(a: ModelV, b: ModelV) -> bool {
    !lts_le(b, a)
}

/// Stable insertion into a sequence sorted by `lts_le`: the new element
/// lands after every element it does not strictly precede.
pub open spec fn insert_lts(s: Seq<ModelV>, x: ModelV) -> Seq<ModelV>
    decreases s.len(),
{
    if s.len() == 0 {
        seq![x]
    } else if lts_lt(x, s[0]) {
        seq![x] + s
    } else {
        seq![s[0]] + insert_lts(s.drop_first(), x)
    }
}

/// Stable insertion sort by `lts_le`.
pub open spec fn sort_lts(s: Seq<ModelV>) -> Seq<ModelV>
    decreases s.len(),
{
    if s.len() == 0 {
        Seq::<ModelV>::empty()
    } else {
        insert_lts(sort_lts(s.drop_last()), s.last())
    }
}

/// The first `n` elements, or all of them when there are fewer.
pub open spec fn take_at_most(s: Seq<ModelV>, n: int) -> Seq<ModelV> {
    if s.len() <= n {
        s
    } else {
        s.subrange(0, n)
    }
}

/// Scanning for the first position the new element strictly precedes
/// computes `insert_lts`.
pub proof fn lemma_insert_lts_at(s: Seq<ModelV>, x: ModelV, j: int)
    requires
        0 <= j <= s.len(),
        forall|k: int| 0 <= k < j ==> !lts_lt(x, #[trigger] s[k]),
        j < s.len() ==> lts_lt(x, s[j]),
    ensures
        insert_lts(s, x) == s.subrange(0, j) + seq![x] + s.subrange(j, s.len() as int),
    decreases s.len(),
{
    if j == 0 {
        if s.len() == 0 {
            assert(insert_lts(s, x) =~= s.subrange(0, 0) + seq![x] + s.subrange(0, 0));
        } else {
            assert(insert_lts(s, x) =~= s.subrange(0, 0) + seq![x] + s.subrange(0, s.len() as int));
        }
    } else {
        let rest = s.drop_first();
        assert(!lts_lt(x, s[0]));
        assert forall|k: int| 0 <= k < j - 1 implies !lts_lt(x, #[trigger] rest[k]) by {
            assert(rest[k] == s[k + 1]);
        }
        lemma_insert_lts_at(rest, x, j - 1);
        assert(insert_lts(s, x) =~= s.subrange(0, j) + seq![x] + s.subrange(j, s.len() as int));
    }
}

/// Every element of a stable insertion satisfies any property all inputs
/// satisfy.
pub proof fn lemma_insert_lts_all(s: Seq<ModelV>, x: ModelV, pred: spec_fn(ModelV) -> bool)
    requires
        forall|k: int| 0 <= k < s.len() ==> pred(#[trigger] s[k]),
        pred(x),
    ensures
        forall|k: int|
            0 <= k < insert_lts(s, x).len() ==> pred(#[trigger] insert_lts(s, x)[k]),
    decreases s.len(),
{
    if s.len() != 0 && !lts_lt(x, s[0]) {
        let rest = s.drop_first();
        lemma_insert_lts_all(rest, x, pred);
        assert forall|k: int| 0 <= k < insert_lts(s, x).len() implies pred(
            #[trigger] insert_lts(s, x)[k],
        ) by {
            if k > 0 {
                assert(insert_lts(s, x)[k] == insert_lts(rest, x)[k - 1]);
            }
        }
    }
}

/// Every element of the sort satisfies any property all inputs satisfy.
pub proof fn lemma_sort_lts_all(s: Seq<ModelV>, pred: spec_fn(ModelV) -> bool)
    requires
        forall|k: int| 0 <= k < s.len() ==> pred(#[trigger] s[k]),
    ensures
        forall|k: int| 0 <= k < sort_lts(s).len() ==> pred(#[trigger] sort_lts(s)[k]),
    decreases s.len(),
{
    if s.len() != 0 {
        lemma_sort_lts_all(s.drop_last(), pred);
        lemma_insert_lts_all(sort_lts(s.drop_last()), s.last(), pred);
    }
}

/// A row the name search returns: resolved name matching the pattern.
pub open spec fn search_matched(t: ModelV, pat: Seq<char>) -> bool {
    t.name is Some && like_match(pat, lower_seq(t.name->0))
}

pub open spec fn search_rows(ts: Seq<ModelV>, pat: Seq<char>) -> Seq<ModelV> {
    ts.filter(|t: ModelV| search_matched(t, pat))
}

/// The window `offset..offset+limit` of a result list, clipped to its
/// length.
pub open spec fn slice_page(s: Seq<ModelV>, offset: int, limit: int) -> Seq<ModelV> {
    let lo = if offset <= s.len() { offset } else { s.len() as int };
    let hi = if offset + limit <= s.len() { offset + limit } else { s.len() as int };
    if hi >= lo {
        s.subrange(lo, hi)
    } else {
        s.subrange(lo, lo)
    }
}

/// A row counted as fully scraped: metadata resolved and at least one
/// tracker-scrape cycle recorded.
pub open spec fn scraped_pred(t: ModelV) -> bool {
    t.last_scrape is Some && t.last_tracker_scrape is Some
}

pub open spec fn count_scraped(ts: Seq<ModelV>) -> int {
    ts.filter(|t: ModelV| scraped_pred(t)).len() as int
}

pub open spec fn count_queue_info(ts: Seq<ModelV>) -> int {
    ts.filter(|t: ModelV| t.last_scrape is None).len() as int
}

pub open spec fn count_queue_trackers(ts: Seq<ModelV>, now: int) -> int {
    ts.filter(|t: ModelV| queue_trackers_pred(t, Seq::empty(), now)).len() as int
}

pub open spec fn count_stale(ts: Seq<ModelV>) -> int {
    ts.filter(|t: ModelV| t.last_stale is Some).len() as int
}

/// The ground-truth counters at `now`.
pub open spec fn raw_counts_ok(r: OutputStats, ts: Seq<ModelV>, now: int) -> bool {
    &&& r.torrents as int == ts.len()
    &&& r.scraped as int == count_scraped(ts)
    &&& r.queue.info as int == count_queue_info(ts)
    &&& r.queue.trackers as int == count_queue_trackers(ts, now)
    &&& r.stale as int == count_stale(ts)
}

/// Some counter row has not been written for more than two minutes.
pub open spec fn stats_need_reindex(stats: Seq<StatModel>, now: int) -> bool {
    exists|k: int| 0 <= k < stats.len() && (#[trigger] stats[k]).last_updated < now - 120
}

/// The counter table after a reconciliation at `now`.
pub open spec fn reconciled_stats(ts: Seq<ModelV>, now: int) -> Seq<StatModel> {
    seq![
        StatModel { name: StatType::TotalTorrents, value: ts.len() as u64, last_updated: now as i64 },
        StatModel { name: StatType::ScrapedTorrents, value: count_scraped(ts) as u64, last_updated: now as i64 },
        StatModel { name: StatType::QueueInfo, value: count_queue_info(ts) as u64, last_updated: now as i64 },
        StatModel { name: StatType::QueueTrackers, value: count_queue_trackers(ts, now) as u64, last_updated: now as i64 },
        StatModel { name: StatType::Stale, value: count_stale(ts) as u64, last_updated: now as i64 },
    ]
}

/// The counters as the stored rows report them.
pub open spec fn stored_counts_ok(r: OutputStats, stats: Seq<StatModel>) -> bool {
    &&& r.torrents == stats[0].value
    &&& r.scraped == stats[1].value
    &&& r.queue.info == stats[2].value
    &&& r.queue.trackers == stats[3].value
    &&& r.stale == stats[4].value
}

/// The persistent torrent table with its stat counters.
pub struct Store {
    torrents: Vec<Model>,
    stats: Vec<StatModel>,
    next_id: i32,
}

impl View for Store {
    type V = StoreV;

    closed spec fn view(&self) -> StoreV {
        StoreV {
            torrents: self.torrents@.map_values(|m: Model| m@),
            stats: self.stats@,
            next_id: self.next_id as int,
        }
    }
}

impl Store {
    /// An empty store with all counters zero and ids starting at one.
    pub fn new(now: i64) -> (r: Store)
        ensures
            store_inv(r@),
            r@.torrents == Seq::<ModelV>::empty(),
            r@.next_id == 1,
            forall|k: int|
                0 <= k < 5 ==> #[trigger] r@.stats[k] == (StatModel {
                    name: stat_name_at(k),
                    value: 0u64,
                    last_updated: now,
                }),
    {
        let mut stats: Vec<StatModel> = Vec::new();
        stats.push(StatModel { name: StatType::TotalTorrents, value: 0, last_updated: now });
        stats.push(StatModel { name: StatType::ScrapedTorrents, value: 0, last_updated: now });
        stats.push(StatModel { name: StatType::QueueInfo, value: 0, last_updated: now });
        stats.push(StatModel { name: StatType::QueueTrackers, value: 0, last_updated: now });
        stats.push(StatModel { name: StatType::Stale, value: 0, last_updated: now });
        let r = Store { torrents: Vec::new(), stats, next_id: 1 };
        proof {
            assert(r@.torrents =~= Seq::<ModelV>::empty());
        }
        r
    }

    /// Raises or lowers one counter in place; row data is untouched.
    pub fn update_stat(&mut self, name: StatType, action: StatAction, value: Option<u64>)
        requires
            store_inv(old(self)@),
        ensures
            store_inv(final(self)@),
            final(self)@.torrents == old(self)@.torrents,
            final(self)@.next_id == old(self)@.next_id,
            final(self)@.stats == spec_update_stat(old(self)@.stats, name, action, value),
    {
        let k = stat_index(name);
        let d = match value {
            Some(v) => v,
            None => 1,
        };
        let row = self.stats[k];
        let nv = match action {
            StatAction::Inc => row.value.saturating_add(d),
            StatAction::Dec => row.value.saturating_sub(d),
        };
        self.stats.set(k, StatModel { name: row.name, value: nv, last_updated: row.last_updated });
        proof {
            assert(self@.stats =~= spec_update_stat(old(self)@.stats, name, action, value));
        }
    }

    /// Whether a torrent with this info-hash exists; the lookup uppercases
    /// the caller's input.
    pub fn exists_torrent_by_info_hash(&self, info_hash: &str) -> (r: bool)
        ensures
            r == has_hash(self@.torrents, upper_seq(info_hash@)),
    {
        let upper = to_upper(info_hash);
        let n = self.torrents.len();
        let mut i: usize = 0;
        while i < n
            invariant
                n == self@.torrents.len(),
                upper@ == upper_seq(info_hash@),
                i <= n,
                forall|j: int| 0 <= j < i ==> (#[trigger] self@.torrents[j]).info_hash != upper@,
            decreases n - i,
        {
            if self.torrents[i].info_hash == upper {
                proof {
                    assert(self@.torrents[i as int].info_hash == upper_seq(info_hash@));
                }
                return true;
            }
            i = i + 1;
        }
        false
    }

    /// The torrent with this info-hash, if any; the lookup uppercases the
    /// caller's input.
    pub fn find_torrent_by_info_hash(&self, info_hash: &str) -> (r: Option<Model>)
        ensures
            r is Some <==> has_hash(self@.torrents, upper_seq(info_hash@)),
            r is Some ==> exists|i: int|
                0 <= i < self@.torrents.len() && (#[trigger] self@.torrents[i]).info_hash
                    == upper_seq(info_hash@) && r->Some_0@ == self@.torrents[i],
    {
        let upper = to_upper(info_hash);
        let n = self.torrents.len();
        let mut i: usize = 0;
        while i < n
            invariant
                n == self@.torrents.len(),
                upper@ == upper_seq(info_hash@),
                i <= n,
                forall|j: int| 0 <= j < i ==> (#[trigger] self@.torrents[j]).info_hash != upper@,
            decreases n - i,
        {
            if self.torrents[i].info_hash == upper {
                proof {
                    assert(self@.torrents[i as int].info_hash == upper_seq(info_hash@));
                }
                return Some(self.torrents[i].duplicate());
            }
            i = i + 1;
        }
        None
    }

    /// The torrent with this id, if any.
    pub fn find_torrent_by_id(&self, id: i32) -> (r: Option<Model>)
        ensures
            r is Some <==> has_id(self@.torrents, id as int),
            r is Some ==> exists|i: int|
                0 <= i < self@.torrents.len() && (#[trigger] self@.torrents[i]).id == id as int
                    && r->Some_0@ == self@.torrents[i],
    {
        let n = self.torrents.len();
        let mut i: usize = 0;
        while i < n
            invariant
                n == self@.torrents.len(),
                i <= n,
                forall|j: int| 0 <= j < i ==> (#[trigger] self@.torrents[j]).id != id as int,
            decreases n - i,
        {
            if self.torrents[i].id == id {
                proof {
                    assert(self@.torrents[i as int].id == id as int);
                }
                return Some(self.torrents[i].duplicate());
            }
            i = i + 1;
        }
        None
    }

    /// Every row of the table, in id order.
    pub fn find_all_torrents(&self) -> (r: Vec<Model>)
        ensures
            views_of(r@) == self@.torrents,
    {
        let n = self.torrents.len();
        let mut out: Vec<Model> = Vec::new();
        let mut i: usize = 0;
        while i < n
            invariant
                n == self@.torrents.len(),
                i <= n,
                out@.len() == i,
                forall|k: int| 0 <= k < i ==> (#[trigger] out@[k])@ == self@.torrents[k],
            decreases n - i,
        {
            let m = self.torrents[i].duplicate();
            out.push(m);
            i = i + 1;
        }
        proof {
            assert(views_of(out@) =~= self@.torrents);
        }
        out
    }

    /// Inserts a fresh, unresolved torrent row; the info-hash is stored
    /// uppercase. Fails on a duplicate hash (the later insert loses) or an
    /// exhausted id space, leaving the store unchanged.
    pub fn create_torrent(&mut self, info_hash: String, now: i64) -> (r: Result<Model, StoreError>)
        requires
            store_inv(old(self)@),
        ensures
            store_inv(final(self)@),
            ({
                let h = upper_seq(info_hash@);
                let pre = old(self)@;
                if has_hash(pre.torrents, h) {
                    r is Err && r->Err_0 == StoreError::Duplicate && final(self)@ == pre
                } else if pre.next_id == i32::MAX as int {
                    r is Err && r->Err_0 == StoreError::Full && final(self)@ == pre
                } else {
                    r is Ok && r->Ok_0@ == fresh_row(h, pre.next_id, now as int)
                        && final(self)@.torrents == pre.torrents.push(fresh_row(h, pre.next_id, now as int))
                        && final(self)@.next_id == pre.next_id + 1 && final(self)@.stats == spec_update_stat(
                        spec_update_stat(pre.stats, StatType::TotalTorrents, StatAction::Inc, None),
                        StatType::QueueInfo,
                        StatAction::Inc,
                        None,
                    )
                }
            }),
    {
        let upper = to_upper(info_hash.as_str());
        if self.exists_torrent_by_info_hash(info_hash.as_str()) {
            return Err(StoreError::Duplicate);
        }
        if self.next_id == i32::MAX {
            return Err(StoreError::Full);
        }
        let id = self.next_id;
        let row = Model {
            id,
            name: None,
            info_hash: upper,
            size: 0,
            files: Vec::new(),
            added_at: now,
            seeders: 0,
            leechers: 0,
            trackers: Trackers(Vec::new()),
            last_scrape: None,
            last_tracker_scrape: None,
            last_stale: None,
        };
        let out = row.duplicate();
        proof {
            lemma_upper_idempotent(info_hash@);
            assert(row@ =~= fresh_row(upper_seq(info_hash@), old(self)@.next_id, now as int));
        }
        self.next_id = id + 1;
        self.torrents.push(row);
        proof {
            assert(self@.torrents =~= old(self)@.torrents.push(
                fresh_row(upper_seq(info_hash@), old(self)@.next_id, now as int),
            ));
        }
        self.update_stat(StatType::TotalTorrents, StatAction::Inc, None);
        self.update_stat(StatType::QueueInfo, StatAction::Inc, None);
        Ok(out)
    }

    /// Deletes the torrent with this id, if present, and lowers the total
    /// count by one; absent ids are ignored.
    pub fn delete_torrent(&mut self, id: i32)
        requires
            store_inv(old(self)@),
        ensures
            store_inv(final(self)@),
            final(self)@.next_id == old(self)@.next_id,
            ({
                let pre = old(self)@;
                if has_id(pre.torrents, id as int) {
                    (exists|i: int|
                        0 <= i < pre.torrents.len() && (#[trigger] pre.torrents[i]).id == id as int
                            && final(self)@.torrents == pre.torrents.remove(i)) && final(self)@.stats
                        == spec_update_stat(
                        pre.stats,
                        StatType::TotalTorrents,
                        StatAction::Dec,
                        Some(1u64),
                    )
                } else {
                    final(self)@ == pre
                }
            }),
    {
        let n = self.torrents.len();
        let mut i: usize = 0;
        while i < n
            invariant
                store_inv(self@),
                self@ == old(self)@,
                n == self@.torrents.len(),
                i <= n,
                forall|j: int| 0 <= j < i ==> (#[trigger] self@.torrents[j]).id != id as int,
            decreases n - i,
        {
            if self.torrents[i].id == id {
                proof {
                    assert(old(self)@.torrents[i as int].id == id as int);
                    lemma_remove_index(old(self)@.torrents, i as int);
                }
                self.torrents.remove(i);
                proof {
                    assert(self@.torrents =~= old(self)@.torrents.remove(i as int));
                    assert(store_inv(self@));
                }
                self.update_stat(StatType::TotalTorrents, StatAction::Dec, Some(1));
                return ;
            }
            i = i + 1;
        }
    }

    /// Inserts a resolved torrent row in one step, as the spider ingest
    /// does; the info-hash is stored uppercase. Fails on a duplicate hash
    /// or an exhausted id space, leaving the store unchanged.
    pub fn create_torrent_internal(
        &mut self,
        info_hash: String,
        name: String,
        size: i32,
        files: Vec<String>,
        now: i64,
    ) -> (r: Result<Model, StoreError>)
        requires
            store_inv(old(self)@),
        ensures
            store_inv(final(self)@),
            ({
                let h = upper_seq(info_hash@);
                let pre = old(self)@;
                let row = resolved_row(
                    h,
                    name@,
                    size as int,
                    files@.map_values(|f: String| f@),
                    pre.next_id,
                    now as int,
                );
                if has_hash(pre.torrents, h) {
                    r is Err && r->Err_0 == StoreError::Duplicate && final(self)@ == pre
                } else if pre.next_id == i32::MAX as int {
                    r is Err && r->Err_0 == StoreError::Full && final(self)@ == pre
                } else {
                    r is Ok && r->Ok_0@ == row && final(self)@.torrents == pre.torrents.push(row)
                        && final(self)@.next_id == pre.next_id + 1 && final(self)@.stats
                        == spec_update_stat(
                        spec_update_stat(pre.stats, StatType::TotalTorrents, StatAction::Inc, None),
                        StatType::QueueTrackers,
                        StatAction::Inc,
                        None,
                    )
                }
            }),
    {
        let upper = to_upper(info_hash.as_str());
        if self.exists_torrent_by_info_hash(info_hash.as_str()) {
            return Err(StoreError::Duplicate);
        }
        if self.next_id == i32::MAX {
            return Err(StoreError::Full);
        }
        let id = self.next_id;
        let row = Model {
            id,
            name: Some(name),
            info_hash: upper,
            size,
            files,
            added_at: now,
            seeders: 0,
            leechers: 0,
            trackers: Trackers(Vec::new()),
            last_scrape: Some(now),
            last_tracker_scrape: None,
            last_stale: None,
        };
        let out = row.duplicate();
        proof {
            lemma_upper_idempotent(info_hash@);
            assert(row@ =~= resolved_row(
                upper_seq(info_hash@),
                row.name->0@,
                size as int,
                row.files@.map_values(|f: String| f@),
                old(self)@.next_id,
                now as int,
            ));
        }
        self.next_id = id + 1;
        self.torrents.push(row);
        proof {
            assert(self@.torrents =~= old(self)@.torrents.push(
                resolved_row(
                    upper_seq(info_hash@),
                    name@,
                    size as int,
                    files@.map_values(|f: String| f@),
                    old(self)@.next_id,
                    now as int,
                ),
            ));
        }
        self.update_stat(StatType::TotalTorrents, StatAction::Inc, None);
        self.update_stat(StatType::QueueTrackers, StatAction::Inc, None);
        Ok(out)
    }

    /// Records resolved metadata on an existing row and stamps the
    /// resolution instant; queue counters move from the info queue to the
    /// trackers queue. Fails when the id is absent.
    pub fn update_torrent_info(
        &mut self,
        id: i32,
        name: String,
        size: i32,
        files: Vec<String>,
        now: i64,
    ) -> (r: Result<Model, StoreError>)
        requires
            store_inv(old(self)@),
        ensures
            store_inv(final(self)@),
            ({
                let pre = old(self)@;
                let fv = files@.map_values(|f: String| f@);
                if has_id(pre.torrents, id as int) {
                    r is Ok && (exists|i: int|
                        0 <= i < pre.torrents.len() && (#[trigger] pre.torrents[i]).id == id as int
                            && final(self)@.torrents == pre.torrents.update(
                            i,
                            with_info(pre.torrents[i], name@, size as int, fv, now as int),
                        ) && r->Ok_0@ == with_info(pre.torrents[i], name@, size as int, fv, now as int))
                        && final(self)@.next_id == pre.next_id && final(self)@.stats
                        == spec_update_stat(
                        spec_update_stat(pre.stats, StatType::QueueInfo, StatAction::Dec, None),
                        StatType::QueueTrackers,
                        StatAction::Inc,
                        None,
                    )
                } else {
                    r is Err && r->Err_0 == StoreError::NotFound && final(self)@ == pre
                }
            }),
    {
        let n = self.torrents.len();
        let mut i: usize = 0;
        while i < n
            invariant
                self@ == old(self)@,
                store_inv(old(self)@),
                n == self@.torrents.len(),
                i <= n,
                forall|j: int| 0 <= j < i ==> (#[trigger] self@.torrents[j]).id != id as int,
            decreases n - i,
        {
            if self.torrents[i].id == id {
                proof {
                    assert(old(self)@.torrents[i as int].id == id as int);
                }
                let old_row = &self.torrents[i];
                let row = Model {
                    id: old_row.id,
                    name: Some(name),
                    info_hash: old_row.info_hash.clone(),
                    size,
                    files,
                    added_at: old_row.added_at,
                    seeders: old_row.seeders,
                    leechers: old_row.leechers,
                    trackers: old_row.trackers.duplicate(),
                    last_scrape: Some(now),
                    last_tracker_scrape: old_row.last_tracker_scrape,
                    last_stale: old_row.last_stale,
                };
                let out = row.duplicate();
                proof {
                    assert(row@ =~= with_info(
                        old(self)@.torrents[i as int],
                        name@,
                        size as int,
                        row.files@.map_values(|f: String| f@),
                        now as int,
                    ));
                }
                self.torrents.set(i, row);
                proof {
                    assert(self@.torrents =~= old(self)@.torrents.update(
                        i as int,
                        with_info(
                            old(self)@.torrents[i as int],
                            name@,
                            size as int,
                            out.files@.map_values(|f: String| f@),
                            now as int,
                        ),
                    ));
                    lemma_update_keeps_rows_wf(
                        old(self)@.torrents,
                        i as int,
                        self@.torrents[i as int],
                        old(self)@.next_id,
                    );
                    assert(store_inv(self@));
                }
                self.update_stat(StatType::QueueInfo, StatAction::Dec, None);
                self.update_stat(StatType::QueueTrackers, StatAction::Inc, None);
                return Ok(out);
            }
            i = i + 1;
        }
        Err(StoreError::NotFound)
    }

    /// Replaces a row's tracker observations with a scrape batch: the swarm
    /// counters copy the first observation with the most seeders, the
    /// tracker-scrape instant is stamped, and the stale marker is advanced
    /// by the state machine. Fails when the id is absent.
    pub fn update_torrent_trackers(
        &mut self,
        id: i32,
        trackers: Vec<Tracker>,
        now: i64,
    ) -> (r: Result<Model, StoreError>)
        requires
            store_inv(old(self)@),
            trackers@.len() > 0,
        ensures
            store_inv(final(self)@),
            ({
                let pre = old(self)@;
                let tv = tracker_views(trackers@);
                if has_id(pre.torrents, id as int) {
                    r is Ok && (exists|i: int, b: int|
                        #![trigger pre.torrents[i], with_trackers(pre.torrents[i], tv, b, now as int)]
                        0 <= i < pre.torrents.len() && pre.torrents[i].id == id as int
                            && is_best_observation(tv, b) && final(self)@.torrents
                            == pre.torrents.update(i, with_trackers(pre.torrents[i], tv, b, now as int))
                            && r->Ok_0@ == with_trackers(pre.torrents[i], tv, b, now as int))
                        && final(self)@.next_id == pre.next_id && final(self)@.stats
                        == spec_update_stat(pre.stats, StatType::QueueTrackers, StatAction::Dec, None)
                } else {
                    r is Err && r->Err_0 == StoreError::NotFound && final(self)@ == pre
                }
            }),
    {
        let n = self.torrents.len();
        let mut i: usize = 0;
        while i < n
            invariant
                self@ == old(self)@,
                store_inv(old(self)@),
                n == self@.torrents.len(),
                i <= n,
                trackers@.len() > 0,
                forall|j: int| 0 <= j < i ==> (#[trigger] self@.torrents[j]).id != id as int,
            decreases n - i,
        {
            if self.torrents[i].id == id {
                proof {
                    assert(old(self)@.torrents[i as int].id == id as int);
                }
                let b = best_tracker_index(&trackers);
                proof {
                    assert(is_best_observation(tracker_views(trackers@), b as int));
                }
                let old_row = &self.torrents[i];
                let new_stale = next_last_stale(
                    old_row.last_stale,
                    trackers[b].seeders,
                    trackers[b].leechers,
                    now,
                );
                let row = Model {
                    id: old_row.id,
                    name: match &old_row.name {
                        Some(nm) => Some(nm.clone()),
                        None => None,
                    },
                    info_hash: old_row.info_hash.clone(),
                    size: old_row.size,
                    files: crate::torrent::duplicate_strings(&old_row.files),
                    added_at: old_row.added_at,
                    seeders: trackers[b].seeders,
                    leechers: trackers[b].leechers,
                    trackers: Trackers(trackers),
                    last_scrape: old_row.last_scrape,
                    last_tracker_scrape: Some(now),
                    last_stale: new_stale,
                };
                let out = row.duplicate();
                proof {
                    assert(row@ =~= with_trackers(
                        old(self)@.torrents[i as int],
                        tracker_views(row.trackers.0@),
                        b as int,
                        now as int,
                    ));
                }
                self.torrents.set(i, row);
                proof {
                    assert(self@.torrents =~= old(self)@.torrents.update(
                        i as int,
                        with_trackers(
                            old(self)@.torrents[i as int],
                            tracker_views(out.trackers.0@),
                            b as int,
                            now as int,
                        ),
                    ));
                    lemma_update_keeps_rows_wf(
                        old(self)@.torrents,
                        i as int,
                        self@.torrents[i as int],
                        old(self)@.next_id,
                    );
                    assert(store_inv(self@));
                }
                self.update_stat(StatType::QueueTrackers, StatAction::Dec, None);
                return Ok(out);
            }
            i = i + 1;
        }
        Err(StoreError::NotFound)
    }

    /// Stamps `last_stale = now` on every dead swarm not yet marked, and
    /// raises the stale counter by the number of rows marked.
    pub fn mark_stale(&mut self, now: i64)
        requires
            store_inv(old(self)@),
        ensures
            store_inv(final(self)@),
            final(self)@.next_id == old(self)@.next_id,
            final(self)@.torrents.len() == old(self)@.torrents.len(),
            forall|i: int|
                0 <= i < old(self)@.torrents.len() ==> final(self)@.torrents[i] == mark_one(
                    #[trigger] old(self)@.torrents[i],
                    now as int,
                ),
            final(self)@.stats == spec_update_stat(
                old(self)@.stats,
                StatType::Stale,
                StatAction::Inc,
                Some(old(self)@.torrents.filter(|t: ModelV| stale_candidate(t)).len() as u64),
            ),
    {
        let n = self.torrents.len();
        let mut i: usize = 0;
        let mut count: u64 = 0;
        while i < n
            invariant
                store_inv(self@),
                self@.next_id == old(self)@.next_id,
                self@.stats == old(self)@.stats,
                n == self@.torrents.len(),
                old(self)@.torrents.len() == n,
                i <= n,
                forall|j: int|
                    i <= j < n ==> #[trigger] self@.torrents[j] == old(self)@.torrents[j],
                forall|j: int|
                    0 <= j < i ==> #[trigger] self@.torrents[j] == mark_one(
                        old(self)@.torrents[j],
                        now as int,
                    ),
                count as int == old(self)@.torrents.subrange(0, i as int).filter(
                    |t: ModelV| stale_candidate(t),
                ).len(),
            decreases n - i,
        {
            proof {
                assert(old(self)@.torrents.subrange(0, i as int + 1) =~= old(
                    self,
                )@.torrents.subrange(0, i as int).push(old(self)@.torrents[i as int]));
                crate::text::lemma_filter_push_gen(
                    old(self)@.torrents.subrange(0, i as int),
                    |t: ModelV| stale_candidate(t),
                    old(self)@.torrents[i as int],
                );
                old(self)@.torrents.subrange(0, i as int).lemma_filter_len(
                    |t: ModelV| stale_candidate(t),
                );
            }
            proof {
                assert(self@.torrents[i as int] == old(self)@.torrents[i as int]);
            }
            let needs_mark = self.torrents[i].last_stale.is_none() && self.torrents[i].seeders == 0
                && self.torrents[i].leechers == 0;
            if needs_mark {
                let old_row = &self.torrents[i];
                let row = Model {
                    id: old_row.id,
                    name: match &old_row.name {
                        Some(nm) => Some(nm.clone()),
                        None => None,
                    },
                    info_hash: old_row.info_hash.clone(),
                    size: old_row.size,
                    files: crate::torrent::duplicate_strings(&old_row.files),
                    added_at: old_row.added_at,
                    seeders: old_row.seeders,
                    leechers: old_row.leechers,
                    trackers: old_row.trackers.duplicate(),
                    last_scrape: old_row.last_scrape,
                    last_tracker_scrape: old_row.last_tracker_scrape,
                    last_stale: Some(now),
                };
                proof {
                    assert(stale_candidate(old(self)@.torrents[i as int]));
                    assert(row@ =~= mark_one(old(self)@.torrents[i as int], now as int));
                    lemma_update_keeps_rows_wf(self@.torrents, i as int, row@, self@.next_id);
                }
                let ghost snap = self@.torrents;
                let ghost rowv = row@;
                self.torrents.set(i, row);
                proof {
                    assert(self@.torrents =~= snap.update(i as int, rowv));
                }
                count = count + 1;
            }
            i = i + 1;
        }
        proof {
            assert(old(self)@.torrents.subrange(0, n as int) =~= old(self)@.torrents);
        }
        self.update_stat(StatType::Stale, StatAction::Inc, Some(count));
    }

    /// Deletes every row whose stale run started more than the deletion
    /// window ago, lowering the total and stale counters by the number of
    /// rows deleted.
    pub fn delete_stale(&mut self, now: i64)
        requires
            store_inv(old(self)@),
        ensures
            store_inv(final(self)@),
            final(self)@.next_id == old(self)@.next_id,
            final(self)@.torrents == kept_after_stale(old(self)@.torrents, now as int),
            ({
                let deleted = (old(self)@.torrents.len() - final(self)@.torrents.len()) as u64;
                final(self)@.stats == spec_update_stat(
                    spec_update_stat(
                        old(self)@.stats,
                        StatType::TotalTorrents,
                        StatAction::Dec,
                        Some(deleted),
                    ),
                    StatType::Stale,
                    StatAction::Dec,
                    Some(deleted),
                )
            }),
    {
        let n = self.torrents.len();
        let mut out: Vec<Model> = Vec::new();
        let mut i: usize = 0;
        while i < n
            invariant
                self@ == old(self)@,
                store_inv(self@),
                n == self@.torrents.len(),
                i <= n,
                views_of(out@) == self@.torrents.subrange(0, i as int).filter(
                    |t: ModelV| !stale_expired(t, now as int),
                ),
                forall|a: int|
                    0 <= a < out@.len() ==> exists|j: int|
                        0 <= j < i && (#[trigger] out@[a])@ == self@.torrents[j],
            decreases n - i,
        {
            proof {
                assert(self@.torrents.subrange(0, i as int + 1) =~= self@.torrents.subrange(
                    0,
                    i as int,
                ).push(self@.torrents[i as int]));
                crate::text::lemma_filter_push_gen(
                    self@.torrents.subrange(0, i as int),
                    |t: ModelV| !stale_expired(t, now as int),
                    self@.torrents[i as int],
                );
            }
            let keep = match self.torrents[i].last_stale {
                Some(t) => !((t as i128) < (now as i128) - (STALE_DELETE_SECS as i128)),
                None => true,
            };
            if keep {
                let m = self.torrents[i].duplicate();
                proof {
                    assert(m@ == self@.torrents[i as int]);
                    assert(!stale_expired(m@, now as int));
                }
                out.push(m);
                proof {
                    assert(views_of(out@) =~= self@.torrents.subrange(0, i as int + 1).filter(
                        |t: ModelV| !stale_expired(t, now as int),
                    ));
                }
            } else {
                proof {
                    assert(stale_expired(self@.torrents[i as int], now as int));
                }
            }
            i = i + 1;
        }
        proof {
            assert(self@.torrents.subrange(0, n as int) =~= self@.torrents);
            old(self)@.torrents.lemma_filter_len(|t: ModelV| !stale_expired(t, now as int));
        }
        let deleted = (n - out.len()) as u64;
        proof {
            lemma_filter_rows_wf(
                old(self)@.torrents,
                |t: ModelV| !stale_expired(t, now as int),
                old(self)@.next_id,
            );
        }
        self.torrents = out;
        proof {
            assert(self@.torrents =~= kept_after_stale(old(self)@.torrents, now as int));
            assert(store_inv(self@));
        }
        self.update_stat(StatType::TotalTorrents, StatAction::Dec, Some(deleted));
        self.update_stat(StatType::Stale, StatAction::Dec, Some(deleted));
    }

    /// Deletes every row whose id is listed, lowering the total count by
    /// the number of rows deleted.
    pub fn delete_torrents(&mut self, ids: Vec<i32>)
        requires
            store_inv(old(self)@),
        ensures
            store_inv(final(self)@),
            final(self)@.next_id == old(self)@.next_id,
            final(self)@.torrents == kept_after_delete(old(self)@.torrents, ids@),
            final(self)@.stats == spec_update_stat(
                old(self)@.stats,
                StatType::TotalTorrents,
                StatAction::Dec,
                Some((old(self)@.torrents.len() - final(self)@.torrents.len()) as u64),
            ),
    {
        let n = self.torrents.len();
        let mut out: Vec<Model> = Vec::new();
        let mut i: usize = 0;
        while i < n
            invariant
                self@ == old(self)@,
                store_inv(self@),
                n == self@.torrents.len(),
                i <= n,
                views_of(out@) == self@.torrents.subrange(0, i as int).filter(
                    |t: ModelV| !id_in(ids@, t.id),
                ),
                forall|a: int|
                    0 <= a < out@.len() ==> exists|j: int|
                        0 <= j < i && (#[trigger] out@[a])@ == self@.torrents[j],
            decreases n - i,
        {
            proof {
                assert(self@.torrents.subrange(0, i as int + 1) =~= self@.torrents.subrange(
                    0,
                    i as int,
                ).push(self@.torrents[i as int]));
                crate::text::lemma_filter_push_gen(
                    self@.torrents.subrange(0, i as int),
                    |t: ModelV| !id_in(ids@, t.id),
                    self@.torrents[i as int],
                );
            }
            let listed = contains_id(&ids, self.torrents[i].id);
            if !listed {
                let m = self.torrents[i].duplicate();
                proof {
                    assert(m@ == self@.torrents[i as int]);
                }
                out.push(m);
                proof {
                    assert(views_of(out@) =~= self@.torrents.subrange(0, i as int + 1).filter(
                        |t: ModelV| !id_in(ids@, t.id),
                    ));
                }
            }
            i = i + 1;
        }
        proof {
            assert(self@.torrents.subrange(0, n as int) =~= self@.torrents);
            old(self)@.torrents.lemma_filter_len(|t: ModelV| !id_in(ids@, t.id));
        }
        let deleted = (n - out.len()) as u64;
        proof {
            lemma_filter_rows_wf(
                old(self)@.torrents,
                |t: ModelV| !id_in(ids@, t.id),
                old(self)@.next_id,
            );
        }
        self.torrents = out;
        proof {
            assert(self@.torrents =~= kept_after_delete(old(self)@.torrents, ids@));
            assert(store_inv(self@));
        }
        self.update_stat(StatType::TotalTorrents, StatAction::Dec, Some(deleted));
    }

    /// Bulk insert of fresh rows with consecutive ids; all hashes are
    /// stored uppercase. The whole batch is refused — and the store left
    /// unchanged — when any hash is already present or repeated within the
    /// batch, or when the id space cannot hold it.
    pub fn create_torrents(&mut self, info_hashes: Vec<String>, now: i64) -> (r: Result<
        (),
        StoreError,
    >)
        requires
            store_inv(old(self)@),
        ensures
            store_inv(final(self)@),
            ({
                let hs = info_hashes@.map_values(|h: String| upper_seq(h@));
                let pre = old(self)@;
                if (exists|a: int| 0 <= a < hs.len() && has_hash(pre.torrents, #[trigger] hs[a]))
                    || (exists|a: int, b: int|
                    0 <= a < b < hs.len() && #[trigger] hs[a] == #[trigger] hs[b]) {
                    r is Err && r->Err_0 == StoreError::Duplicate && final(self)@ == pre
                } else if pre.next_id + hs.len() > i32::MAX as int {
                    r is Err && r->Err_0 == StoreError::Full && final(self)@ == pre
                } else {
                    r is Ok && final(self)@.torrents == pre.torrents + fresh_rows(
                        hs,
                        pre.next_id,
                        now as int,
                    ) && final(self)@.next_id == pre.next_id + hs.len() && final(self)@.stats
                        == spec_update_stat(
                        spec_update_stat(
                            pre.stats,
                            StatType::TotalTorrents,
                            StatAction::Inc,
                            Some(hs.len() as u64),
                        ),
                        StatType::QueueInfo,
                        StatAction::Inc,
                        Some(hs.len() as u64),
                    )
                }
            }),
    {
        let n = info_hashes.len();
        let mut uppers: Vec<String> = Vec::new();
        let mut a: usize = 0;
        while a < n
            invariant
                n == info_hashes@.len(),
                a <= n,
                uppers@.len() == a,
                forall|k: int|
                    0 <= k < a ==> (#[trigger] uppers@[k])@ == upper_seq(info_hashes@[k]@),
            decreases n - a,
        {
            uppers.push(to_upper(info_hashes[a].as_str()));
            a = a + 1;
        }
        let ghost hs = info_hashes@.map_values(|h: String| upper_seq(h@));
        let mut a: usize = 0;
        while a < n
            invariant
                store_inv(old(self)@),
                self@ == old(self)@,
                n == info_hashes@.len(),
                a <= n,
                uppers@.len() == n,
                hs == info_hashes@.map_values(|h: String| upper_seq(h@)),
                forall|k: int| 0 <= k < n ==> (#[trigger] uppers@[k])@ == hs[k],
                forall|k: int| 0 <= k < a ==> !has_hash(self@.torrents, #[trigger] hs[k]),
                forall|k: int, l: int| 0 <= k < l < n && l < a || 0 <= k < a && k < l < n ==>
                    #[trigger] hs[k] != #[trigger] hs[l],
            decreases n - a,
        {
            if self.exists_torrent_by_info_hash(uppers[a].as_str()) {
                proof {
                    lemma_upper_idempotent(info_hashes@[a as int]@);
                    assert(has_hash(old(self)@.torrents, hs[a as int]));
                }
                return Err(StoreError::Duplicate);
            }
            proof {
                lemma_upper_idempotent(info_hashes@[a as int]@);
            }
            let mut b: usize = a + 1;
            while b < n
                invariant
                    store_inv(old(self)@),
                    self@ == old(self)@,
                    n == info_hashes@.len(),
                    hs == info_hashes@.map_values(|h: String| upper_seq(h@)),
                    hs.len() == n,
                    a < n,
                    a + 1 <= b <= n,
                    uppers@.len() == n,
                    forall|k: int| 0 <= k < n ==> (#[trigger] uppers@[k])@ == hs[k],
                    forall|l: int| a < l < b ==> hs[a as int] != #[trigger] hs[l],
                decreases n - b,
            {
                if uppers[a] == uppers[b] {
                    proof {
                        assert(hs[a as int] == hs[b as int]);
                    }
                    return Err(StoreError::Duplicate);
                }
                b = b + 1;
            }
            a = a + 1;
        }
        if self.next_id < i32::MAX {
            let room = i32::MAX - self.next_id;
            if (n as u64) > (room as u64) {
                return Err(StoreError::Full);
            }
        } else {
            if n > 0 {
                return Err(StoreError::Full);
            }
        }
        let ghost pre = self@;
        let id0 = self.next_id;
        let mut k: usize = 0;
        while k < n
            invariant
                store_inv(self@),
                store_inv(pre),
                pre.torrents == old(self)@.torrents,
                pre.stats == self@.stats,
                n == info_hashes@.len(),
                k <= n,
                uppers@.len() == n,
                hs.len() == n,
                forall|j: int| 0 <= j < n ==> (#[trigger] uppers@[j])@ == hs[j],
                forall|j: int| 0 <= j < n ==> !has_hash(pre.torrents, #[trigger] hs[j]),
                forall|j: int, l: int| 0 <= j < l < n ==> #[trigger] hs[j] != #[trigger] hs[l],
                forall|j: int| 0 <= j < n ==> #[trigger] hs[j] == upper_seq(hs[j]),
                id0 as int == pre.next_id,
                pre.next_id + n <= i32::MAX as int,
                self@.next_id == pre.next_id + k,
                self@.torrents.len() == pre.torrents.len() + k,
                forall|j: int|
                    0 <= j < pre.torrents.len() ==> #[trigger] self@.torrents[j]
                        == pre.torrents[j],
                forall|j: int|
                    0 <= j < k ==> #[trigger] self@.torrents[pre.torrents.len() + j] == fresh_row(
                        hs[j],
                        pre.next_id + j,
                        now as int,
                    ),
            decreases n - k,
        {
            let id = self.next_id;
            let row = Model {
                id,
                name: None,
                info_hash: uppers[k].clone(),
                size: 0,
                files: Vec::new(),
                added_at: now,
                seeders: 0,
                leechers: 0,
                trackers: Trackers(Vec::new()),
                last_scrape: None,
                last_tracker_scrape: None,
                last_stale: None,
            };
            proof {
                assert(row@ =~= fresh_row(hs[k as int], pre.next_id + k, now as int));
                lemma_views_push(self.torrents@, row);
            }
            let ghost prev = self@.torrents;
            let ghost rowv = row@;
            self.next_id = id + 1;
            self.torrents.push(row);
            k = k + 1;
            proof {
                assert(self@.torrents == prev.push(rowv));
            }
            proof {
                assert forall|x: int, y: int|
                    0 <= x < y < self@.torrents.len() implies #[trigger] self@.torrents[x].id
                    < #[trigger] self@.torrents[y].id by {
                    let m = pre.torrents.len() as int;
                    if y >= m {
                        let jy = y - m;
                        assert(self@.torrents[m + jy] == fresh_row(
                            hs[jy],
                            pre.next_id + jy,
                            now as int,
                        ));
                        if x >= m {
                            let jxv = x - m;
                            assert(self@.torrents[m + jxv] == fresh_row(
                                hs[jxv],
                                pre.next_id + jxv,
                                now as int,
                            ));
                        } else {
                            assert(self@.torrents[x] == pre.torrents[x]);
                        }
                    }
                }
                assert forall|x: int, y: int|
                    0 <= x < y < self@.torrents.len() implies #[trigger] self@.torrents[x].info_hash
                    != #[trigger] self@.torrents[y].info_hash by {
                    let m = pre.torrents.len() as int;
                    if y >= m {
                        let jy = y - m;
                        assert(self@.torrents[m + jy] == fresh_row(
                            hs[jy],
                            pre.next_id + jy,
                            now as int,
                        ));
                        if x >= m {
                            let jxv = x - m;
                            assert(self@.torrents[m + jxv] == fresh_row(
                                hs[jxv],
                                pre.next_id + jxv,
                                now as int,
                            ));
                        } else {
                            assert(self@.torrents[x] == pre.torrents[x]);
                            assert(!has_hash(pre.torrents, hs[jy]));
                        }
                    }
                }
                assert forall|x: int|
                    0 <= x < self@.torrents.len() implies 0 < #[trigger] self@.torrents[x].id
                    < self@.next_id by {
                    let m = pre.torrents.len() as int;
                    if x >= m {
                        let jxv = x - m;
                        assert(self@.torrents[m + jxv] == fresh_row(
                            hs[jxv],
                            pre.next_id + jxv,
                            now as int,
                        ));
                    } else {
                        assert(self@.torrents[x] == pre.torrents[x]);
                    }
                }
                assert forall|x: int|
                    0 <= x < self@.torrents.len() implies #[trigger] self@.torrents[x].info_hash
                    == upper_seq(self@.torrents[x].info_hash) by {
                    let m = pre.torrents.len() as int;
                    if x >= m {
                        let jxv = x - m;
                        assert(self@.torrents[m + jxv] == fresh_row(
                            hs[jxv],
                            pre.next_id + jxv,
                            now as int,
                        ));
                    } else {
                        assert(self@.torrents[x] == pre.torrents[x]);
                    }
                }
            }
        }
        proof {
            assert forall|x: int| 0 <= x < self@.torrents.len() implies #[trigger] self@.torrents[x]
                == (pre.torrents + fresh_rows(hs, pre.next_id, now as int))[x] by {
                let m = pre.torrents.len() as int;
                if x >= m {
                    let jxv = x - m;
                    assert(self@.torrents[m + jxv] == fresh_row(
                        hs[jxv],
                        pre.next_id + jxv,
                        now as int,
                    ));
                }
            }
            assert(self@.torrents =~= pre.torrents + fresh_rows(hs, pre.next_id, now as int));
        }
        let count = n as u64;
        self.update_stat(StatType::TotalTorrents, StatAction::Inc, Some(count));
        self.update_stat(StatType::QueueInfo, StatAction::Inc, Some(count));
        Ok(())
    }

    /// The first fifty rows awaiting metadata resolution, skipping ids
    /// already in flight.
    pub fn find_torrent_queue_info(&self, ignore: Option<Vec<i32>>) -> (r: Vec<Model>)
        ensures
            views_of(r@) == take_at_most(queue_info_rows(self@.torrents, ig_seq(ignore)), 50),
    {
        let ig = match ignore {
            Some(v) => v,
            None => Vec::new(),
        };
        let ghost igs = ig@;
        let n = self.torrents.len();
        let mut out: Vec<Model> = Vec::new();
        let mut i: usize = 0;
        while i < n && out.len() < 50
            invariant
                igs == ig@,
                n == self@.torrents.len(),
                i <= n,
                out@.len() <= 50,
                views_of(out@) == queue_info_rows(self@.torrents.subrange(0, i as int), igs),
            decreases n - i,
        {
            proof {
                assert(self@.torrents.subrange(0, i as int + 1) =~= self@.torrents.subrange(
                    0,
                    i as int,
                ).push(self@.torrents[i as int]));
                crate::text::lemma_filter_push_gen(
                    self@.torrents.subrange(0, i as int),
                    |t: ModelV| queue_info_pred(t, igs),
                    self@.torrents[i as int],
                );
            }
            let selected = self.torrents[i].last_scrape.is_none() && !contains_id(
                &ig,
                self.torrents[i].id,
            );
            if selected {
                let m = self.torrents[i].duplicate();
                proof {
                    assert(m@ == self@.torrents[i as int]);
                    lemma_views_push(out@, m);
                }
                out.push(m);
                proof {
                    assert(views_of(out@) =~= queue_info_rows(
                        self@.torrents.subrange(0, i as int + 1),
                        igs,
                    ));
                }
            }
            i = i + 1;
        }
        proof {
            if i == n {
                assert(self@.torrents.subrange(0, n as int) =~= self@.torrents);
                self@.torrents.lemma_filter_len(|t: ModelV| queue_info_pred(t, igs));
            } else {
                assert(out@.len() == 50);
                assert(self@.torrents =~= self@.torrents.subrange(0, i as int)
                    + self@.torrents.subrange(i as int, n as int));
                Seq::filter_distributes_over_add(
                    self@.torrents.subrange(0, i as int),
                    self@.torrents.subrange(i as int, n as int),
                    |t: ModelV| queue_info_pred(t, igs),
                );
                assert(views_of(out@) =~= take_at_most(
                    queue_info_rows(self@.torrents, igs),
                    50,
                ));
            }
        }
        out
    }

    /// The fifty rows most overdue for a tracker scrape: resolved rows
    /// never tracker-scraped or tracker-scraped too long ago, ids in flight
    /// skipped, ordered by last tracker scrape with absent instants first.
    pub fn find_torrent_queue_trackers(&self, ignore: Option<Vec<i32>>, now: i64) -> (r: Vec<
        Model,
    >)
        ensures
            views_of(r@) == take_at_most(
                sort_lts(queue_trackers_rows(self@.torrents, ig_seq(ignore), now as int)),
                50,
            ),
    {
        let ig = match ignore {
            Some(v) => v,
            None => Vec::new(),
        };
        let ghost igs = ig@;
        let n = self.torrents.len();
        let mut matched: Vec<Model> = Vec::new();
        let mut i: usize = 0;
        while i < n
            invariant
                igs == ig@,
                n == self@.torrents.len(),
                i <= n,
                views_of(matched@) == queue_trackers_rows(
                    self@.torrents.subrange(0, i as int),
                    igs,
                    now as int,
                ),
            decreases n - i,
        {
            proof {
                assert(self@.torrents.subrange(0, i as int + 1) =~= self@.torrents.subrange(
                    0,
                    i as int,
                ).push(self@.torrents[i as int]));
                crate::text::lemma_filter_push_gen(
                    self@.torrents.subrange(0, i as int),
                    |t: ModelV| queue_trackers_pred(t, igs, now as int),
                    self@.torrents[i as int],
                );
            }
            let overdue = match self.torrents[i].last_tracker_scrape {
                Some(t) => (t as i128) < (now as i128) - (TRACKER_REFRESH_SECS as i128),
                None => true,
            };
            let selected = self.torrents[i].last_scrape.is_some() && overdue && !contains_id(
                &ig,
                self.torrents[i].id,
            );
            if selected {
                let m = self.torrents[i].duplicate();
                proof {
                    assert(m@ == self@.torrents[i as int]);
                    lemma_views_push(matched@, m);
                }
                matched.push(m);
                proof {
                    assert(views_of(matched@) =~= queue_trackers_rows(
                        self@.torrents.subrange(0, i as int + 1),
                        igs,
                        now as int,
                    ));
                }
            }
            i = i + 1;
        }
        proof {
            assert(self@.torrents.subrange(0, n as int) =~= self@.torrents);
        }
        let ghost rows = queue_trackers_rows(self@.torrents, igs, now as int);
        let mut sorted: Vec<Model> = Vec::new();
        let mut k: usize = 0;
        while k < matched.len()
            invariant
                views_of(matched@) == rows,
                k <= matched@.len(),
                views_of(sorted@) == sort_lts(rows.subrange(0, k as int)),
            decreases matched@.len() - k,
        {
            let x = matched[k].duplicate();
            proof {
                assert(x@ == rows[k as int]);
            }
            let mut j: usize = 0;
            while j < sorted.len() && !lts_before(&x, &sorted[j])
                invariant
                    j <= sorted@.len(),
                    views_of(sorted@) == sort_lts(rows.subrange(0, k as int)),
                    forall|l: int|
                        0 <= l < j ==> !lts_lt(x@, (#[trigger] sorted@[l])@),
                decreases sorted@.len() - j,
            {
                j = j + 1;
            }
            proof {
                let sv = views_of(sorted@);
                assert forall|l: int| 0 <= l < j implies !lts_lt(x@, #[trigger] sv[l]) by {
                    assert(sv[l] == (sorted@[l])@);
                }
                if j < sorted@.len() {
                    assert(lts_lt(x@, sv[j as int]));
                }
                lemma_insert_lts_at(sv, x@, j as int);
                assert(rows.subrange(0, k as int + 1).drop_last() =~= rows.subrange(0, k as int));
                lemma_views_insert(sorted@, j as int, x);
            }
            sorted.insert(j, x);
            k = k + 1;
            proof {
                assert(views_of(sorted@) =~= sort_lts(rows.subrange(0, k as int)));
            }
        }
        proof {
            assert(rows.subrange(0, matched@.len() as int) =~= rows);
        }
        let limit = if sorted.len() < 50 {
            sorted.len()
        } else {
            50
        };
        let mut out: Vec<Model> = Vec::new();
        let mut k: usize = 0;
        while k < limit
            invariant
                limit <= sorted@.len(),
                k <= limit,
                views_of(sorted@) == sort_lts(rows),
                out@.len() == k,
                forall|l: int| 0 <= l < k ==> (#[trigger] out@[l])@ == sort_lts(rows)[l],
            decreases limit - k,
        {
            let m = sorted[k].duplicate();
            out.push(m);
            k = k + 1;
        }
        proof {
            assert(views_of(out@) =~= take_at_most(sort_lts(rows), 50));
        }
        out
    }

    /// One page of the table in id order, together with the number of
    /// pages. Pages are counted from one.
    pub fn find_torrents_in_page(&self, page: u64, torrents_per_page: u64) -> (r: (Vec<Model>, u64))
        requires
            page >= 1,
            torrents_per_page >= 1,
        ensures
            ({
                let ts = self@.torrents;
                let pp = torrents_per_page as int;
                let lo0 = (page as int - 1) * pp;
                let lo = if lo0 <= ts.len() { lo0 } else { ts.len() as int };
                let hi = if lo0 + pp <= ts.len() { lo0 + pp } else { ts.len() as int };
                views_of(r.0@) == ts.subrange(lo, if hi >= lo { hi } else { lo }) && r.1 as int
                    == (ts.len() + pp - 1) / pp
            }),
    {
        let n = self.torrents.len();
        let ghost pp = torrents_per_page as int;
        let ghost lo0 = (page as int - 1) * pp;
        let ghost lo: int = if lo0 <= n as int { lo0 } else { n as int };
        let ghost hi: int = if lo0 + pp <= n as int { lo0 + pp } else { n as int };
        proof {
            vstd::arithmetic::mul::lemma_mul_upper_bound(
                page as int - 1,
                u64::MAX as int,
                pp,
                u64::MAX as int,
            );
            assert(lo <= hi);
        }
        let start: u128 = (page as u128 - 1) * (torrents_per_page as u128);
        let stop: u128 = start + (torrents_per_page as u128);
        let mut out: Vec<Model> = Vec::new();
        let mut i: usize = 0;
        while i < n
            invariant
                n == self@.torrents.len(),
                i <= n,
                pp == torrents_per_page as int,
                pp >= 1,
                lo0 == (page as int - 1) * pp,
                start as int == lo0,
                stop as int == lo0 + pp,
                lo == (if lo0 <= n as int { lo0 } else { n as int }),
                hi == (if lo0 + pp <= n as int { lo0 + pp } else { n as int }),
                0 <= lo <= hi <= n,
                out@.len() == (if hi <= i as int { hi } else if lo <= i as int { i as int } else { lo }) - lo,
                forall|l: int|
                    0 <= l < out@.len() ==> (#[trigger] out@[l])@ == self@.torrents[lo + l],
            decreases n - i,
        {
            if (i as u128) >= start && (i as u128) < stop {
                let m = self.torrents[i].duplicate();
                proof {
                    assert(m@ == self@.torrents[i as int]);
                }
                out.push(m);
            }
            i = i + 1;
        }
        let num_pages: u64 = if n == 0 {
            0
        } else {
            (n as u64 - 1) / torrents_per_page + 1
        };
        proof {
            assert(views_of(out@) =~= self@.torrents.subrange(lo, hi));
            if n > 0 {
                vstd::arithmetic::div_mod::lemma_div_plus_one(n as int - 1, pp);
                assert(n as int + pp - 1 == pp + (n as int - 1));
            } else {
                vstd::arithmetic::div_mod::lemma_basic_div_specific_divisor(pp);
                assert((pp - 1) / pp == 0);
            }
        }
        (out, num_pages)
    }

    /// Case-insensitive name search. The query compiles to a LIKE pattern;
    /// rows without a resolved name never match. `offset` defaults to zero
    /// and `limit` to one hundred.
    pub fn search_torrents_by_name(
        &self,
        name: Option<String>,
        offset: Option<u64>,
        limit: Option<u64>,
    ) -> (r: Vec<Model>)
        ensures
            ({
                let q = match name {
                    Some(n) => n@,
                    None => Seq::<char>::empty(),
                };
                let off = match offset {
                    Some(o) => o as int,
                    None => 0int,
                };
                let lim = match limit {
                    Some(l) => l as int,
                    None => 100int,
                };
                views_of(r@) == slice_page(
                    search_rows(self@.torrents, search_pattern(q)),
                    off,
                    lim,
                )
            }),
    {
        let q: String = match name {
            Some(n) => n,
            None => String::new(),
        };
        let off: u64 = match offset {
            Some(o) => o,
            None => 0,
        };
        let lim: u64 = match limit {
            Some(l) => l,
            None => 100,
        };
        proof {
            assert(q@ =~= (match name {
                Some(n) => n@,
                None => Seq::<char>::empty(),
            }));
        }
        let pattern = build_search_pattern(q.as_str());
        let ghost pat = search_pattern(q@);
        let n = self.torrents.len();
        let mut out: Vec<Model> = Vec::new();
        let mut cnt: u64 = 0;
        let mut i: usize = 0;
        while i < n
            invariant
                pattern@ == pat,
                n == self@.torrents.len(),
                i <= n,
                cnt as int == search_rows(self@.torrents.subrange(0, i as int), pat).len(),
                cnt <= i,
                out@.len() == (if off as int + lim as int <= cnt as int {
                    off as int + lim as int
                } else {
                    cnt as int
                }) - (if off as int <= cnt as int {
                    off as int
                } else {
                    cnt as int
                }),
                forall|l: int|
                    0 <= l < out@.len() ==> (#[trigger] out@[l])@ == search_rows(
                        self@.torrents.subrange(0, i as int),
                        pat,
                    )[off as int + l],
            decreases n - i,
        {
            proof {
                assert(self@.torrents.subrange(0, i as int + 1) =~= self@.torrents.subrange(
                    0,
                    i as int,
                ).push(self@.torrents[i as int]));
                crate::text::lemma_filter_push_gen(
                    self@.torrents.subrange(0, i as int),
                    |t: ModelV| search_matched(t, pat),
                    self@.torrents[i as int],
                );
            }
            let matched = match &self.torrents[i].name {
                Some(nm) => {
                    let lowered = to_lower(nm.as_str());
                    like_matches(pattern.as_str(), lowered.as_str())
                },
                None => false,
            };
            if matched {
                if cnt >= off && (out.len() as u64) < lim {
                    let m = self.torrents[i].duplicate();
                    proof {
                        assert(m@ == self@.torrents[i as int]);
                    }
                    out.push(m);
                }
                cnt = cnt + 1;
            }
            i = i + 1;
        }
        proof {
            assert(self@.torrents.subrange(0, n as int) =~= self@.torrents);
            let rows = search_rows(self@.torrents, pat);
            let off_i = off as int;
            let lim_i = lim as int;
            let lo = if off_i <= rows.len() { off_i } else { rows.len() as int };
            let hi = if off_i + lim_i <= rows.len() { off_i + lim_i } else { rows.len() as int };
            assert forall|l: int| 0 <= l < out@.len() implies views_of(out@)[l] == slice_page(
                rows,
                off_i,
                lim_i,
            )[l] by {
                assert(out@[l]@ == rows[off_i + l]);
            }
            assert(views_of(out@) =~= slice_page(rows, off_i, lim_i));
        }
        out
    }

    /// The ground-truth counters, recomputed by scanning the table.
    pub fn get_raw_stats(&self, now: i64) -> (r: OutputStats)
        ensures
            raw_counts_ok(r, self@.torrents, now as int),
    {
        let n = self.torrents.len();
        let mut c_scraped: u64 = 0;
        let mut c_qinfo: u64 = 0;
        let mut c_qtrk: u64 = 0;
        let mut c_stale: u64 = 0;
        let mut i: usize = 0;
        while i < n
            invariant
                n == self@.torrents.len(),
                i <= n,
                c_scraped as int == count_scraped(self@.torrents.subrange(0, i as int)),
                c_qinfo as int == count_queue_info(self@.torrents.subrange(0, i as int)),
                c_qtrk as int == count_queue_trackers(self@.torrents.subrange(0, i as int), now as int),
                c_stale as int == count_stale(self@.torrents.subrange(0, i as int)),
                c_scraped <= i && c_qinfo <= i && c_qtrk <= i && c_stale <= i,
            decreases n - i,
        {
            proof {
                let pre = self@.torrents.subrange(0, i as int);
                let t = self@.torrents[i as int];
                assert(self@.torrents.subrange(0, i as int + 1) =~= pre.push(t));
                crate::text::lemma_filter_push_gen(pre, |t: ModelV| scraped_pred(t), t);
                crate::text::lemma_filter_push_gen(pre, |t: ModelV| t.last_scrape is None, t);
                crate::text::lemma_filter_push_gen(pre, |t: ModelV| queue_trackers_pred(t, Seq::empty(), now as int), t);
                crate::text::lemma_filter_push_gen(pre, |t: ModelV| t.last_stale is Some, t);
            }
            if self.torrents[i].last_scrape.is_some() && self.torrents[i].last_tracker_scrape.is_some() {
                c_scraped = c_scraped + 1;
            }
            if self.torrents[i].last_scrape.is_none() {
                c_qinfo = c_qinfo + 1;
            }
            let overdue = match self.torrents[i].last_tracker_scrape {
                Some(t) => (t as i128) < (now as i128) - (TRACKER_REFRESH_SECS as i128),
                None => true,
            };
            if self.torrents[i].last_scrape.is_some() && overdue {
                proof {
                    assert(!id_in(Seq::empty(), self@.torrents[i as int].id));
                }
                c_qtrk = c_qtrk + 1;
            } else {
                proof {
                    assert(!queue_trackers_pred(self@.torrents[i as int], Seq::empty(), now as int));
                }
            }
            if self.torrents[i].last_stale.is_some() {
                c_stale = c_stale + 1;
            }
            i = i + 1;
        }
        proof {
            assert(self@.torrents.subrange(0, n as int) =~= self@.torrents);
        }
        OutputStats {
            torrents: n as u64,
            scraped: c_scraped,
            stale: c_stale,
            queue: Queue { info: c_qinfo, trackers: c_qtrk },
        }
    }

    /// The counters as reported to callers: the stored rows when they are
    /// fresh, otherwise the ground truth, which is also written back with
    /// `last_updated = now`.
    pub fn get_stats(&mut self, now: i64) -> (r: OutputStats)
        requires
            store_inv(old(self)@),
        ensures
            store_inv(final(self)@),
            final(self)@.torrents == old(self)@.torrents,
            final(self)@.next_id == old(self)@.next_id,
            if stats_need_reindex(old(self)@.stats, now as int) {
                raw_counts_ok(r, old(self)@.torrents, now as int) && final(self)@.stats
                    == reconciled_stats(old(self)@.torrents, now as int)
            } else {
                stored_counts_ok(r, old(self)@.stats) && final(self)@.stats == old(self)@.stats
            },
    {
        let mut reindex = false;
        let mut k: usize = 0;
        while k < 5
            invariant
                store_inv(old(self)@),
                self@ == old(self)@,
                k <= 5,
                reindex == exists|j: int|
                    0 <= j < k && (#[trigger] old(self)@.stats[j]).last_updated < now as int - 120,
            decreases 5 - k,
        {
            let fresh_limit = (now as i128) - 120;
            if (self.stats[k].last_updated as i128) < fresh_limit {
                proof {
                    assert(old(self)@.stats[k as int].last_updated < now as int - 120);
                }
                reindex = true;
            }
            k = k + 1;
        }
        if !reindex {
            return OutputStats {
                torrents: self.stats[0].value,
                scraped: self.stats[1].value,
                stale: self.stats[4].value,
                queue: Queue { info: self.stats[2].value, trackers: self.stats[3].value },
            };
        }
        let raw = self.get_raw_stats(now);
        let mut fresh: Vec<StatModel> = Vec::new();
        fresh.push(StatModel { name: StatType::TotalTorrents, value: raw.torrents, last_updated: now });
        fresh.push(StatModel { name: StatType::ScrapedTorrents, value: raw.scraped, last_updated: now });
        fresh.push(StatModel { name: StatType::QueueInfo, value: raw.queue.info, last_updated: now });
        fresh.push(StatModel { name: StatType::QueueTrackers, value: raw.queue.trackers, last_updated: now });
        fresh.push(StatModel { name: StatType::Stale, value: raw.stale, last_updated: now });
        self.stats = fresh;
        proof {
            assert(self@.stats =~= reconciled_stats(old(self)@.torrents, now as int));
        }
        raw
    }
}

/// Whether `a` must come strictly before `b` in the tracker-scrape queue.
pub fn lts_before(a: &Model, b: &Model) -> (r: bool)
    ensures
        r == lts_lt(a@, b@),
{
    match (a.last_tracker_scrape, b.last_tracker_scrape) {
        (None, Some(_)) => true,
        (None, None) => false,
        (Some(x), Some(y)) => x < y,
        (Some(_), None) => false,
    }
}

/// Whether an id occurs in a list of ids.
pub fn contains_id(ids: &Vec<i32>, id: i32) -> (r: bool)
    ensures
        r == id_in(ids@, id as int),
{
    let n = ids.len();
    let mut k: usize = 0;
    while k < n
        invariant
            n == ids@.len(),
            k <= n,
            forall|j: int| 0 <= j < k ==> (#[trigger] ids@[j]) as int != id as int,
        decreases n - k,
    {
        if ids[k] == id {
            proof {
                assert(ids@[k as int] as int == id as int);
            }
            return true;
        }
        k = k + 1;
    }
    false
}

} // verus!
