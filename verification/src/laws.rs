//! The library's cross-cutting guarantees, stated and proved over the
//! models the public contracts use.

use vstd::prelude::*;
use crate::store::{
    StoreV, has_hash, id_in, queue_info_rows, queue_trackers_rows, sort_lts, take_at_most,
    is_best_observation, queue_info_pred, queue_trackers_pred, resolved_row,
};
use crate::torrent::{ModelV, TrackerV, spec_next_last_stale, size_mb_sum};
use crate::text::{upper_seq, lower_seq, lemma_upper_idempotent, lemma_upper_of_lower};
use crate::trackers::{TimeoutV, spec_should_skip, lookup_timeout};

verus! {

/// Hash normalization: looking a hash up, looking its uppercase form up,
/// and looking its lowercase form up all ask the store the same question,
/// because every lookup uppercases its input.
pub proof fn lemma_lookup_case_insensitive(s: StoreV, h: Seq<char>)
    ensures
        has_hash(s.torrents, upper_seq(upper_seq(h))) == has_hash(s.torrents, upper_seq(h)),
        has_hash(s.torrents, upper_seq(lower_seq(h))) == has_hash(s.torrents, upper_seq(h)),
{
    lemma_upper_idempotent(h);
    lemma_upper_of_lower(h);
}

/// Queue disjointness: the info-resolution queue never returns an id that
/// is already in flight.
pub proof fn lemma_info_queue_disjoint(ts: Seq<ModelV>, ig: Seq<i32>)
    ensures
        forall|k: int|
            0 <= k < take_at_most(queue_info_rows(ts, ig), 50).len() ==> !id_in(
                ig,
                (#[trigger] take_at_most(queue_info_rows(ts, ig), 50)[k]).id,
            ),
{
    let rows = queue_info_rows(ts, ig);
    assert forall|k: int| 0 <= k < take_at_most(rows, 50).len() implies !id_in(
        ig,
        (#[trigger] take_at_most(rows, 50)[k]).id,
    ) by {
        ts.lemma_filter_pred(|t: ModelV| queue_info_pred(t, ig), k);
        assert(take_at_most(rows, 50)[k] == rows[k]);
    }
}

/// Queue disjointness: the tracker-scrape queue never returns an id that
/// is already in flight, through its filter and its sort.
pub proof fn lemma_trackers_queue_disjoint(ts: Seq<ModelV>, ig: Seq<i32>, now: int)
    ensures
        forall|k: int|
            0 <= k < take_at_most(sort_lts(queue_trackers_rows(ts, ig, now)), 50).len() ==> !id_in(
                ig,
                (#[trigger] take_at_most(sort_lts(queue_trackers_rows(ts, ig, now)), 50)[k]).id,
            ),
{
    let rows = queue_trackers_rows(ts, ig, now);
    let pred = |t: ModelV| !id_in(ig, t.id);
    assert forall|j: int| 0 <= j < rows.len() implies pred(#[trigger] rows[j]) by {
        ts.lemma_filter_pred(|t: ModelV| queue_trackers_pred(t, ig, now), j);
    }
    crate::store::lemma_sort_lts_all(rows, pred);
    let sorted = sort_lts(rows);
    assert forall|k: int| 0 <= k < take_at_most(sorted, 50).len() implies !id_in(
        ig,
        (#[trigger] take_at_most(sorted, 50)[k]).id,
    ) by {
        assert(take_at_most(sorted, 50)[k] == sorted[k]);
        assert(pred(sorted[k]));
    }
}

/// The first position with the maximum seeder count is unique: the swarm
/// counters a scrape stores are determined.
pub proof fn lemma_best_observation_unique(tv: Seq<TrackerV>, a: int, b: int)
    requires
        is_best_observation(tv, a),
        is_best_observation(tv, b),
    ensures
        a == b,
{
    if a < b {
        assert(tv[a].seeders < tv[b].seeders);
    }
    if b < a {
        assert(tv[b].seeders < tv[a].seeders);
    }
}

/// The stale state machine over a dead-dead-alive-dead observation run:
/// the first dead observation starts the run, the second leaves it alone,
/// the live one clears it, and the next dead observation starts a fresh
/// run.
pub proof fn lemma_stale_run(t1: i64, t2: i64, t3: i64, t4: i64)
    ensures
        ({
            let s1 = spec_next_last_stale(None, 0, 0, t1);
            let s2 = spec_next_last_stale(s1, 0, 0, t2);
            let s3 = spec_next_last_stale(s2, 1, 0, t3);
            let s4 = spec_next_last_stale(s3, 0, 0, t4);
            s1 == Some(t1) && s2 == Some(t1) && s3 == None::<i64> && s4 == Some(t4)
        }),
{
}

/// Size aggregation: the row a spider record inserts carries exactly the
/// sum over its files of their whole megabytes, together with the ordered
/// paths, the resolved name, the uppercased hash, and the resolution
/// instant.
pub proof fn lemma_spider_row_values(
    h: Seq<char>,
    name: Seq<char>,
    size: int,
    sizes: Seq<i64>,
    paths: Seq<Seq<char>>,
    id: int,
    now: int,
)
    requires
        size == size_mb_sum(sizes),
    ensures
        ({
            let row = resolved_row(upper_seq(h), name, size, paths, id, now);
            row.size == size_mb_sum(sizes) && row.files == paths && row.name == Some(name)
                && row.info_hash == upper_seq(h) && row.last_scrape == Some(now)
        }),
{
}

/// The backoff table after three consecutive failures: the tracker is
/// skipped exactly within thirty seconds of the last attempt.
pub proof fn lemma_backoff_after_three(e: TimeoutV, now: int)
    requires
        e.count == 3,
    ensures
        spec_should_skip(Some(e), now) <==> now - e.last_attempt < 30,
{
}

/// A single success removes the entry entirely, so no later instant is
/// skipped.
pub proof fn lemma_success_clears_backoff(es: Seq<TimeoutV>, uri: Seq<char>, now: int)
    requires
        lookup_timeout(es, uri) is None,
    ensures
        !spec_should_skip(lookup_timeout(es, uri), now),
{
}

} // verus!
