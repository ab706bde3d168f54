//! The scheduler: the shared in-flight set that keeps each torrent in at
//! most one outstanding attempt per pipeline, the per-tick selection of
//! work, the chunking of tracker jobs, and the decisions the two consumer
//! tasks apply to resolver and scrape outcomes.

use vstd::prelude::*;
use crate::store::{
    Store, views_of, take_at_most, queue_info_rows, queue_trackers_rows, sort_lts, id_in,
    STALE_DELETE_SECS,
};
use crate::torrent::{Model, ModelV, Tracker, TrackerV};
use crate::trackers::{TorrentScrapeResponse, TorrentScrapeStats};
use crate::text::upper_seq;

verus! {

/// A torrent older than this without resolved metadata is abandoned.
pub const GIVE_UP_SECS: i64 = 2592000;

/// The coordinator state: the ids currently in flight in either pipeline.
pub struct TorrentService {
    queue: Vec<i32>,
}

impl View for TorrentService {
    type V = Seq<i32>;

    closed spec fn view(&self) -> Seq<i32> {
        self.queue@
    }
}

impl TorrentService {
    /// A service with nothing in flight.
    pub fn new() -> (r: TorrentService)
        ensures
            r@ == Seq::<i32>::empty(),
    {
        TorrentService { queue: Vec::new() }
    }

    /// Whether an id is currently in flight.
    pub fn is_in_flight(&self, id: i32) -> (r: bool)
        ensures
            r == id_in(self@, id as int),
    {
        crate::store::contains_id(&self.queue, id)
    }

    /// Marks an id in flight; an id already present is left alone.
    pub fn insert_in_flight(&mut self, id: i32)
        ensures
            final(self)@ == if id_in(old(self)@, id as int) {
                old(self)@
            } else {
                old(self)@.push(id)
            },
    {
        if !crate::store::contains_id(&self.queue, id) {
            self.queue.push(id);
        }
    }

    /// Removes an id from the in-flight set once its attempt finished.
    pub fn remove_in_flight(&mut self, id: i32)
        ensures
            final(self)@ == old(self)@.filter(|x: i32| x as int != id as int),
    {
        let n = self.queue.len();
        let mut out: Vec<i32> = Vec::new();
        let mut i: usize = 0;
        while i < n
            invariant
                self@ == old(self)@,
                n == self.queue@.len(),
                i <= n,
                out@ == self.queue@.subrange(0, i as int).filter(|x: i32| x as int != id as int),
            decreases n - i,
        {
            proof {
                assert(self.queue@.subrange(0, i as int + 1) =~= self.queue@.subrange(
                    0,
                    i as int,
                ).push(self.queue@[i as int]));
                crate::text::lemma_filter_push_gen(
                    self.queue@.subrange(0, i as int),
                    |x: i32| x as int != id as int,
                    self.queue@[i as int],
                );
            }
            if self.queue[i] != id {
                out.push(self.queue[i]);
            }
            i = i + 1;
        }
        proof {
            assert(self.queue@.subrange(0, n as int) =~= self.queue@);
        }
        self.queue = out;
    }

    /// One tick of the info-resolution producer: selects the first fifty
    /// rows awaiting resolution that are not in flight, and marks each
    /// selected id in flight.
    pub fn produce_info_jobs(&mut self, store: &Store) -> (r: Vec<Model>)
        ensures
            views_of(r@) == take_at_most(queue_info_rows(store@.torrents, old(self)@), 50),
            forall|x: int|
                id_in(final(self)@, x) <==> (id_in(old(self)@, x) || exists|k: int|
                    0 <= k < r@.len() && (#[trigger] views_of(r@)[k]).id == x),
    {
        let ig = copy_ids(&self.queue);
        let jobs = store.find_torrent_queue_info(Some(ig));
        let n = jobs.len();
        let mut k: usize = 0;
        while k < n
            invariant
                n == jobs@.len(),
                k <= n,
                forall|x: int|
                    id_in(self@, x) <==> (id_in(old(self)@, x) || exists|j: int|
                        0 <= j < k && (#[trigger] views_of(jobs@)[j]).id == x),
            decreases n - k,
        {
            let id = jobs[k].id;
            proof {
                assert(views_of(jobs@)[k as int].id == id as int);
            }
            let ghost pre = self@;
            self.insert_in_flight(id);
            proof {
                lemma_id_in_after_insert(pre, self@, id);
                assert forall|x: int|
                    id_in(self@, x) <==> (id_in(old(self)@, x) || exists|j: int|
                        0 <= j < k + 1 && (#[trigger] views_of(jobs@)[j]).id == x) by {
                    if id_in(self@, x) && !id_in(old(self)@, x) {
                        if id_in(pre, x) {
                            let j = choose|j: int|
                                0 <= j < k && (#[trigger] views_of(jobs@)[j]).id == x;
                            assert(views_of(jobs@)[j].id == x);
                        } else {
                            assert(x == id as int);
                            assert(views_of(jobs@)[k as int].id == x);
                        }
                    }
                    if !id_in(old(self)@, x) && (exists|j: int|
                        0 <= j < k + 1 && (#[trigger] views_of(jobs@)[j]).id == x) {
                        let j = choose|j: int|
                            0 <= j < k + 1 && (#[trigger] views_of(jobs@)[j]).id == x;
                        if j < k {
                            assert(id_in(pre, x));
                        } else {
                            assert(x == id as int);
                        }
                    }
                }
            }
            k = k + 1;
        }
        jobs
    }

    /// One tick of the tracker-scrape producer: selects the fifty most
    /// overdue rows not in flight, marks their ids in flight, and hands
    /// them out in chunks of at most ten.
    pub fn produce_tracker_chunks(&mut self, store: &Store, now: i64) -> (r: Vec<Vec<Model>>)
        ensures
            ({
                let rows = take_at_most(
                    sort_lts(queue_trackers_rows(store@.torrents, old(self)@, now as int)),
                    50,
                );
                &&& chunk_views(r@) == chunks_of_10(rows)
                &&& forall|x: int|
                    id_in(final(self)@, x) <==> (id_in(old(self)@, x) || exists|k: int|
                        0 <= k < rows.len() && (#[trigger] rows[k]).id == x)
            }),
    {
        let ig = copy_ids(&self.queue);
        let rows = store.find_torrent_queue_trackers(Some(ig), now);
        let ghost rowsv = views_of(rows@);
        let n = rows.len();
        let mut k: usize = 0;
        while k < n
            invariant
                rowsv == views_of(rows@),
                n == rows@.len(),
                k <= n,
                forall|x: int|
                    id_in(self@, x) <==> (id_in(old(self)@, x) || exists|j: int|
                        0 <= j < k && (#[trigger] rowsv[j]).id == x),
            decreases n - k,
        {
            let id = rows[k].id;
            proof {
                assert(rowsv[k as int].id == id as int);
            }
            let ghost pre = self@;
            self.insert_in_flight(id);
            proof {
                lemma_id_in_after_insert(pre, self@, id);
                assert forall|x: int|
                    id_in(self@, x) <==> (id_in(old(self)@, x) || exists|j: int|
                        0 <= j < k + 1 && (#[trigger] rowsv[j]).id == x) by {
                    if id_in(self@, x) && !id_in(old(self)@, x) {
                        if id_in(pre, x) {
                            let j = choose|j: int| 0 <= j < k && (#[trigger] rowsv[j]).id == x;
                            assert(rowsv[j].id == x);
                        } else {
                            assert(x == id as int);
                            assert(rowsv[k as int].id == x);
                        }
                    }
                    if !id_in(old(self)@, x) && (exists|j: int|
                        0 <= j < k + 1 && (#[trigger] rowsv[j]).id == x) {
                        let j = choose|j: int| 0 <= j < k + 1 && (#[trigger] rowsv[j]).id == x;
                        if j < k {
                            assert(id_in(pre, x));
                        } else {
                            assert(x == id as int);
                        }
                    }
                }
            }
            k = k + 1;
        }
        let r = chunk_rows(&rows, 0);
        proof {
            assert(views_of(rows@).skip(0) =~= views_of(rows@));
        }
        r
    }
}

/// Membership after marking one id in flight.
proof fn lemma_id_in_after_insert(pre: Seq<i32>, post: Seq<i32>, id: i32)
    requires
        post == if id_in(pre, id as int) {
            pre
        } else {
            pre.push(id)
        },
    ensures
        forall|x: int| id_in(post, x) <==> (id_in(pre, x) || x == id as int),
{
    assert forall|x: int| id_in(post, x) implies (id_in(pre, x) || x == id as int) by {
        let w = choose|w: int| 0 <= w < post.len() && (#[trigger] post[w]) as int == x;
        if w < pre.len() {
            assert(pre[w] as int == x);
        }
    }
    assert forall|x: int| (id_in(pre, x) || x == id as int) implies id_in(post, x) by {
        if id_in(pre, x) {
            let w = choose|w: int| 0 <= w < pre.len() && (#[trigger] pre[w]) as int == x;
            assert(post[w] as int == x);
        } else {
            assert(post[post.len() - 1] as int == x);
        }
    }
}

/// A copy of an id list.
fn copy_ids(v: &Vec<i32>) -> (r: Vec<i32>)
    ensures
        r@ == v@,
{
    let mut out: Vec<i32> = Vec::new();
    let mut i: usize = 0;
    while i < v.len()
        invariant
            i <= v@.len(),
            out@ == v@.subrange(0, i as int),
        decreases v@.len() - i,
    {
        out.push(v[i]);
        i = i + 1;
        proof {
            assert(out@ =~= v@.subrange(0, i as int));
        }
    }
    proof {
        assert(out@ =~= v@);
    }
    out
}

pub open spec fn chunk_views(cs: Seq<Vec<Model>>) -> Seq<Seq<ModelV>> {
    cs.map_values(|c: Vec<Model>| views_of(c@))
}

/// The rows cut into chunks of ten, the last chunk possibly shorter.
pub open spec fn chunks_of_10(s: Seq<ModelV>) -> Seq<Seq<ModelV>>
    decreases s.len(),
{
    if s.len() == 0 {
        Seq::empty()
    } else if s.len() <= 10 {
        seq![s]
    } else {
        seq![s.subrange(0, 10)] + chunks_of_10(s.skip(10))
    }
}

fn chunk_rows(rows: &Vec<Model>, i: usize) -> (r: Vec<Vec<Model>>)
    requires
        i <= rows@.len(),
    ensures
        chunk_views(r@) == chunks_of_10(views_of(rows@).skip(i as int)),
    decreases rows@.len() - i,
{
    let n = rows.len();
    if i == n {
        let r: Vec<Vec<Model>> = Vec::new();
        proof {
            assert(views_of(rows@).skip(i as int).len() == 0);
            assert(chunk_views(r@) =~= chunks_of_10(views_of(rows@).skip(i as int)));
        }
        return r;
    }
    if n - i <= 10 {
        let mut chunk: Vec<Model> = Vec::new();
        let mut k: usize = i;
        while k < n
            invariant
                i <= k <= n,
                n == rows@.len(),
                chunk@.len() == k - i,
                forall|l: int|
                    0 <= l < chunk@.len() ==> (#[trigger] chunk@[l])@ == views_of(rows@)[i + l],
            decreases n - k,
        {
            chunk.push(rows[k].duplicate());
            k = k + 1;
        }
        let mut r: Vec<Vec<Model>> = Vec::new();
        r.push(chunk);
        proof {
            assert(views_of(r@[0]@) =~= views_of(rows@).skip(i as int));
            assert(chunk_views(r@) =~= seq![views_of(rows@).skip(i as int)]);
        }
        r
    } else {
        let mut chunk: Vec<Model> = Vec::new();
        let mut k: usize = i;
        while k < i + 10
            invariant
                n == rows@.len(),
                i <= k <= i + 10,
                i + 10 < rows@.len(),
                chunk@.len() == k - i,
                forall|l: int|
                    0 <= l < chunk@.len() ==> (#[trigger] chunk@[l])@ == views_of(rows@)[i + l],
            decreases i + 10 - k,
        {
            chunk.push(rows[k].duplicate());
            k = k + 1;
        }
        let rest = chunk_rows(rows, i + 10);
        let mut r: Vec<Vec<Model>> = Vec::new();
        let ghost chunkv = views_of(chunk@);
        r.push(chunk);
        let mut m: usize = 0;
        while m < rest.len()
            invariant
                m <= rest@.len(),
                r@.len() == m + 1,
                views_of(r@[0]@) == chunkv,
                forall|l: int|
                    0 <= l < m ==> views_of((#[trigger] r@[l + 1])@) == views_of(rest@[l]@),
            decreases rest@.len() - m,
        {
            let c = copy_models(&rest[m]);
            proof {
                assert(views_of(c@) == views_of(rest@[m as int]@));
            }
            r.push(c);
            m = m + 1;
        }
        proof {
            assert(chunkv =~= views_of(rows@).skip(i as int).subrange(0, 10));
            assert(views_of(rows@).skip(i as int).skip(10) =~= views_of(rows@).skip(i as int + 10));
            assert forall|l: int| 0 <= l < r@.len() implies chunk_views(r@)[l] == (seq![
                views_of(rows@).skip(i as int).subrange(0, 10),
            ] + chunks_of_10(views_of(rows@).skip(i as int + 10)))[l] by {
                if l > 0 {
                    let q = l - 1;
                    assert(views_of(r@[q + 1]@) == views_of(rest@[q]@));
                    assert(chunk_views(rest@)[q] == views_of(rest@[q]@));
                }
            }
            assert(chunk_views(r@) =~= chunks_of_10(views_of(rows@).skip(i as int)));
        }
        r
    }
}

/// A copy of a row list with equal views.
fn copy_models(v: &Vec<Model>) -> (r: Vec<Model>)
    ensures
        views_of(r@) == views_of(v@),
{
    let n = v.len();
    let mut out: Vec<Model> = Vec::new();
    let mut i: usize = 0;
    while i < n
        invariant
            n == v@.len(),
            i <= n,
            out@.len() == i,
            forall|k: int| 0 <= k < i ==> (#[trigger] out@[k])@ == v@[k]@,
        decreases n - i,
    {
        out.push(v[i].duplicate());
        i = i + 1;
    }
    proof {
        assert(views_of(out@) =~= views_of(v@));
    }
    out
}

/// Whether a torrent whose resolution failed is abandoned: its last
/// resolution is more than thirty days old, or it was never resolved and
/// was inserted more than thirty days ago. A young never-resolved row
/// survives and is retried on a later tick.
pub fn should_give_up(last_scrape: Option<i64>, added_at: i64, now: i64) -> (r: bool)
    ensures
        r == (match last_scrape {
            Some(t) => (t as int) < now as int - GIVE_UP_SECS as int,
            None => (added_at as int) < now as int - GIVE_UP_SECS as int,
        }),
{
    let cutoff = (now as i128) - (GIVE_UP_SECS as i128);
    match last_scrape {
        None => (added_at as i128) < cutoff,
        Some(t) => (t as i128) < cutoff,
    }
}

/// Whether a row is deleted after a scrape: its stale run started more
/// than the deletion window ago.
pub fn should_delete_stale_row(last_stale: Option<i64>, now: i64) -> (r: bool)
    ensures
        r == (last_stale is Some && (last_stale->0 as int) < now as int - STALE_DELETE_SECS as int),
{
    match last_stale {
        None => false,
        Some(t) => (t as i128) < (now as i128) - (STALE_DELETE_SECS as i128),
    }
}

pub open spec fn stat_pair_views(stats: Seq<(String, TorrentScrapeStats)>) -> Seq<
    (Seq<char>, (int, int)),
> {
    stats.map_values(
        |p: (String, TorrentScrapeStats)| (p.0@, (p.1.seeders as int, p.1.leechers as int)),
    )
}

pub open spec fn resp_views(rs: Seq<(String, TorrentScrapeResponse)>) -> Seq<
    (Seq<char>, Seq<(Seq<char>, (int, int))>),
> {
    rs.map_values(|r: (String, TorrentScrapeResponse)| (r.0@, stat_pair_views(r.1.stats@)))
}

/// The first entry for a key in one tracker's stats map.
pub open spec fn first_stat(stats: Seq<(Seq<char>, (int, int))>, key: Seq<char>) -> Option<
    (int, int),
>
    decreases stats.len(),
{
    if stats.len() == 0 {
        None
    } else if stats[0].0 == key {
        Some(stats[0].1)
    } else {
        first_stat(stats.drop_first(), key)
    }
}

/// The observation list a scrape batch yields for one hash: one entry per
/// tracker whose response carries the hash, in response order.
pub open spec fn obs_list(
    rs: Seq<(Seq<char>, Seq<(Seq<char>, (int, int))>)>,
    key: Seq<char>,
    now: int,
) -> Seq<TrackerV>
    decreases rs.len(),
{
    if rs.len() == 0 {
        Seq::empty()
    } else {
        let rest = obs_list(rs.drop_last(), key, now);
        match first_stat(rs.last().1, key) {
            Some(s) => rest.push(
                TrackerV { url: rs.last().0, seeders: s.0, leechers: s.1, last_scrape: now },
            ),
            None => rest,
        }
    }
}

proof fn lemma_first_stat_witness(stats: Seq<(Seq<char>, (int, int))>, key: Seq<char>, k: int)
    requires
        0 <= k < stats.len(),
        stats[k].0 == key,
        forall|j: int| 0 <= j < k ==> (#[trigger] stats[j]).0 != key,
    ensures
        first_stat(stats, key) == Some(stats[k].1),
    decreases k,
{
    if k > 0 {
        assert(stats[0].0 != key);
        assert forall|j: int| 0 <= j < k - 1 implies (#[trigger] stats.drop_first()[j]).0
            != key by {
            assert(stats.drop_first()[j] == stats[j + 1]);
        }
        assert(stats.drop_first()[k - 1] == stats[k]);
        lemma_first_stat_witness(stats.drop_first(), key, k - 1);
    }
}

proof fn lemma_first_stat_none(stats: Seq<(Seq<char>, (int, int))>, key: Seq<char>)
    requires
        forall|j: int| 0 <= j < stats.len() ==> (#[trigger] stats[j]).0 != key,
    ensures
        first_stat(stats, key) is None,
    decreases stats.len(),
{
    if stats.len() > 0 {
        assert forall|j: int| 0 <= j < stats.drop_first().len() implies (
        #[trigger] stats.drop_first()[j]).0 != key by {
            assert(stats.drop_first()[j] == stats[j + 1]);
        }
        lemma_first_stat_none(stats.drop_first(), key);
    }
}

/// Collects the observations a scrape batch yields for one torrent: the
/// hash is uppercased and looked up in every tracker's response; each hit
/// becomes one observation stamped `now`.
pub fn build_observations(
    info_hash: &str,
    responses: &Vec<(String, TorrentScrapeResponse)>,
    now: i64,
) -> (r: Vec<Tracker>)
    ensures
        crate::store::tracker_views(r@) == obs_list(
            resp_views(responses@),
            upper_seq(info_hash@),
            now as int,
        ),
{
    let key = crate::text::to_upper(info_hash);
    let ghost keyv = upper_seq(info_hash@);
    let n = responses.len();
    let mut out: Vec<Tracker> = Vec::new();
    let mut i: usize = 0;
    while i < n
        invariant
            key@ == keyv,
            n == responses@.len(),
            i <= n,
            crate::store::tracker_views(out@) == obs_list(
                resp_views(responses@).subrange(0, i as int),
                keyv,
                now as int,
            ),
        decreases n - i,
    {
        proof {
            assert(resp_views(responses@).subrange(0, i as int + 1).drop_last()
                =~= resp_views(responses@).subrange(0, i as int));
            assert(resp_views(responses@).subrange(0, i as int + 1).last() == resp_views(
                responses@,
            )[i as int]);
        }
        let found = responses[i].1.get(&key);
        match found {
            Some(st) => {
                let obs = Tracker {
                    url: responses[i].0.clone(),
                    seeders: st.seeders,
                    leechers: st.leechers,
                    last_scrape: now,
                };
                proof {
                    let stats = resp_views(responses@)[i as int].1;
                    let k = choose|k: int|
                        0 <= k < responses@[i as int].1.stats@.len() && (
                        #[trigger] responses@[i as int].1.stats@[k]).0@ == keyv && (forall|j: int|
                            0 <= j < k ==> (#[trigger] responses@[i as int].1.stats@[j]).0@ != keyv)
                            && found == Some(&responses@[i as int].1.stats@[k].1);
                    assert(stats[k].0 == keyv);
                    assert forall|j: int| 0 <= j < k implies (#[trigger] stats[j]).0 != keyv by {
                        assert(responses@[i as int].1.stats@[j].0@ != keyv);
                    }
                    lemma_first_stat_witness(stats, keyv, k);
                    assert(first_stat(stats, keyv) == Some(stats[k].1));
                    assert(obs@ =~= (TrackerV {
                        url: responses@[i as int].0@,
                        seeders: stats[k].1.0,
                        leechers: stats[k].1.1,
                        last_scrape: now as int,
                    }));
                    assert(crate::store::tracker_views(out@.push(obs))
                        =~= crate::store::tracker_views(out@).push(obs@));
                }
                out.push(obs);
            },
            None => {
                proof {
                    let stats = resp_views(responses@)[i as int].1;
                    assert forall|j: int| 0 <= j < stats.len() implies (#[trigger] stats[j]).0
                        != keyv by {
                        assert(responses@[i as int].1.stats@[j].0@ != keyv);
                    }
                    lemma_first_stat_none(stats, keyv);
                }
            },
        }
        i = i + 1;
    }
    proof {
        assert(resp_views(responses@).subrange(0, n as int) =~= resp_views(responses@));
    }
    out
}

} // verus!
