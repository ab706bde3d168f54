//! The tracker registry: the cached list of verified tracker URIs, the
//! per-tracker failure backoff table, scheme classification, and the
//! assembly of scrape observations keyed by uppercase hex info-hash.
//! Network probes and socket work happen outside; the registry holds the
//! state and makes the decisions.

use vstd::prelude::*;
use crate::text::{match_at, str_chars, remove_all, remove_occurrences};
use crate::hexstr::bytes_to_hex_upper;

verus! {

/// A verified tracker.
pub struct TorrentTracker {
    pub uri: String,
}

impl TorrentTracker {
    /// A copy of the tracker entry with an equal view.
    pub fn duplicate(&self) -> (r: TorrentTracker)
        ensures
            r.uri@ == self.uri@,
    {
        TorrentTracker { uri: self.uri.clone() }
    }
}

/// One tracker's swarm counts for a torrent.
pub struct TorrentScrapeStats {
    pub seeders: i32,
    pub leechers: i32,
}

/// One tracker's scrape result: swarm counts keyed by uppercase hex
/// info-hash, one entry per hash in request order.
pub struct TorrentScrapeResponse {
    pub stats: Vec<(String, TorrentScrapeStats)>,
}

impl TorrentScrapeResponse {
    /// The first entry for a key, if any.
    pub fn get(&self, key: &String) -> (r: Option<&TorrentScrapeStats>)
        ensures
            r is Some <==> (exists|k: int|
                0 <= k < self.stats@.len() && (#[trigger] self.stats@[k]).0@ == key@),
            r is Some ==> exists|k: int|
                0 <= k < self.stats@.len() && (#[trigger] self.stats@[k]).0@ == key@ && (forall|
                    j: int,
                |
                    0 <= j < k ==> (#[trigger] self.stats@[j]).0@ != key@) && r == Some(
                    &self.stats@[k].1,
                ),
    {
        let n = self.stats.len();
        let mut i: usize = 0;
        while i < n
            invariant
                n == self.stats@.len(),
                i <= n,
                forall|k: int| 0 <= k < i ==> (#[trigger] self.stats@[k]).0@ != key@,
            decreases n - i,
        {
            if self.stats[i].0 == *key {
                proof {
                    assert(self.stats@[i as int].0@ == key@);
                }
                return Some(&self.stats[i].1);
            }
            i = i + 1;
        }
        None
    }
}

/// The stats map a UDP scrape yields: the `k`-th requested hash, encoded
/// as uppercase hex, mapped to the `k`-th response triple's seeders and
/// leechers.
pub fn build_udp_stats(hashes: &Vec<Vec<u8>>, triples: &Vec<(i32, i32, i32)>) -> (r:
    TorrentScrapeResponse)
    requires
        triples@.len() >= hashes@.len(),
    ensures
        r.stats@.len() == hashes@.len(),
        forall|k: int|
            0 <= k < hashes@.len() ==> (#[trigger] r.stats@[k]).0@ == bytes_to_hex_upper(
                hashes@[k]@,
            ) && r.stats@[k].1.seeders == triples@[k].0 && r.stats@[k].1.leechers == triples@[k].2,
{
    let n = hashes.len();
    let mut stats: Vec<(String, TorrentScrapeStats)> = Vec::new();
    let mut k: usize = 0;
    while k < n
        invariant
            n == hashes@.len(),
            triples@.len() >= n,
            k <= n,
            stats@.len() == k,
            forall|j: int|
                0 <= j < k ==> (#[trigger] stats@[j]).0@ == bytes_to_hex_upper(hashes@[j]@)
                    && stats@[j].1.seeders == triples@[j].0 && stats@[j].1.leechers
                    == triples@[j].2,
        decreases n - k,
    {
        let hex = crate::hexstr::hex_encode_upper(&hashes[k]);
        let triple = triples[k];
        stats.push((hex, TorrentScrapeStats { seeders: triple.0, leechers: triple.2 }));
        k = k + 1;
    }
    TorrentScrapeResponse { stats }
}

/// An integer clamped into the `i32` range.
pub open spec fn sat_i32(v: int) -> int {
    if v > i32::MAX as int {
        i32::MAX as int
    } else if v < i32::MIN as int {
        i32::MIN as int
    } else {
        v
    }
}

fn clamp_i32(v: i64) -> (r: i32)
    ensures
        r as int == sat_i32(v as int),
{
    if v > i32::MAX as i64 {
        i32::MAX
    } else if v < i32::MIN as i64 {
        i32::MIN
    } else {
        v as i32
    }
}

/// The stats map an HTTP scrape yields: each `files` entry's hash encoded
/// as uppercase hex, its `complete` count as seeders and its `incomplete`
/// count as leechers, both clamped into the `i32` range.
pub fn build_http_stats(files: &Vec<(Vec<u8>, i64, i64)>) -> (r: TorrentScrapeResponse)
    ensures
        r.stats@.len() == files@.len(),
        forall|k: int|
            0 <= k < files@.len() ==> (#[trigger] r.stats@[k]).0@ == bytes_to_hex_upper(
                files@[k].0@,
            ) && r.stats@[k].1.seeders as int == sat_i32(files@[k].1 as int)
                && r.stats@[k].1.leechers as int == sat_i32(files@[k].2 as int),
{
    let n = files.len();
    let mut stats: Vec<(String, TorrentScrapeStats)> = Vec::new();
    let mut k: usize = 0;
    while k < n
        invariant
            n == files@.len(),
            k <= n,
            stats@.len() == k,
            forall|j: int|
                0 <= j < k ==> (#[trigger] stats@[j]).0@ == bytes_to_hex_upper(files@[j].0@)
                    && stats@[j].1.seeders as int == sat_i32(files@[j].1 as int)
                    && stats@[j].1.leechers as int == sat_i32(files@[j].2 as int),
        decreases n - k,
    {
        let hex = crate::hexstr::hex_encode_upper(&files[k].0);
        let seeders = clamp_i32(files[k].1);
        let leechers = clamp_i32(files[k].2);
        stats.push((hex, TorrentScrapeStats { seeders, leechers }));
        k = k + 1;
    }
    TorrentScrapeResponse { stats }
}

/// One entry of the failure backoff table.
pub struct TimeoutEntry {
    pub uri: String,
    pub count: u8,
    pub last_attempt: i64,
}

#[verifier::ext_equal]
pub ghost struct TimeoutV {
    pub uri: Seq<char>,
    pub count: int,
    pub last_attempt: int,
}

impl View for TimeoutEntry {
    type V = TimeoutV;

    open spec fn view(&self) -> TimeoutV {
        TimeoutV {
            uri: self.uri@,
            count: self.count as int,
            last_attempt: self.last_attempt as int,
        }
    }
}

pub open spec fn timeout_views(es: Seq<TimeoutEntry>) -> Seq<TimeoutV> {
    es.map_values(|e: TimeoutEntry| e@)
}

/// The backoff entry recorded for a URI, if any.
pub open spec fn lookup_timeout(es: Seq<TimeoutV>, uri: Seq<char>) -> Option<TimeoutV>
    decreases es.len(),
{
    if es.len() == 0 {
        None
    } else if es[0].uri == uri {
        Some(es[0])
    } else {
        lookup_timeout(es.drop_first(), uri)
    }
}

/// How many seconds a tracker is skipped after `count` consecutive
/// failures; below three failures it is attempted immediately.
pub open spec fn backoff_secs(count: int) -> int {
    if count == 3 {
        30
    } else if count == 4 {
        60
    } else if count == 5 {
        120
    } else if count == 6 {
        240
    } else {
        300
    }
}

/// Whether a tracker with this backoff record must be skipped at `now`.
pub open spec fn spec_should_skip(entry: Option<TimeoutV>, now: int) -> bool {
    match entry {
        None => false,
        Some(e) => e.count >= 3 && now - e.last_attempt < backoff_secs(e.count),
    }
}

/// The tracker registry: the cached tracker list, its last refresh
/// instant, and the failure backoff table.
pub struct TorrentTrackers {
    last_updated_trackers: i64,
    trackers: Vec<TorrentTracker>,
    timeout_trackers: Vec<TimeoutEntry>,
}

#[verifier::ext_equal]
pub ghost struct RegistryV {
    pub last_updated: int,
    pub trackers: Seq<Seq<char>>,
    pub timeouts: Seq<TimeoutV>,
}

impl View for TorrentTrackers {
    type V = RegistryV;

    closed spec fn view(&self) -> RegistryV {
        RegistryV {
            last_updated: self.last_updated_trackers as int,
            trackers: self.trackers@.map_values(|t: TorrentTracker| t.uri@),
            timeouts: timeout_views(self.timeout_trackers@),
        }
    }
}

/// The backoff table never holds two entries for one URI.
pub open spec fn timeouts_wf(es: Seq<TimeoutV>) -> bool {
    forall|i: int, j: int|
        0 <= i < j < es.len() ==> (#[trigger] es[i]).uri != (#[trigger] es[j]).uri
}

/// How long a cached tracker list stays fresh.
pub const TRACKER_CACHE_SECS: i64 = 60;

impl TorrentTrackers {
    /// An empty registry whose first `get_trackers` decision asks for a
    /// refresh.
    pub fn new(now: i64) -> (r: TorrentTrackers)
        ensures
            r@.last_updated == now as int,
            r@.trackers == Seq::<Seq<char>>::empty(),
            r@.timeouts == Seq::<TimeoutV>::empty(),
            timeouts_wf(r@.timeouts),
    {
        let r = TorrentTrackers {
            last_updated_trackers: now,
            trackers: Vec::new(),
            timeout_trackers: Vec::new(),
        };
        proof {
            assert(r@.trackers =~= Seq::<Seq<char>>::empty());
            assert(r@.timeouts =~= Seq::<TimeoutV>::empty());
        }
        r
    }

    /// Whether the cache must be refreshed before use: it is more than a
    /// minute old, or empty.
    pub fn needs_refresh(&self, now: i64) -> (r: bool)
        ensures
            r == (now as int - self@.last_updated > TRACKER_CACHE_SECS as int || self@.trackers.len()
                == 0),
    {
        let age = (now as i128) - (self.last_updated_trackers as i128);
        age > (TRACKER_CACHE_SECS as i128) || self.trackers.len() == 0
    }

    /// Replaces the cache atomically with a freshly admitted set.
    pub fn set_trackers(&mut self, trackers: Vec<TorrentTracker>, now: i64)
        ensures
            final(self)@.last_updated == now as int,
            final(self)@.trackers == trackers@.map_values(|t: TorrentTracker| t.uri@),
            final(self)@.timeouts == old(self)@.timeouts,
    {
        self.last_updated_trackers = now;
        self.trackers = trackers;
    }

    /// The cached tracker URIs, in order.
    pub fn tracker_uris(&self) -> (r: Vec<String>)
        ensures
            r@.map_values(|s: String| s@) == self@.trackers,
    {
        let n = self.trackers.len();
        let mut out: Vec<String> = Vec::new();
        let mut i: usize = 0;
        while i < n
            invariant
                n == self.trackers@.len(),
                i <= n,
                out@.len() == i,
                forall|k: int| 0 <= k < i ==> (#[trigger] out@[k])@ == self.trackers@[k].uri@,
            decreases n - i,
        {
            out.push(self.trackers[i].uri.clone());
            i = i + 1;
        }
        proof {
            assert(out@.map_values(|s: String| s@) =~= self@.trackers);
        }
        out
    }

    /// Whether a scrape of `uri` may be attempted at `now`, by the backoff
    /// table: fewer than three consecutive failures pass immediately, more
    /// wait out their delay.
    pub fn should_attempt(&self, uri: &String, now: i64) -> (r: bool)
        ensures
            r == !spec_should_skip(lookup_timeout(self@.timeouts, uri@), now as int),
    {
        let n = self.timeout_trackers.len();
        let mut i: usize = 0;
        proof {
            assert(self@.timeouts.skip(0) =~= self@.timeouts);
        }
        while i < n
            invariant
                n == self.timeout_trackers@.len(),
                i <= n,
                lookup_timeout(self@.timeouts, uri@) == lookup_timeout(
                    self@.timeouts.skip(i as int),
                    uri@,
                ),
            decreases n - i,
        {
            proof {
                assert(self@.timeouts.skip(i as int).drop_first() =~= self@.timeouts.skip(
                    i as int + 1,
                ));
                assert(self@.timeouts.skip(i as int)[0] == self@.timeouts[i as int]);
            }
            if self.timeout_trackers[i].uri == *uri {
                let count = self.timeout_trackers[i].count;
                let last = self.timeout_trackers[i].last_attempt;
                if count >= 3 {
                    let delay: i64 = if count == 3 {
                        30
                    } else if count == 4 {
                        60
                    } else if count == 5 {
                        120
                    } else if count == 6 {
                        240
                    } else {
                        300
                    };
                    let elapsed = (now as i128) - (last as i128);
                    return !(elapsed < delay as i128);
                }
                return true;
            }
            i = i + 1;
        }
        proof {
            assert(self@.timeouts.skip(n as int).len() == 0);
        }
        true
    }

    /// Records a failed scrape: the entry's failure count grows by one
    /// (saturating) and its instant resets; a URI without an entry starts
    /// at one.
    pub fn record_failure(&mut self, uri: String, now: i64)
        requires
            timeouts_wf(old(self)@.timeouts),
        ensures
            timeouts_wf(final(self)@.timeouts),
            final(self)@.last_updated == old(self)@.last_updated,
            final(self)@.trackers == old(self)@.trackers,
            ({
                let pre = old(self)@.timeouts;
                let post = final(self)@.timeouts;
                match lookup_timeout(pre, uri@) {
                    Some(e) => (exists|i: int|
                        0 <= i < pre.len() && (#[trigger] pre[i]).uri == uri@ && post
                            == pre.update(
                            i,
                            TimeoutV {
                                uri: uri@,
                                count: if e.count < 255 {
                                    e.count + 1
                                } else {
                                    255
                                },
                                last_attempt: now as int,
                            },
                        )),
                    None => post == pre.push(
                        TimeoutV { uri: uri@, count: 1, last_attempt: now as int },
                    ),
                }
            }),
    {
        let n = self.timeout_trackers.len();
        let mut i: usize = 0;
        proof {
            assert(self@.timeouts.skip(0) =~= self@.timeouts);
        }
        while i < n
            invariant
                self@ == old(self)@,
                timeouts_wf(old(self)@.timeouts),
                n == self.timeout_trackers@.len(),
                i <= n,
                lookup_timeout(self@.timeouts, uri@) == lookup_timeout(
                    self@.timeouts.skip(i as int),
                    uri@,
                ),
                forall|k: int| 0 <= k < i ==> (#[trigger] self@.timeouts[k]).uri != uri@,
            decreases n - i,
        {
            proof {
                assert(self@.timeouts.skip(i as int).drop_first() =~= self@.timeouts.skip(
                    i as int + 1,
                ));
                assert(self@.timeouts.skip(i as int)[0] == self@.timeouts[i as int]);
            }
            if self.timeout_trackers[i].uri == uri {
                let count = self.timeout_trackers[i].count;
                let next = if count < 255 {
                    count + 1
                } else {
                    255
                };
                let entry = TimeoutEntry { uri, count: next, last_attempt: now };
                proof {
                    assert(lookup_timeout(self@.timeouts.skip(i as int), entry.uri@) is Some);
                }
                self.timeout_trackers.set(i, entry);
                proof {
                    assert(self@.timeouts =~= old(self)@.timeouts.update(
                        i as int,
                        self@.timeouts[i as int],
                    ));
                    assert forall|a: int, b: int|
                        0 <= a < b < self@.timeouts.len() implies (#[trigger] self@.timeouts[a]).uri
                        != (#[trigger] self@.timeouts[b]).uri by {
                        assert(old(self)@.timeouts[a].uri != old(self)@.timeouts[b].uri);
                    }
                }
                return ;
            }
            i = i + 1;
        }
        proof {
            assert(self@.timeouts.skip(n as int).len() == 0);
        }
        let entry = TimeoutEntry { uri, count: 1, last_attempt: now };
        let ghost ev = entry@;
        self.timeout_trackers.push(entry);
        proof {
            assert(self@.timeouts =~= old(self)@.timeouts.push(ev));
            assert forall|a: int, b: int|
                0 <= a < b < self@.timeouts.len() implies (#[trigger] self@.timeouts[a]).uri
                != (#[trigger] self@.timeouts[b]).uri by {
                if b < old(self)@.timeouts.len() {
                    assert(old(self)@.timeouts[a].uri != old(self)@.timeouts[b].uri);
                }
            }
        }
    }

    /// Records a successful scrape: the URI's backoff entry is removed
    /// entirely.
    pub fn record_success(&mut self, uri: &String)
        requires
            timeouts_wf(old(self)@.timeouts),
        ensures
            timeouts_wf(final(self)@.timeouts),
            final(self)@.last_updated == old(self)@.last_updated,
            final(self)@.trackers == old(self)@.trackers,
            final(self)@.timeouts == old(self)@.timeouts.filter(
                |e: TimeoutV| e.uri != uri@,
            ),
            lookup_timeout(final(self)@.timeouts, uri@) is None,
    {
        let n = self.timeout_trackers.len();
        let mut out: Vec<TimeoutEntry> = Vec::new();
        let mut i: usize = 0;
        while i < n
            invariant
                self@ == old(self)@,
                timeouts_wf(old(self)@.timeouts),
                n == self.timeout_trackers@.len(),
                i <= n,
                timeout_views(out@) == self@.timeouts.subrange(0, i as int).filter(
                    |e: TimeoutV| e.uri != uri@,
                ),
                forall|a: int|
                    0 <= a < out@.len() ==> exists|j: int|
                        0 <= j < i && (#[trigger] out@[a])@ == self@.timeouts[j],
            decreases n - i,
        {
            proof {
                assert(self@.timeouts.subrange(0, i as int + 1) =~= self@.timeouts.subrange(
                    0,
                    i as int,
                ).push(self@.timeouts[i as int]));
                crate::text::lemma_filter_push_gen(
                    self@.timeouts.subrange(0, i as int),
                    |e: TimeoutV| e.uri != uri@,
                    self@.timeouts[i as int],
                );
            }
            if !(self.timeout_trackers[i].uri == *uri) {
                let e = TimeoutEntry {
                    uri: self.timeout_trackers[i].uri.clone(),
                    count: self.timeout_trackers[i].count,
                    last_attempt: self.timeout_trackers[i].last_attempt,
                };
                proof {
                    assert(e@ == self@.timeouts[i as int]);
                    assert(timeout_views(out@.push(e)) =~= timeout_views(out@).push(e@));
                }
                out.push(e);
                proof {
                    assert(timeout_views(out@) =~= self@.timeouts.subrange(0, i as int + 1).filter(
                        |e: TimeoutV| e.uri != uri@,
                    ));
                }
            }
            i = i + 1;
        }
        proof {
            assert(self@.timeouts.subrange(0, n as int) =~= self@.timeouts);
        }
        self.timeout_trackers = out;
        proof {
            let kept = old(self)@.timeouts.filter(|e: TimeoutV| e.uri != uri@);
            assert(self@.timeouts =~= kept);
            lemma_filter_timeouts_wf(old(self)@.timeouts, |e: TimeoutV| e.uri != uri@);
            assert forall|k: int| 0 <= k < kept.len() implies (#[trigger] kept[k]).uri != uri@ by {
                old(self)@.timeouts.lemma_filter_pred(|e: TimeoutV| e.uri != uri@, k);
            }
            lemma_lookup_none(self@.timeouts, uri@);
        }
    }
}

/// Filtering a well-formed backoff table keeps its URIs unique.
proof fn lemma_filter_timeouts_wf(es: Seq<TimeoutV>, pred: spec_fn(TimeoutV) -> bool)
    requires
        timeouts_wf(es),
    ensures
        timeouts_wf(es.filter(pred)),
    decreases es.len(),
{
    reveal(Seq::filter);
    if es.len() > 0 {
        let rest = es.drop_last();
        let last = es.last();
        assert(timeouts_wf(rest));
        lemma_filter_timeouts_wf(rest, pred);
        if pred(last) {
            let f = rest.filter(pred);
            assert forall|a: int| 0 <= a < f.len() implies (#[trigger] f[a]).uri != last.uri by {
                assert(f.contains(f[a]));
                rest.lemma_filter_contains_rev(pred, f[a]);
                let k = choose|k: int| 0 <= k < rest.len() && rest[k] == f[a];
                assert(es[k] == f[a]);
                assert(es[k].uri != es[es.len() - 1].uri);
            }
            assert(es.filter(pred) == f.push(last));
        }
    }
}

/// A table whose entries all avoid `uri` looks it up to nothing.
proof fn lemma_lookup_none(es: Seq<TimeoutV>, uri: Seq<char>)
    requires
        forall|k: int| 0 <= k < es.len() ==> (#[trigger] es[k]).uri != uri,
    ensures
        lookup_timeout(es, uri) is None,
    decreases es.len(),
{
    if es.len() > 0 {
        assert forall|k: int| 0 <= k < es.drop_first().len() implies (#[trigger] es.drop_first()[
            k
        ]).uri != uri by {
            assert(es.drop_first()[k] == es[k + 1]);
        }
        lemma_lookup_none(es.drop_first(), uri);
    }
}

/// The URI scheme kinds the registry distinguishes.
#[derive(Clone, Copy, PartialEq, Eq, Debug, Structural)]
pub enum TrackerScheme {
    Udp,
    Http,
    Https,
    Ws,
    Other,
}

/// The scheme prefix a URI carries.
pub open spec fn has_scheme(uri: Seq<char>, scheme: Seq<char>) -> bool {
    let p = scheme + "://"@;
    uri.len() >= p.len() && uri.subrange(0, p.len() as int) == p
}

pub open spec fn spec_scheme(uri: Seq<char>) -> TrackerScheme {
    if has_scheme(uri, "udp"@) {
        TrackerScheme::Udp
    } else if has_scheme(uri, "http"@) && !has_scheme(uri, "https"@) {
        TrackerScheme::Http
    } else if has_scheme(uri, "https"@) {
        TrackerScheme::Https
    } else if has_scheme(uri, "ws"@) {
        TrackerScheme::Ws
    } else {
        TrackerScheme::Other
    }
}

/// Classifies a tracker URI by its scheme prefix.
pub fn classify_scheme(uri: &str) -> (r: TrackerScheme)
    ensures
        r == spec_scheme(uri@),
{
    proof {
        reveal_strlit("udp://");
        reveal_strlit("http://");
        reveal_strlit("https://");
        reveal_strlit("ws://");
        reveal_strlit("udp");
        reveal_strlit("http");
        reveal_strlit("https");
        reveal_strlit("ws");
        reveal_strlit("://");
    }
    let cs = str_chars(uri);
    let udp = str_chars("udp://");
    let http = str_chars("http://");
    let https = str_chars("https://");
    let ws = str_chars("ws://");
    proof {
        assert("udp"@ + "://"@ =~= "udp://"@);
        assert("http"@ + "://"@ =~= "http://"@);
        assert("https"@ + "://"@ =~= "https://"@);
        assert("ws"@ + "://"@ =~= "ws://"@);
    }
    if cs.len() >= udp.len() && match_at(&cs, &udp, 0) {
        proof {
            assert(cs@.subrange(0, 6) =~= cs@.subrange(0, udp@.len() as int));
        }
        TrackerScheme::Udp
    } else if cs.len() >= https.len() && match_at(&cs, &https, 0) {
        TrackerScheme::Https
    } else if cs.len() >= http.len() && match_at(&cs, &http, 0) {
        TrackerScheme::Http
    } else if cs.len() >= ws.len() && match_at(&cs, &ws, 0) {
        TrackerScheme::Ws
    } else {
        TrackerScheme::Other
    }
}

/// The host part handed to name resolution: the URI with its `udp://`
/// prefix and every `/announce` suffix occurrence removed.
pub fn tracker_host(uri: &str) -> (r: String)
    ensures
        r@ == remove_all(remove_all(uri@, "udp://"@), "/announce"@),
{
    proof {
        reveal_strlit("udp://");
        reveal_strlit("/announce");
    }
    let without_scheme = remove_occurrences(uri, "udp://");
    remove_occurrences(without_scheme.as_str(), "/announce")
}

} // verus!
