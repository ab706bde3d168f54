//! The torrent row: identity, resolved metadata, swarm statistics, and the
//! stale-swarm bookkeeping. Instants are unix timestamps in seconds.

use vstd::prelude::*;
use crate::text::{contains_seq, str_chars, match_at};

verus! {

/// One tracker's observation for a torrent at its last scrape.
pub struct Tracker {
    pub url: String,
    pub seeders: i32,
    pub leechers: i32,
    pub last_scrape: i64,
}

#[verifier::ext_equal]
pub ghost struct TrackerV {
    pub url: Seq<char>,
    pub seeders: int,
    pub leechers: int,
    pub last_scrape: int,
}

impl View for Tracker {
    type V = TrackerV;

    open spec fn view(&self) -> TrackerV {
        TrackerV {
            url: self.url@,
            seeders: self.seeders as int,
            leechers: self.leechers as int,
            last_scrape: self.last_scrape as int,
        }
    }
}

impl Tracker {
    /// An equal copy of this observation.
    pub fn duplicate(&self) -> (r: Tracker)
        ensures
            r == *self,
    {
        Tracker {
            url: self.url.clone(),
            seeders: self.seeders,
            leechers: self.leechers,
            last_scrape: self.last_scrape,
        }
    }
}

/// The ordered list of tracker observations stored on a torrent row.
pub struct Trackers(pub Vec<Tracker>);

impl View for Trackers {
    type V = Seq<TrackerV>;

    open spec fn view(&self) -> Seq<TrackerV> {
        self.0@.map_values(|t: Tracker| t@)
    }
}

impl Trackers {
    /// A copy of the observation list with an equal view.
    pub fn duplicate(&self) -> (r: Trackers)
        ensures
            r@ == self@,
            r.0@ == self.0@,
    {
        let mut out: Vec<Tracker> = Vec::new();
        let mut i: usize = 0;
        while i < self.0.len()
            invariant
                i <= self.0@.len(),
                out@ == self.0@.subrange(0, i as int),
            decreases self.0@.len() - i,
        {
            out.push(self.0[i].duplicate());
            i = i + 1;
            proof {
                assert(out@ =~= self.0@.subrange(0, i as int));
            }
        }
        proof {
            assert(out@ =~= self.0@);
        }
        Trackers(out)
    }
}

/// One torrent row of the store.
pub struct Model {
    pub id: i32,
    pub name: Option<String>,
    pub info_hash: String,
    pub size: i32,
    pub files: Vec<String>,
    pub added_at: i64,
    pub seeders: i32,
    pub leechers: i32,
    pub trackers: Trackers,
    pub last_scrape: Option<i64>,
    pub last_tracker_scrape: Option<i64>,
    pub last_stale: Option<i64>,
}

#[verifier::ext_equal]
pub ghost struct ModelV {
    pub id: int,
    pub name: Option<Seq<char>>,
    pub info_hash: Seq<char>,
    pub size: int,
    pub files: Seq<Seq<char>>,
    pub added_at: int,
    pub seeders: int,
    pub leechers: int,
    pub trackers: Seq<TrackerV>,
    pub last_scrape: Option<int>,
    pub last_tracker_scrape: Option<int>,
    pub last_stale: Option<int>,
}

pub open spec fn opt_i64_view(o: Option<i64>) -> Option<int> {
    match o {
        Some(v) => Some(v as int),
        None => None,
    }
}

impl View for Model {
    type V = ModelV;

    open spec fn view(&self) -> ModelV {
        ModelV {
            id: self.id as int,
            name: match self.name {
                Some(n) => Some(n@),
                None => None,
            },
            info_hash: self.info_hash@,
            size: self.size as int,
            files: self.files@.map_values(|f: String| f@),
            added_at: self.added_at as int,
            seeders: self.seeders as int,
            leechers: self.leechers as int,
            trackers: self.trackers@,
            last_scrape: opt_i64_view(self.last_scrape),
            last_tracker_scrape: opt_i64_view(self.last_tracker_scrape),
            last_stale: opt_i64_view(self.last_stale),
        }
    }
}

/// A copy of a list of path strings with an equal view.
pub fn duplicate_strings(v: &Vec<String>) -> (r: Vec<String>)
    ensures
        r@ == v@,
{
    let mut out: Vec<String> = Vec::new();
    let mut i: usize = 0;
    while i < v.len()
        invariant
            i <= v@.len(),
            out@ == v@.subrange(0, i as int),
        decreases v@.len() - i,
    {
        out.push(v[i].clone());
        i = i + 1;
        proof {
            assert(out@ =~= v@.subrange(0, i as int));
        }
    }
    proof {
        assert(out@ =~= v@);
    }
    out
}

impl Model {
    /// A copy of this row with an equal view.
    pub fn duplicate(&self) -> (r: Model)
        ensures
            r@ == self@,
    {
        Model {
            id: self.id,
            name: match &self.name {
                Some(n) => Some(n.clone()),
                None => None,
            },
            info_hash: self.info_hash.clone(),
            size: self.size,
            files: duplicate_strings(&self.files),
            added_at: self.added_at,
            seeders: self.seeders,
            leechers: self.leechers,
            trackers: self.trackers.duplicate(),
            last_scrape: self.last_scrape,
            last_tracker_scrape: self.last_tracker_scrape,
            last_stale: self.last_stale,
        }
    }
}

/// Whole megabytes of a file length in bytes, truncated.
pub open spec fn mb_of(len: i64) -> int {
    len as int / 1000000
}

/// Sum over the files of their whole megabytes; the torrent's stored size.
pub open spec fn size_mb_sum(files: Seq<i64>) -> int
    decreases files.len(),
{
    if files.len() == 0 {
        0
    } else {
        size_mb_sum(files.drop_last()) + mb_of(files.last())
    }
}

proof fn lemma_size_mb_sum_extend(files: Seq<i64>, k: int)
    requires
        0 <= k < files.len(),
    ensures
        size_mb_sum(files.subrange(0, k + 1)) == size_mb_sum(files.subrange(0, k)) + mb_of(
            files[k],
        ),
{
    let pre = files.subrange(0, k + 1);
    assert(pre.drop_last() =~= files.subrange(0, k));
    assert(pre.last() == files[k]);
}

proof fn lemma_size_mb_sum_prefix(files: Seq<i64>, k: int)
    requires
        0 <= k <= files.len(),
        forall|i: int| 0 <= i < files.len() ==> files[i] >= 0,
    ensures
        size_mb_sum(files.subrange(0, k)) <= size_mb_sum(files),
    decreases files.len() - k,
{
    if k == files.len() {
        assert(files.subrange(0, k) =~= files);
    } else {
        lemma_size_mb_sum_extend(files, k);
        assert(mb_of(files[k]) >= 0) by {
            vstd::arithmetic::div_mod::lemma_div_is_ordered(0, files[k] as int, 1000000);
        }
        lemma_size_mb_sum_prefix(files, k + 1);
    }
}

/// Computes the torrent size in whole megabytes from its file lengths.
/// Returns `None` exactly when some length is negative or the total does not
/// fit an `i32`.
pub fn size_mb_checked(files: &Vec<i64>) -> (r: Option<i32>)
    ensures
        r is Some <==> ((forall|i: int| 0 <= i < files@.len() ==> files@[i] >= 0)
            && size_mb_sum(files@) <= i32::MAX as int),
        r is Some ==> r->Some_0 as int == size_mb_sum(files@),
{
    let mut acc: i64 = 0;
    let mut i: usize = 0;
    while i < files.len()
        invariant
            i <= files@.len(),
            forall|j: int| 0 <= j < i ==> files@[j] >= 0,
            acc as int == size_mb_sum(files@.subrange(0, i as int)),
            acc >= 0,
        decreases files@.len() - i,
    {
        let len = files[i];
        if len < 0 {
            return None;
        }
        let mb = len / 1000000;
        proof {
            assert(mb as int == mb_of(files@[i as int]));
            assert(mb >= 0);
            lemma_size_mb_sum_extend(files@, i as int);
        }
        match acc.checked_add(mb) {
            Some(next) => {
                acc = next;
            },
            None => {
                proof {
                    let all_nonneg = forall|j: int|
                        0 <= j < files@.len() ==> files@[j] >= 0;
                    if all_nonneg {
                        lemma_size_mb_sum_prefix(files@, i + 1);
                        assert(size_mb_sum(files@) > i32::MAX as int);
                    }
                }
                return None;
            },
        }
        i = i + 1;
    }
    proof {
        assert(files@.subrange(0, files@.len() as int) =~= files@);
    }
    if acc > i32::MAX as i64 {
        None
    } else {
        Some(acc as i32)
    }
}

/// The stale-run state machine: a scrape observing a dead swarm starts a
/// stale run (or leaves a running one alone); any live observation clears it.
pub open spec fn spec_next_last_stale(
    prev: Option<i64>,
    seeders: i32,
    leechers: i32,
    now: i64,
) -> Option<i64> {
    if seeders == 0 && leechers == 0 {
        if prev is Some {
            prev
        } else {
            Some(now)
        }
    } else {
        None
    }
}

/// Folds one swarm observation into the `last_stale` marker.
pub fn next_last_stale(prev: Option<i64>, seeders: i32, leechers: i32, now: i64) -> (r: Option<
    i64,
>)
    ensures
        r == spec_next_last_stale(prev, seeders, leechers, now),
{
    if seeders == 0 && leechers == 0 {
        match prev {
            Some(t) => Some(t),
            None => Some(now),
        }
    } else {
        None
    }
}

/// The first observation carrying the maximum seeder count.
pub fn best_tracker_index(ts: &Vec<Tracker>) -> (r: usize)
    requires
        ts@.len() > 0,
    ensures
        r < ts@.len(),
        forall|j: int| 0 <= j < ts@.len() ==> ts@[j].seeders <= ts@[r as int].seeders,
        forall|j: int| 0 <= j < r ==> ts@[j].seeders < ts@[r as int].seeders,
{
    let mut best: usize = 0;
    let mut i: usize = 1;
    while i < ts.len()
        invariant
            best < i <= ts@.len(),
            forall|j: int| 0 <= j < i ==> ts@[j].seeders <= ts@[best as int].seeders,
            forall|j: int| 0 <= j < best ==> ts@[j].seeders < ts@[best as int].seeders,
        decreases ts@.len() - i,
    {
        if ts[i].seeders > ts[best].seeders {
            best = i;
        }
        i = i + 1;
    }
    best
}

pub open spec fn is_ascii_digit(c: char) -> bool {
    '0' <= c && c <= '9'
}

/// A television-episode marker starting at position `i`, preceded by at
/// least one character: `S` or `E` followed by two digits, or the word
/// `Season` or `Episode`.
pub open spec fn tv_marker_at(s: Seq<char>, i: int) -> bool {
    &&& 1 <= i
    &&& ((i + 3 <= s.len() && (s[i] == 'S' || s[i] == 'E') && is_ascii_digit(s[i + 1])
        && is_ascii_digit(s[i + 2])) || (i + 6 <= s.len() && s.subrange(i, i + 6) == "Season"@)
        || (i + 7 <= s.len() && s.subrange(i, i + 7) == "Episode"@))
}

pub open spec fn has_tv_marker(s: Seq<char>) -> bool {
    exists|i: int| tv_marker_at(s, i)
}

/// The category name and Torznab id assigned to a torrent name.
pub open spec fn spec_category(name: Seq<char>) -> (Seq<char>, Seq<char>) {
    if has_tv_marker(name) {
        ("TV"@, "5000"@)
    } else if contains_seq(name, "1080p"@) || contains_seq(name, "720p"@) {
        ("Movies"@, "2000"@)
    } else if contains_seq(name, "MP3"@) || contains_seq(name, "FLAC"@) {
        ("Audio"@, "3000"@)
    } else if contains_seq(name, "PDF"@) || contains_seq(name, "EPUB"@) {
        ("Books"@, "7000"@)
    } else if contains_seq(name, "PC"@) || contains_seq(name, "MAC"@) {
        ("PC"@, "4000"@)
    } else if contains_seq(name, "XXX"@) {
        ("XXX"@, "6000"@)
    } else {
        ("Other"@, "8000"@)
    }
}

/// Whether a television marker occurs in `cs` (after at least one character).
fn find_tv_marker(cs: &Vec<char>) -> (r: bool)
    ensures
        r == has_tv_marker(cs@),
{
    proof {
        reveal_strlit("Season");
        reveal_strlit("Episode");
    }
    let season = str_chars("Season");
    let episode = str_chars("Episode");
    let n = cs.len();
    let mut i: usize = 1;
    while i < n
        invariant
            n == cs@.len(),
            1 <= i,
            season@ == "Season"@,
            episode@ == "Episode"@,
            season@.len() == 6,
            episode@.len() == 7,
            forall|k: int| 0 <= k < i ==> !tv_marker_at(cs@, k),
        decreases n - i,
    {
        if n - i >= 3 && (cs[i] == 'S' || cs[i] == 'E') && '0' <= cs[i + 1] && cs[i + 1] <= '9'
            && '0' <= cs[i + 2] && cs[i + 2] <= '9' {
            proof {
                assert(tv_marker_at(cs@, i as int));
            }
            return true;
        }
        if n - i >= 6 && match_at(cs, &season, i) {
            proof {
                assert(tv_marker_at(cs@, i as int));
            }
            return true;
        }
        if n - i >= 7 && match_at(cs, &episode, i) {
            proof {
                assert(tv_marker_at(cs@, i as int));
            }
            return true;
        }
        proof {
            assert(!tv_marker_at(cs@, i as int));
        }
        i = i + 1;
    }
    proof {
        assert(forall|k: int| !tv_marker_at(cs@, k));
    }
    false
}

impl Model {
    /// Classifies the torrent by lexical markers in its resolved name.
    pub fn get_category(&self) -> (r: (&'static str, &'static str))
        requires
            self.name is Some,
        ensures
            (r.0@, r.1@) == spec_category(self@.name->Some_0),
    {
        let name: &String = match &self.name {
            Some(n) => n,
            None => {
                proof {
                    assert(false);
                }
                unreached()
            },
        };
        let cs = str_chars(name.as_str());
        if find_tv_marker(&cs) {
            return ("TV", "5000");
        }
        let p1080 = str_chars("1080p");
        let p720 = str_chars("720p");
        if contains_subv(&cs, &p1080) || contains_subv(&cs, &p720) {
            return ("Movies", "2000");
        }
        let mp3 = str_chars("MP3");
        let flac = str_chars("FLAC");
        if contains_subv(&cs, &mp3) || contains_subv(&cs, &flac) {
            return ("Audio", "3000");
        }
        let pdf = str_chars("PDF");
        let epub = str_chars("EPUB");
        if contains_subv(&cs, &pdf) || contains_subv(&cs, &epub) {
            return ("Books", "7000");
        }
        let pc = str_chars("PC");
        let mac = str_chars("MAC");
        if contains_subv(&cs, &pc) || contains_subv(&cs, &mac) {
            return ("PC", "4000");
        }
        let xxx = str_chars("XXX");
        if contains_subv(&cs, &xxx) {
            return ("XXX", "6000");
        }
        ("Other", "8000")
    }
}

/// Whether `p` occurs anywhere in `t` (vector form, used by the classifier).
fn contains_subv(t: &Vec<char>, p: &Vec<char>) -> (r: bool)
    ensures
        r == contains_seq(t@, p@),
{
    crate::text::contains_sub(t, p)
}

} // verus!
