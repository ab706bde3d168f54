//! The lexical content filter: a cached bad-word list consulted before a
//! spider row is persisted. Fetching the list is outside work; the filter
//! holds the cache and answers membership queries.

use vstd::prelude::*;
use crate::text::{contains_seq, lower_seq, to_lower, str_chars, contains_sub, string_views};

verus! {

/// The cached bad-word list with its last refresh instant.
pub struct NSFWFilter {
    words: Vec<String>,
    last_updated: i64,
}

#[verifier::ext_equal]
pub ghost struct FilterV {
    pub words: Seq<Seq<char>>,
    pub last_updated: int,
}

impl View for NSFWFilter {
    type V = FilterV;

    closed spec fn view(&self) -> FilterV {
        FilterV { words: string_views(self.words@), last_updated: self.last_updated as int }
    }
}

/// How long a fetched word list stays fresh.
pub const WORDS_CACHE_SECS: i64 = 86400;

/// Whether some listed word occurs in the text, both lowercased.
pub open spec fn spec_filter_hit(words: Seq<Seq<char>>, text: Seq<char>) -> bool {
    exists|k: int|
        0 <= k < words.len() && contains_seq(lower_seq(text), lower_seq(#[trigger] words[k]))
}

impl NSFWFilter {
    /// An empty filter whose first use asks for a refresh.
    pub fn new(now: i64) -> (r: NSFWFilter)
        ensures
            r@.words == Seq::<Seq<char>>::empty(),
            r@.last_updated == now as int,
    {
        let r = NSFWFilter { words: Vec::new(), last_updated: now };
        proof {
            assert(r@.words =~= Seq::<Seq<char>>::empty());
        }
        r
    }

    /// Whether the list must be fetched again before use: it is more than
    /// a day old, or empty.
    pub fn needs_refresh(&self, now: i64) -> (r: bool)
        ensures
            r == (now as int - self@.last_updated > WORDS_CACHE_SECS as int || self@.words.len()
                == 0),
    {
        let age = (now as i128) - (self.last_updated as i128);
        age > (WORDS_CACHE_SECS as i128) || self.words.len() == 0
    }

    /// Replaces the cached list with a freshly fetched one.
    pub fn set_words(&mut self, words: Vec<String>, now: i64)
        ensures
            final(self)@.words == string_views(words@),
            final(self)@.last_updated == now as int,
    {
        self.words = words;
        self.last_updated = now;
    }

    /// The cached words, for the caller that refreshes the list.
    pub fn get_words(&self) -> (r: Vec<String>)
        ensures
            string_views(r@) == self@.words,
    {
        let n = self.words.len();
        let mut out: Vec<String> = Vec::new();
        let mut i: usize = 0;
        while i < n
            invariant
                n == self.words@.len(),
                i <= n,
                out@.len() == i,
                forall|k: int| 0 <= k < i ==> (#[trigger] out@[k])@ == self.words@[k]@,
            decreases n - i,
        {
            out.push(self.words[i].clone());
            i = i + 1;
        }
        proof {
            assert(string_views(out@) =~= self@.words);
        }
        out
    }

    /// Whether the text hits the filter: true exactly when some listed
    /// word, lowercased, occurs in the lowercased text.
    pub fn test(&self, text: &str) -> (r: bool)
        ensures
            r == spec_filter_hit(self@.words, text@),
    {
        let lowered = to_lower(text);
        let tc = str_chars(lowered.as_str());
        let n = self.words.len();
        let mut k: usize = 0;
        while k < n
            invariant
                n == self.words@.len(),
                tc@ == lower_seq(text@),
                k <= n,
                forall|j: int|
                    0 <= j < k ==> !contains_seq(
                        lower_seq(text@),
                        lower_seq(#[trigger] self@.words[j]),
                    ),
            decreases n - k,
        {
            let lw = to_lower(self.words[k].as_str());
            let wc = str_chars(lw.as_str());
            if contains_sub(&tc, &wc) {
                proof {
                    assert(contains_seq(lower_seq(text@), lower_seq(self@.words[k as int])));
                }
                return true;
            }
            k = k + 1;
        }
        false
    }
}

} // verus!
