//! Verified core of a self-hosted BitTorrent indexer.
//!
//! The library holds the indexer's logic: the torrent store and its query
//! semantics, the stale-swarm state machine, the tracker registry with its
//! failure backoff, the BEP-15 UDP scrape wire format, the HTTP scrape
//! request and its bencoded response, the Torznab XML feeds, and the
//! scheduling decisions of the ingestion pipeline. Network and process I/O
//! live outside the library and hand it plain values.

pub mod apikey;
pub mod bencode;
pub mod config;
pub mod hexstr;
pub mod http_scrape;
pub mod laws;
pub mod misc_tasks;
pub mod search;
pub mod scheduler;
pub mod spider;
pub mod nsfw_filter;
pub mod stats;
pub mod store;
pub mod text;
pub mod torrent;
pub mod torznab;
pub mod trackers;
pub mod udp;
