use oxidized::store::{Store, StoreError, StatAction};
use oxidized::stats::StatType;
use oxidized::torrent::{Tracker, next_last_stale, size_mb_checked};

const HASH_A: &str = "AA00000000000000000000000000000000000001";
const HASH_B: &str = "BB00000000000000000000000000000000000002";

fn obs(url: &str, seeders: i32, leechers: i32, now: i64) -> Tracker {
    Tracker { url: url.to_string(), seeders, leechers, last_scrape: now }
}

#[test]
fn insert_is_case_insensitive_on_lookup() {
    let mut store = Store::new(1000);
    store.create_torrent("aa00000000000000000000000000000000000001".to_string(), 1000).unwrap();
    assert!(store.exists_torrent_by_info_hash(HASH_A));
    assert!(store.exists_torrent_by_info_hash("aa00000000000000000000000000000000000001"));
    assert!(store.exists_torrent_by_info_hash("Aa00000000000000000000000000000000000001"));
    assert!(!store.exists_torrent_by_info_hash(HASH_B));
}

#[test]
fn duplicate_insert_loses() {
    let mut store = Store::new(0);
    store.create_torrent(HASH_A.to_string(), 0).unwrap();
    let again = store.create_torrent(HASH_A.to_lowercase(), 5);
    assert_eq!(again.err().unwrap(), StoreError::Duplicate);
    let raw = store.get_raw_stats(5);
    assert_eq!(raw.torrents, 1);
}

#[test]
fn fresh_row_has_defaults() {
    let mut store = Store::new(0);
    let row = store.create_torrent(HASH_A.to_string(), 77).unwrap();
    assert_eq!(row.id, 1);
    assert_eq!(row.info_hash, HASH_A);
    assert!(row.name.is_none());
    assert_eq!(row.size, 0);
    assert!(row.files.is_empty());
    assert_eq!(row.added_at, 77);
    assert!(row.last_scrape.is_none());
    assert!(row.last_tracker_scrape.is_none());
    assert!(row.last_stale.is_none());
}

#[test]
fn bulk_insert_rejects_batch_duplicates() {
    let mut store = Store::new(0);
    let dup = store.create_torrents(
        vec![HASH_A.to_string(), HASH_A.to_lowercase()],
        0,
    );
    assert_eq!(dup.err().unwrap(), StoreError::Duplicate);
    assert_eq!(store.get_raw_stats(0).torrents, 0);
    store
        .create_torrents(vec![HASH_A.to_string(), HASH_B.to_string()], 0)
        .unwrap();
    assert_eq!(store.get_raw_stats(0).torrents, 2);
}

#[test]
fn update_info_moves_row_between_queues() {
    let mut store = Store::new(0);
    let row = store.create_torrent(HASH_A.to_string(), 0).unwrap();
    assert_eq!(store.find_torrent_queue_info(None).len(), 1);
    store
        .update_torrent_info(row.id, "Foo".to_string(), 3, vec!["a".to_string()], 10)
        .unwrap();
    assert_eq!(store.find_torrent_queue_info(None).len(), 0);
    let queued = store.find_torrent_queue_trackers(None, 10);
    assert_eq!(queued.len(), 1);
    assert_eq!(queued[0].name.as_deref(), Some("Foo"));
    assert_eq!(queued[0].last_scrape, Some(10));
    let missing = store.update_torrent_info(999, "X".to_string(), 0, vec![], 10);
    assert_eq!(missing.err().unwrap(), StoreError::NotFound);
}

#[test]
fn update_trackers_stores_best_observation_first_on_tie() {
    let mut store = Store::new(0);
    let row = store.create_torrent(HASH_A.to_string(), 0).unwrap();
    store.update_torrent_info(row.id, "Foo".to_string(), 1, vec![], 1).unwrap();
    let updated = store
        .update_torrent_trackers(
            row.id,
            vec![obs("tracker-x", 5, 2, 50), obs("tracker-y", 3, 7, 50), obs("tracker-z", 5, 9, 50)],
            50,
        )
        .unwrap();
    assert_eq!(updated.seeders, 5);
    assert_eq!(updated.leechers, 2);
    assert_eq!(updated.last_tracker_scrape, Some(50));
    assert!(updated.last_stale.is_none());
    assert_eq!(updated.trackers.0.len(), 3);
    assert_eq!(updated.trackers.0[0].url, "tracker-x");
}

#[test]
fn stale_marker_follows_observation_run() {
    let mut store = Store::new(0);
    let row = store.create_torrent(HASH_A.to_string(), 0).unwrap();
    store.update_torrent_info(row.id, "Foo".to_string(), 1, vec![], 1).unwrap();
    let s1 = store
        .update_torrent_trackers(row.id, vec![obs("t", 0, 0, 10)], 10)
        .unwrap();
    assert_eq!(s1.last_stale, Some(10));
    let s2 = store
        .update_torrent_trackers(row.id, vec![obs("t", 0, 0, 20)], 20)
        .unwrap();
    assert_eq!(s2.last_stale, Some(10));
    let s3 = store
        .update_torrent_trackers(row.id, vec![obs("t", 1, 0, 30)], 30)
        .unwrap();
    assert_eq!(s3.last_stale, None);
    let s4 = store
        .update_torrent_trackers(row.id, vec![obs("t", 0, 0, 40)], 40)
        .unwrap();
    assert_eq!(s4.last_stale, Some(40));
}

#[test]
fn next_last_stale_transitions() {
    let s1 = next_last_stale(None, 0, 0, 11);
    assert_eq!(s1, Some(11));
    assert_eq!(next_last_stale(s1, 0, 0, 22), Some(11));
    assert_eq!(next_last_stale(Some(11), 1, 0, 33), None);
    assert_eq!(next_last_stale(None, 0, 3, 44), None);
}

#[test]
fn size_aggregation_truncates_per_file() {
    assert_eq!(size_mb_checked(&vec![1_999_999, 2_000_001]), Some(3));
    assert_eq!(size_mb_checked(&vec![]), Some(0));
    assert_eq!(size_mb_checked(&vec![999_999]), Some(0));
    assert_eq!(size_mb_checked(&vec![-1]), None);
    assert_eq!(size_mb_checked(&vec![i64::MAX, i64::MAX]), None);
}

#[test]
fn queue_info_skips_ignored_ids() {
    let mut store = Store::new(0);
    let a = store.create_torrent(HASH_A.to_string(), 0).unwrap();
    let b = store.create_torrent(HASH_B.to_string(), 0).unwrap();
    let all = store.find_torrent_queue_info(None);
    assert_eq!(all.len(), 2);
    let rest = store.find_torrent_queue_info(Some(vec![a.id]));
    assert_eq!(rest.len(), 1);
    assert_eq!(rest[0].id, b.id);
    let none = store.find_torrent_queue_info(Some(vec![a.id, b.id]));
    assert!(none.is_empty());
}

#[test]
fn queue_trackers_orders_by_staleness_absent_first() {
    let mut store = Store::new(0);
    let a = store.create_torrent(HASH_A.to_string(), 0).unwrap();
    let b = store.create_torrent(HASH_B.to_string(), 0).unwrap();
    let c = store
        .create_torrent("CC00000000000000000000000000000000000003".to_string(), 0)
        .unwrap();
    let now = 1_000_000;
    store.update_torrent_info(a.id, "A".to_string(), 0, vec![], 1).unwrap();
    store.update_torrent_info(b.id, "B".to_string(), 0, vec![], 1).unwrap();
    store.update_torrent_info(c.id, "C".to_string(), 0, vec![], 1).unwrap();
    store.update_torrent_trackers(a.id, vec![obs("t", 1, 1, 5)], 5).unwrap();
    store.update_torrent_trackers(b.id, vec![obs("t", 1, 1, 3)], 3).unwrap();
    let queued = store.find_torrent_queue_trackers(None, now);
    assert_eq!(queued.len(), 3);
    assert_eq!(queued[0].id, c.id);
    assert_eq!(queued[1].id, b.id);
    assert_eq!(queued[2].id, a.id);
    let fresh = store.find_torrent_queue_trackers(None, 6);
    assert_eq!(fresh.len(), 1);
    assert_eq!(fresh[0].id, c.id);
}

#[test]
fn mark_stale_touches_only_dead_unmarked_rows() {
    let mut store = Store::new(0);
    let a = store.create_torrent(HASH_A.to_string(), 0).unwrap();
    let b = store.create_torrent(HASH_B.to_string(), 0).unwrap();
    store.update_torrent_info(a.id, "A".to_string(), 0, vec![], 1).unwrap();
    store.update_torrent_info(b.id, "B".to_string(), 0, vec![], 1).unwrap();
    store.update_torrent_trackers(b.id, vec![obs("t", 4, 0, 2)], 2).unwrap();
    store.mark_stale(99);
    let ra = store.find_torrent_by_id(a.id).unwrap();
    let rb = store.find_torrent_by_id(b.id).unwrap();
    assert_eq!(ra.last_stale, Some(99));
    assert_eq!(rb.last_stale, None);
}

#[test]
fn delete_stale_removes_expired_runs() {
    let mut store = Store::new(0);
    let a = store.create_torrent(HASH_A.to_string(), 0).unwrap();
    let b = store.create_torrent(HASH_B.to_string(), 0).unwrap();
    store.update_torrent_info(a.id, "A".to_string(), 0, vec![], 1).unwrap();
    store.update_torrent_info(b.id, "B".to_string(), 0, vec![], 1).unwrap();
    let day = 86_400;
    store.update_torrent_trackers(a.id, vec![obs("t", 0, 0, 0)], 0).unwrap();
    store.update_torrent_trackers(b.id, vec![obs("t", 0, 0, 2 * day)], 2 * day).unwrap();
    store.delete_stale(4 * day);
    assert!(store.find_torrent_by_id(a.id).is_none());
    assert!(store.find_torrent_by_id(b.id).is_some());
}

#[test]
fn delete_torrent_is_idempotent_on_missing_ids() {
    let mut store = Store::new(0);
    let a = store.create_torrent(HASH_A.to_string(), 0).unwrap();
    store.delete_torrent(a.id);
    assert!(store.find_torrent_by_id(a.id).is_none());
    store.delete_torrent(a.id);
    assert_eq!(store.get_raw_stats(0).torrents, 0);
}

#[test]
fn delete_torrents_removes_listed_ids() {
    let mut store = Store::new(0);
    let a = store.create_torrent(HASH_A.to_string(), 0).unwrap();
    let b = store.create_torrent(HASH_B.to_string(), 0).unwrap();
    store.delete_torrents(vec![a.id, 999]);
    assert!(store.find_torrent_by_id(a.id).is_none());
    assert!(store.find_torrent_by_id(b.id).is_some());
}

#[test]
fn pagination_slices_in_id_order() {
    let mut store = Store::new(0);
    for k in 0..5 {
        let hash = format!("{:040X}", k + 1);
        store.create_torrent(hash, 0).unwrap();
    }
    let (page1, pages) = store.find_torrents_in_page(1, 2);
    assert_eq!(pages, 3);
    assert_eq!(page1.len(), 2);
    assert_eq!(page1[0].id, 1);
    let (page3, _) = store.find_torrents_in_page(3, 2);
    assert_eq!(page3.len(), 1);
    assert_eq!(page3[0].id, 5);
    let (beyond, _) = store.find_torrents_in_page(4, 2);
    assert!(beyond.is_empty());
    let (empty, zero_pages) = Store::new(0).find_torrents_in_page(1, 10);
    assert!(empty.is_empty());
    assert_eq!(zero_pages, 0);
}

#[test]
fn search_by_name_is_case_insensitive_substring() {
    let mut store = Store::new(0);
    let a = store.create_torrent(HASH_A.to_string(), 0).unwrap();
    let b = store.create_torrent(HASH_B.to_string(), 0).unwrap();
    store
        .update_torrent_info(a.id, "100% Free Linux ISO".to_string(), 1, vec![], 1)
        .unwrap();
    store
        .update_torrent_info(b.id, "Paid Linux ISO".to_string(), 1, vec![], 1)
        .unwrap();
    let hits = store.search_torrents_by_name(Some("free linux".to_string()), None, None);
    assert_eq!(hits.len(), 1);
    assert_eq!(hits[0].id, a.id);
    let all = store.search_torrents_by_name(Some("linux".to_string()), None, None);
    assert_eq!(all.len(), 2);
    let offset = store.search_torrents_by_name(Some("linux".to_string()), Some(1), None);
    assert_eq!(offset.len(), 1);
    assert_eq!(offset[0].id, b.id);
    let limited = store.search_torrents_by_name(Some("linux".to_string()), None, Some(1));
    assert_eq!(limited.len(), 1);
    assert_eq!(limited[0].id, a.id);
    let escaped = store.search_torrents_by_name(Some("100% free".to_string()), None, None);
    assert_eq!(escaped.len(), 1);
    let miss = store.search_torrents_by_name(Some("100% paid".to_string()), None, None);
    assert!(miss.is_empty());
}

#[test]
fn stats_reconcile_after_two_minutes() {
    let mut store = Store::new(0);
    store.create_torrent(HASH_A.to_string(), 0).unwrap();
    // Within the window the stored counters answer.
    let fresh = store.get_stats(100);
    assert_eq!(fresh.torrents, 1);
    assert_eq!(fresh.queue.info, 1);
    // Make the stored counters drift, then let the window lapse.
    store.update_stat(StatType::TotalTorrents, StatAction::Inc, Some(10));
    let drifted = store.get_stats(100);
    assert_eq!(drifted.torrents, 11);
    let reconciled = store.get_stats(130);
    assert_eq!(reconciled.torrents, 1);
    assert_eq!(reconciled.scraped, 0);
    assert_eq!(reconciled.queue.info, 1);
    assert_eq!(reconciled.queue.trackers, 0);
    assert_eq!(reconciled.stale, 0);
    // The write-back refreshed the window.
    let again = store.get_stats(160);
    assert_eq!(again.torrents, 1);
}

#[test]
fn counters_track_mutations() {
    let mut store = Store::new(0);
    let a = store.create_torrent(HASH_A.to_string(), 0).unwrap();
    let stats = store.get_stats(1);
    assert_eq!(stats.torrents, 1);
    assert_eq!(stats.queue.info, 1);
    assert_eq!(stats.queue.trackers, 0);
    store.update_torrent_info(a.id, "A".to_string(), 0, vec![], 1).unwrap();
    let stats = store.get_stats(2);
    assert_eq!(stats.queue.info, 0);
    assert_eq!(stats.queue.trackers, 1);
    store.delete_torrent(a.id);
    let stats = store.get_stats(3);
    assert_eq!(stats.torrents, 0);
}

#[test]
fn error_messages_name_the_failure() {
    assert_eq!(StoreError::NotFound.message(), "Cannot find torrent.");
    assert_eq!(StoreError::Duplicate.message(), "Torrent already exists.");
}
