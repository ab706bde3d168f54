use oxidized::store::Store;
use oxidized::scheduler::{
    TorrentService, should_give_up, should_delete_stale_row, build_observations,
};
use oxidized::trackers::{TorrentScrapeResponse, TorrentScrapeStats};
use oxidized::spider::{MagneticoDFile, MagneticoDTorrent, Spider, spider_insert_values};
use oxidized::nsfw_filter::NSFWFilter;
use oxidized::torznab::{TorznabQuery, generate_caps_response, generate_search_response, xml_escape_str};
use oxidized::config::{
    Settings, AppSettings, AuthSettings, DatabaseSettings, SettingsPatch, get_config,
};
use oxidized::apikey::{bearer_token, check_api_key, TorrentInput};
use oxidized::misc_tasks::MiscTasksService;

const HASH_A: &str = "AA00000000000000000000000000000000000001";
const HASH_B: &str = "BB00000000000000000000000000000000000002";

fn response_for(hash_upper: &str, seeders: i32, leechers: i32) -> TorrentScrapeResponse {
    TorrentScrapeResponse {
        stats: vec![(hash_upper.to_string(), TorrentScrapeStats { seeders, leechers })],
    }
}

#[test]
fn producer_marks_jobs_in_flight_and_skips_them_next_tick() {
    let mut store = Store::new(0);
    store.create_torrent(HASH_A.to_string(), 0).unwrap();
    store.create_torrent(HASH_B.to_string(), 0).unwrap();
    let mut service = TorrentService::new();
    let jobs = service.produce_info_jobs(&store);
    assert_eq!(jobs.len(), 2);
    assert!(service.is_in_flight(jobs[0].id));
    assert!(service.is_in_flight(jobs[1].id));
    let again = service.produce_info_jobs(&store);
    assert!(again.is_empty());
    service.remove_in_flight(jobs[0].id);
    let third = service.produce_info_jobs(&store);
    assert_eq!(third.len(), 1);
    assert_eq!(third[0].id, jobs[0].id);
}

#[test]
fn tracker_producer_chunks_by_ten() {
    let mut store = Store::new(0);
    for k in 0..23 {
        let hash = format!("{:040X}", k + 1);
        let row = store.create_torrent(hash, 0).unwrap();
        store.update_torrent_info(row.id, format!("t{}", k), 0, vec![], 1).unwrap();
    }
    let mut service = TorrentService::new();
    let chunks = service.produce_tracker_chunks(&store, 1_000_000);
    assert_eq!(chunks.len(), 3);
    assert_eq!(chunks[0].len(), 10);
    assert_eq!(chunks[1].len(), 10);
    assert_eq!(chunks[2].len(), 3);
    for chunk in &chunks {
        for row in chunk {
            assert!(service.is_in_flight(row.id));
        }
    }
    let chunks_again = service.produce_tracker_chunks(&store, 1_000_000);
    assert!(chunks_again.is_empty());
}

#[test]
fn give_up_policy_uses_thirty_days() {
    let month = 2_592_000;
    // A young never-resolved row survives its failed attempts.
    assert!(!should_give_up(None, 0, month));
    assert!(!should_give_up(None, 10, month + 5));
    // Once it is thirty days old, the next attempt abandons it.
    assert!(should_give_up(None, 0, month + 1));
    // A resolved row goes by its last resolution instant.
    assert!(!should_give_up(Some(0), 0, month));
    assert!(should_give_up(Some(0), 0, month + 1));
}

#[test]
fn stale_row_deletion_uses_three_days() {
    let day = 86_400;
    assert!(!should_delete_stale_row(None, 10 * day));
    assert!(!should_delete_stale_row(Some(7 * day), 10 * day));
    assert!(should_delete_stale_row(Some(7 * day), 10 * day + 1));
}

#[test]
fn observations_collect_hash_keyed_hits() {
    let responses = vec![
        ("tracker-x".to_string(), response_for(HASH_A, 5, 2)),
        ("tracker-y".to_string(), response_for(HASH_B, 9, 9)),
        ("tracker-z".to_string(), response_for(HASH_A, 3, 7)),
    ];
    let obs = build_observations(&HASH_A.to_lowercase(), &responses, 77);
    assert_eq!(obs.len(), 2);
    assert_eq!(obs[0].url, "tracker-x");
    assert_eq!(obs[0].seeders, 5);
    assert_eq!(obs[0].leechers, 2);
    assert_eq!(obs[0].last_scrape, 77);
    assert_eq!(obs[1].url, "tracker-z");
    assert_eq!(obs[1].seeders, 3);
}

#[test]
fn ingest_to_scrape_flow() {
    // A spider record arrives, resolves on insert, and a later scrape
    // updates its swarm counters.
    let record = MagneticoDTorrent {
        name: "Foo".to_string(),
        info_hash: HASH_A.to_lowercase(),
        files: vec![
            MagneticoDFile { size: 500_000, path: "a".to_string() },
            MagneticoDFile { size: 1_500_000, path: "b".to_string() },
        ],
    };
    let (size, files) = spider_insert_values(&record.files).unwrap();
    assert_eq!(size, 1);
    assert_eq!(files, vec!["a", "b"]);
    let mut store = Store::new(0);
    assert!(!store.exists_torrent_by_info_hash(&record.info_hash));
    let row = store
        .create_torrent_internal(record.info_hash.clone(), record.name.clone(), size, files, 100)
        .unwrap();
    assert_eq!(row.info_hash, HASH_A);
    assert_eq!(row.last_scrape, Some(100));
    let responses = vec![
        ("tracker-x".to_string(), response_for(HASH_A, 5, 2)),
        ("tracker-y".to_string(), response_for(HASH_A, 3, 7)),
    ];
    let obs = build_observations(&row.info_hash, &responses, 200);
    let updated = store.update_torrent_trackers(row.id, obs, 200).unwrap();
    assert_eq!(updated.seeders, 5);
    assert_eq!(updated.leechers, 2);
    assert_eq!(updated.last_tracker_scrape, Some(200));
    assert_eq!(updated.last_stale, None);
}

#[test]
fn spider_rejects_bad_sizes() {
    let files = vec![MagneticoDFile { size: -5, path: "a".to_string() }];
    assert!(spider_insert_values(&files).is_none());
}

#[test]
fn spider_binary_path_and_argument() {
    let spider = Spider::new("/srv/indexer".to_string());
    assert_eq!(spider.path, "/srv/indexer/magneticod");
    assert_eq!(spider.database_arg(), "--database=stdout://");
}

#[test]
fn nsfw_filter_matches_lowercased_substrings() {
    let mut filter = NSFWFilter::new(0);
    assert!(filter.needs_refresh(0));
    filter.set_words(vec!["BadWord".to_string()], 0);
    assert!(!filter.needs_refresh(86_400));
    assert!(filter.needs_refresh(86_401));
    assert!(filter.test("some badword torrent"));
    assert!(filter.test("SOME BADWORD TORRENT"));
    assert!(!filter.test("a clean name"));
    assert_eq!(filter.get_words(), vec!["BadWord"]);
}

#[test]
fn caps_document_is_fixed() {
    let caps = generate_caps_response();
    assert_eq!(
        caps,
        "<?xml version=\"1.0\" encoding=\"UTF-8\"?><caps><server version=\"1.0\" title=\"Oxidized\"/><limits max=\"100\" default=\"50\"/><searching><search available=\"yes\" supportedParams=\"q\"/></searching><categories><category id=\"8000\" name=\"Other\" description=\"Other\"><subcat id=\"8010\" name=\"Other/Misc\"/></category><category id=\"2000\" name=\"Movies\" description=\"Movies\"/><category id=\"5000\" name=\"TV\" description=\"TV\"><subcat id=\"5040\" name=\"TV/HD\"/><subcat id=\"5070\" name=\"TV/SD\"/></category></categories></caps>"
    );
}

#[test]
fn search_feed_lists_items_with_escapes() {
    let mut store = Store::new(0);
    let row = store.create_torrent(HASH_A.to_string(), 0).unwrap();
    store
        .update_torrent_info(row.id, "Tom & Jerry".to_string(), 3, vec!["a".to_string()], 7)
        .unwrap();
    let rows = store.search_torrents_by_name(Some("tom".to_string()), None, None);
    let feed = generate_search_response("indexer.example:8000", &rows);
    assert!(feed.starts_with("<?xml version=\"1.0\" encoding=\"utf-8\"?><rss version=\"2.0\""));
    assert!(feed.contains("<title>Tom &amp; Jerry</title>"));
    assert!(feed.contains(&format!(
        "<link>https://itorrents.org/torrent/{}.torrent</link>",
        HASH_A
    )));
    assert!(feed.contains("<description>Total Size: 3 MB</description>"));
    assert!(feed.contains("<pubDate>0</pubDate>"));
    assert!(feed.contains("<size>3000000</size>"));
    assert!(feed.contains("<torznab:attr name=\"files\" value=\"1\"/>"));
    assert!(feed.contains("<torznab:attr name=\"peers\" value=\"0\"/>"));
    assert!(feed.contains("<torznab:attr name=\"category\" value=\"8010\"/>"));
    assert!(feed.ends_with("</item></channel></rss>"));
    let query = TorznabQuery { t: Some("search".to_string()), q: None, offset: None, limit: None };
    assert_eq!(query.t.as_deref(), Some("search"));
}

#[test]
fn xml_escaping_covers_markup() {
    assert_eq!(xml_escape_str("a&b<c>d'e\"f"), "a&amp;b&lt;c&gt;d&apos;e&quot;f");
}

#[test]
fn category_classification_by_name_markers() {
    let mut store = Store::new(0);
    let row = store.create_torrent(HASH_A.to_string(), 0).unwrap();
    let tv = store
        .update_torrent_info(row.id, "Show S01E02".to_string(), 0, vec![], 1)
        .unwrap();
    assert_eq!(tv.get_category(), ("TV", "5000"));
    let movie = store
        .update_torrent_info(row.id, "Film 1080p".to_string(), 0, vec![], 1)
        .unwrap();
    assert_eq!(movie.get_category(), ("Movies", "2000"));
    let audio = store
        .update_torrent_info(row.id, "Album FLAC".to_string(), 0, vec![], 1)
        .unwrap();
    assert_eq!(audio.get_category(), ("Audio", "3000"));
    let other = store
        .update_torrent_info(row.id, "plain name".to_string(), 0, vec![], 1)
        .unwrap();
    assert_eq!(other.get_category(), ("Other", "8000"));
}

#[test]
fn config_merge_applies_precedence() {
    let defaults = Settings {
        database: DatabaseSettings { url: "sqlite://default".to_string(), sqlx_logging: false },
        app: AppSettings {
            spider: true,
            update_info: true,
            update_trackers: true,
            clean: false,
            filter_nsfw: false,
        },
        auth: AuthSettings { apikey: None },
    };
    let file = SettingsPatch {
        database_url: Some("sqlite://file".to_string()),
        database_sqlx_logging: None,
        app_spider: Some(false),
        app_update_info: None,
        app_update_trackers: None,
        app_clean: None,
        app_filter_nsfw: None,
        auth_apikey: Some("k1".to_string()),
    };
    let env = SettingsPatch {
        database_url: None,
        database_sqlx_logging: Some(true),
        app_spider: None,
        app_update_info: None,
        app_update_trackers: None,
        app_clean: Some(true),
        app_filter_nsfw: None,
        auth_apikey: Some("k2".to_string()),
    };
    let merged = get_config(defaults, Some(file), Some(env));
    assert_eq!(merged.database.url, "sqlite://file");
    assert!(merged.database.sqlx_logging);
    assert!(!merged.app.spider);
    assert!(merged.app.update_info);
    assert!(merged.app.clean);
    assert!(!merged.app.filter_nsfw);
    assert_eq!(merged.auth.apikey.as_deref(), Some("k2"));
}

#[test]
fn api_key_checks() {
    assert_eq!(bearer_token("Bearer secret-key"), "secret-key");
    let input = TorrentInput { info_hash: "aa00000000000000000000000000000000000001".to_string() };
    assert_eq!(input.info_hash.len(), 40);
    assert_eq!(bearer_token("secret-key"), "secret-key");
    assert!(check_api_key(Some("K".to_string()), Some("K".to_string())));
    assert!(!check_api_key(Some("wrong".to_string()), Some("K".to_string())));
    // A missing key is refused on either side, even with no key configured.
    assert!(!check_api_key(None, Some("K".to_string())));
    assert!(!check_api_key(None, None));
    assert!(!check_api_key(Some("K".to_string()), None));
}

#[test]
fn janitor_constructs() {
    let janitor = MiscTasksService::new();
    assert_eq!(janitor.vacuum_statement(), "VACUUM torrents");
}
