use oxidized::udp::{
    encode_connect_request, encode_scrape_request, parse_connect_response, parse_scrape_response,
};
use oxidized::http_scrape::{percent_encode, build_scrape_url};
use oxidized::trackers::{
    TorrentTrackers, TorrentTracker, TrackerScheme, classify_scheme, tracker_host,
    build_udp_stats, build_http_stats,
};
use oxidized::bencode::parse_scrape_files;
use oxidized::hexstr::hex_decode;

const TID: [u8; 4] = [0, 0, 0, 0];

#[test]
fn connect_request_layout_matches_wire_format() {
    let tid = TID.to_vec();
    let req = encode_connect_request(&tid);
    assert_eq!(req.len(), 16);
    assert_eq!(&req[0..8], &[0x00, 0x00, 0x04, 0x17, 0x27, 0x10, 0x19, 0x80]);
    assert_eq!(&req[8..12], &[0, 0, 0, 0]);
    assert_eq!(&req[12..16], &TID);
}

#[test]
fn scrape_request_carries_hashes_in_order() {
    let tid = TID.to_vec();
    let cid = vec![1, 2, 3, 4, 5, 6, 7, 8];
    let h1 = hex_decode("AA00000000000000000000000000000000000001").unwrap();
    let h2 = hex_decode("BB00000000000000000000000000000000000002").unwrap();
    let req = encode_scrape_request(&cid, &tid, &vec![h1.clone(), h2.clone()]);
    assert_eq!(req.len(), 16 + 40);
    assert_eq!(&req[0..8], cid.as_slice());
    assert_eq!(&req[8..12], &[0, 0, 0, 2]);
    assert_eq!(&req[12..16], &TID);
    assert_eq!(&req[16..36], h1.as_slice());
    assert_eq!(&req[36..56], h2.as_slice());
}

#[test]
fn connect_response_round_trip() {
    let tid = TID.to_vec();
    let mut resp = vec![0, 0, 0, 0, 0, 0, 0, 0];
    resp.extend_from_slice(&[9, 8, 7, 6, 5, 4, 3, 2]);
    let cid = parse_connect_response(&resp, &tid).unwrap();
    assert_eq!(cid, vec![9, 8, 7, 6, 5, 4, 3, 2]);
    // Wrong action.
    let bad = vec![0, 0, 0, 1, 0, 0, 0, 0, 9, 8, 7, 6, 5, 4, 3, 2];
    assert!(parse_connect_response(&bad, &tid).is_none());
    // Too short.
    assert!(parse_connect_response(&vec![0, 0, 0, 0], &tid).is_none());
}

#[test]
fn scrape_response_triples_parse_big_endian() {
    let tid = TID.to_vec();
    let mut resp = vec![0, 0, 0, 2, 0, 0, 0, 0];
    resp.extend_from_slice(&[0, 0, 0, 5]); // seeders 5
    resp.extend_from_slice(&[0, 0, 1, 0]); // completed 256
    resp.extend_from_slice(&[0, 0, 0, 2]); // leechers 2
    resp.extend_from_slice(&[0xFF, 0xFF, 0xFF, 0xFF]); // seeders -1
    resp.extend_from_slice(&[0, 0, 0, 0]);
    resp.extend_from_slice(&[0, 0, 0, 7]);
    let triples = parse_scrape_response(&resp, &tid).unwrap();
    assert_eq!(triples, vec![(5, 256, 2), (-1, 0, 7)]);
    let wrong_action = vec![0, 0, 0, 0, 0, 0, 0, 0];
    assert!(parse_scrape_response(&wrong_action, &tid).is_none());
}

#[test]
fn udp_stats_key_by_uppercase_hex() {
    let h = hex_decode("aa00000000000000000000000000000000000001").unwrap();
    let resp = build_udp_stats(&vec![h], &vec![(5, 9, 2)]);
    assert_eq!(resp.stats.len(), 1);
    assert_eq!(resp.stats[0].0, "AA00000000000000000000000000000000000001");
    assert_eq!(resp.stats[0].1.seeders, 5);
    assert_eq!(resp.stats[0].1.leechers, 2);
    let hit = resp.get(&"AA00000000000000000000000000000000000001".to_string());
    assert_eq!(hit.unwrap().seeders, 5);
    assert!(resp.get(&"BB00000000000000000000000000000000000002".to_string()).is_none());
}

#[test]
fn percent_encoding_follows_form_rules() {
    assert_eq!(percent_encode(&vec![0x20]), "+");
    assert_eq!(percent_encode(&vec![b'a', b'Z', b'0', b'*', b'-', b'.', b'_']), "aZ0*-._");
    assert_eq!(percent_encode(&vec![0x00, 0xFF, 0x2F]), "%00%FF%2F");
}

#[test]
fn scrape_url_lists_every_hash() {
    let h1 = vec![0x01u8];
    let h2 = vec![0xFFu8];
    let url = build_scrape_url("http://t.example:80", &vec![h1, h2]);
    assert_eq!(url, "http://t.example:80/scrape?info_hash=%01&info_hash=%FF");
    let bare = build_scrape_url("http://t.example", &vec![]);
    assert_eq!(bare, "http://t.example/scrape");
}

#[test]
fn scheme_classification_follows_prefix() {
    assert_eq!(classify_scheme("udp://t.example/announce"), TrackerScheme::Udp);
    assert_eq!(classify_scheme("http://t.example/announce"), TrackerScheme::Http);
    assert_eq!(classify_scheme("https://t.example/announce"), TrackerScheme::Https);
    assert_eq!(classify_scheme("ws://t.example"), TrackerScheme::Ws);
    assert_eq!(classify_scheme("gopher://t.example"), TrackerScheme::Other);
    assert_eq!(classify_scheme("udp"), TrackerScheme::Other);
}

#[test]
fn tracker_host_strips_scheme_and_announce() {
    assert_eq!(tracker_host("udp://t.example:6969/announce"), "t.example:6969");
    assert_eq!(tracker_host("t.example:6969"), "t.example:6969");
}

#[test]
fn registry_refresh_policy() {
    let mut reg = TorrentTrackers::new(1000);
    assert!(reg.needs_refresh(1000)); // empty
    reg.set_trackers(vec![TorrentTracker { uri: "udp://a/announce".to_string() }], 1000);
    assert!(!reg.needs_refresh(1030));
    assert!(!reg.needs_refresh(1060));
    assert!(reg.needs_refresh(1061));
    assert_eq!(reg.tracker_uris(), vec!["udp://a/announce"]);
}

#[test]
fn backoff_skips_after_three_failures_and_clears_on_success() {
    let uri = "udp://flaky/announce".to_string();
    let mut reg = TorrentTrackers::new(0);
    assert!(reg.should_attempt(&uri, 0));
    reg.record_failure(uri.clone(), 10);
    assert!(reg.should_attempt(&uri, 10)); // count 1: proceed
    reg.record_failure(uri.clone(), 20);
    assert!(reg.should_attempt(&uri, 20)); // count 2: proceed
    reg.record_failure(uri.clone(), 30);
    assert!(!reg.should_attempt(&uri, 59)); // count 3: 30 s backoff
    assert!(reg.should_attempt(&uri, 60));
    reg.record_failure(uri.clone(), 60);
    assert!(!reg.should_attempt(&uri, 119)); // count 4: 60 s
    assert!(reg.should_attempt(&uri, 120));
    reg.record_failure(uri.clone(), 120);
    assert!(!reg.should_attempt(&uri, 239)); // count 5: 120 s
    reg.record_failure(uri.clone(), 240);
    assert!(!reg.should_attempt(&uri, 479)); // count 6: 240 s
    reg.record_failure(uri.clone(), 480);
    assert!(!reg.should_attempt(&uri, 779)); // count 7: 300 s
    assert!(reg.should_attempt(&uri, 780));
    reg.record_success(&uri);
    assert!(reg.should_attempt(&uri, 781)); // entry removed entirely
    reg.record_failure(uri.clone(), 800);
    assert!(reg.should_attempt(&uri, 800)); // the count restarted at one
}

#[test]
fn bencoded_scrape_response_parses() {
    // d5:filesd4:AAAAd8:completei5e10:incompletei2eeee with a 4-byte key
    let body = b"d5:filesd4:AAAAd8:completei5e10:incompletei2eeee".to_vec();
    let files = parse_scrape_files(&body).unwrap();
    assert_eq!(files.len(), 1);
    assert_eq!(files[0].0, b"AAAA".to_vec());
    assert_eq!(files[0].1, 5);
    assert_eq!(files[0].2, 2);
    let resp = build_http_stats(&files);
    assert_eq!(resp.stats[0].0, "41414141");
    assert_eq!(resp.stats[0].1.seeders, 5);
    assert_eq!(resp.stats[0].1.leechers, 2);
}

#[test]
fn bencoded_scrape_skips_unknown_keys() {
    let body =
        b"d8:intervali1800e5:filesd2:ABd10:downloadedi9e8:completei3e10:incompletei4eeee".to_vec();
    let files = parse_scrape_files(&body).unwrap();
    assert_eq!(files.len(), 1);
    assert_eq!(files[0].1, 3);
    assert_eq!(files[0].2, 4);
}

#[test]
fn bencoded_scrape_rejects_malformed_input() {
    assert!(parse_scrape_files(&b"".to_vec()).is_none());
    assert!(parse_scrape_files(&b"le".to_vec()).is_none());
    assert!(parse_scrape_files(&b"d5:files".to_vec()).is_none());
    assert!(parse_scrape_files(&b"d5:filesd2:ABd8:completei3eeee".to_vec()).is_none());
    // An empty files dictionary is a valid, empty response.
    assert_eq!(parse_scrape_files(&b"d5:filesdee".to_vec()).unwrap().len(), 0);
}

#[test]
fn bencoded_negative_and_large_counts() {
    let body = b"d5:filesd2:ABd8:completei-1e10:incompletei9999999999eeee".to_vec();
    let files = parse_scrape_files(&body).unwrap();
    assert_eq!(files[0].1, -1);
    assert_eq!(files[0].2, 9_999_999_999);
    let resp = build_http_stats(&files);
    assert_eq!(resp.stats[0].1.seeders, -1);
    assert_eq!(resp.stats[0].1.leechers, i32::MAX);
}
