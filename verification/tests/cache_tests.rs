use poe_api::cache::{cache_decision, store_entry, timestamp, Cache, CacheAction, CACHE_THRESHOLD};

#[test]
fn lookup_within_ttl_reuses_stored_payload() {
    let entry = store_entry("payload".to_string(), 1_000);
    let stored = Some(entry);
    assert_eq!(cache_decision(&stored, 1_000, CACHE_THRESHOLD), CacheAction::UseStored);
    assert_eq!(cache_decision(&stored, 1_000 + CACHE_THRESHOLD - 1, CACHE_THRESHOLD), CacheAction::UseStored);
}

#[test]
fn lookup_at_or_past_ttl_refreshes() {
    let stored = Some(store_entry("payload".to_string(), 1_000));
    assert_eq!(cache_decision(&stored, 1_000 + CACHE_THRESHOLD, CACHE_THRESHOLD), CacheAction::Refresh);
    assert_eq!(cache_decision(&stored, 1_000 + CACHE_THRESHOLD + 5, CACHE_THRESHOLD), CacheAction::Refresh);
}

#[test]
fn absent_entry_refreshes() {
    let stored: Option<Cache<String>> = None;
    assert_eq!(cache_decision(&stored, 0, CACHE_THRESHOLD), CacheAction::Refresh);
}

#[test]
fn entry_from_the_future_is_not_fresh() {
    let stored = Some(store_entry(7u32, 5_000));
    assert_eq!(cache_decision(&stored, 4_999, CACHE_THRESHOLD), CacheAction::Refresh);
}

#[test]
fn negative_fetch_time_is_not_fresh() {
    let stored = Some(Cache { fetch_time: -1, data: 7u32 });
    assert_eq!(cache_decision(&stored, 10, CACHE_THRESHOLD), CacheAction::Refresh);
}

#[test]
fn store_entry_records_the_refresh_time() {
    let entry = store_entry(vec![1u8, 2, 3], 123_456);
    assert_eq!(entry.fetch_time, 123_456);
    assert_eq!(entry.data, vec![1u8, 2, 3]);
}

#[test]
fn default_threshold_is_one_hour() {
    assert_eq!(CACHE_THRESHOLD, 3_600);
}

#[test]
fn timestamp_reads_a_plausible_clock() {
    let t = timestamp();
    // after 2020-01-01 and monotonically plausible across two reads
    assert!(t > 1_577_836_800);
    let t2 = timestamp();
    assert!(t2 >= t);
}

#[test]
fn refresh_then_lookup_round_trip() {
    // a refresh stores the payload; a lookup within the ttl returns it
    // without refreshing again
    let refreshed_at: u64 = 50_000;
    let entry = store_entry("snapshot".to_string(), refreshed_at);
    let stored = Some(entry);
    match cache_decision(&stored, refreshed_at + 10, CACHE_THRESHOLD) {
        CacheAction::UseStored => {
            assert_eq!(stored.unwrap().data, "snapshot");
        },
        CacheAction::Refresh => panic!("a fresh entry must be reused"),
    }
}
