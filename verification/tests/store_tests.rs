//! Tests of the table semantics: round trips, overwrite behaviour,
//! absence, and the sorted / filtered / paginated listing.

use spanner_kv::key::UuidKey;
use spanner_kv::sort::SortOrder;
use spanner_kv::store::{KvStore, ListResult};

fn key(s: &str) -> UuidKey {
    UuidKey::parse(s).expect("valid uuid")
}

fn list_keys(r: &ListResult) -> Vec<String> {
    r.entries.iter().map(|e| e.key.clone()).collect()
}

#[test]
fn test_upsert_and_read() {
    let mut store = KvStore::new();
    let id = key("550e8400-e29b-41d4-a716-446655440000");
    let doc = "{\"name\":\"test document\",\"value\":42,\"nested\":{\"key\":\"value\"}}";
    store.upsert(&id, doc, 100);
    let got = store.read(&id).expect("Should find the document");
    assert_eq!(got, doc, "Retrieved data should match inserted data");

    let missing = key("00000000-0000-0000-0000-00000000beef");
    assert!(
        store.read(&missing).is_none(),
        "Should not find non-existent document"
    );

    let updated = "{\"name\":\"updated document\",\"value\":100}";
    store.upsert(&id, updated, 200);
    let got = store.read(&id).expect("Should find the updated document");
    assert_eq!(got, updated, "Retrieved data should match updated data");
}

#[test]
fn test_json_round_trip() {
    let mut store = KvStore::new();
    let id = key("0184f2a0-9a23-7cc1-8ffb-00b0a9e1a2b3");
    let doc = "{\"string\":\"hello\",\"number\":123,\"boolean\":true,\"null\":null,\"array\":[1,2,3],\"nested_object\":{\"deep\":{\"value\":45}},\"unicode\":\"caf\u{e9} \u{2713} \u{65e5}\u{672c}\"}";
    store.upsert(&id, doc, 7);
    let got = store.read(&id).expect("document present");
    let sent: serde_json::Value = serde_json::from_str(doc).unwrap();
    let back: serde_json::Value = serde_json::from_str(&got).unwrap();
    assert_eq!(sent, back, "Complex JSON should round-trip correctly");
}

#[test]
fn test_upsert_idempotent_resets_timestamps() {
    let mut store = KvStore::new();
    let id = key("550e8400-e29b-41d4-a716-446655440000");
    store.upsert(&id, "{\"a\":1}", 1000);
    store.upsert(&id, "{\"a\":1}", 2500);
    let got = store.read(&id).expect("document present");
    assert_eq!(got, "{\"a\":1}");
    let all = store.list_all(None, SortOrder::KeyAsc, None, 0);
    assert_eq!(all.entries.len(), 1, "double upsert keeps a single row");
    // every write resets both timestamps to its own commit instant
    assert_eq!(all.entries[0].created_at, 2500);
    assert_eq!(all.entries[0].updated_at, 2500);
}

#[test]
fn test_read_never_written_is_absent() {
    let store = KvStore::new();
    let id = key("123e4567-e89b-12d3-a456-426614174000");
    assert!(store.read(&id).is_none());
}

#[test]
fn test_list_all_empty() {
    let store = KvStore::new();
    let r = store.list_all(None, SortOrder::KeyAsc, None, 0);
    assert_eq!(r.entries.len(), 0, "Should return no entries");
    assert_eq!(r.total_count, 0, "Total count should be 0");
}

#[test]
fn test_list_all_basic() {
    let mut store = KvStore::new();
    let id1 = "aaaaaaaa-aaaa-aaaa-aaaa-aaaaaaaaaaaa";
    let id2 = "bbbbbbbb-bbbb-bbbb-bbbb-bbbbbbbbbbbb";
    let id3 = "cccccccc-cccc-cccc-cccc-cccccccccccc";
    store.upsert(&key(id2), "{\"name\":\"second\"}", 2);
    store.upsert(&key(id1), "{\"name\":\"first\"}", 1);
    store.upsert(&key(id3), "{\"name\":\"third\"}", 3);

    let asc = store.list_all(None, SortOrder::KeyAsc, None, 0);
    assert_eq!(asc.entries.len(), 3, "Should return 3 entries");
    assert_eq!(asc.total_count, 3, "Total count should be 3");
    assert_eq!(asc.entries[0].key, id1, "First entry should be id1");
    assert_eq!(asc.entries[1].key, id2, "Second entry should be id2");
    assert_eq!(asc.entries[2].key, id3, "Third entry should be id3");

    let desc = store.list_all(None, SortOrder::KeyDesc, None, 0);
    assert_eq!(desc.entries[0].key, id3, "First entry should be id3");
    assert_eq!(desc.entries[2].key, id1, "Third entry should be id1");
}

#[test]
fn test_list_all_pagination() {
    let mut store = KvStore::new();
    for i in 0..5u32 {
        let id = format!("{:08x}-0000-0000-0000-000000000000", i);
        let doc = format!("{{\"index\":{}}}", i);
        store.upsert(&key(&id), &doc, i as i64 + 1);
    }

    let limited = store.list_all(None, SortOrder::KeyAsc, Some(2), 0);
    assert_eq!(limited.entries.len(), 2, "Should return 2 entries with limit=2");
    assert_eq!(limited.total_count, 5, "Total count should still be 5");

    let offset = store.list_all(None, SortOrder::KeyAsc, None, 2);
    assert_eq!(offset.entries.len(), 3, "Should return 3 entries with offset=2");
    assert_eq!(offset.total_count, 5, "Total count should be 5");

    let both = store.list_all(None, SortOrder::KeyAsc, Some(2), 2);
    assert_eq!(
        both.entries.len(),
        2,
        "Should return 2 entries with limit=2 and offset=2"
    );
    assert_eq!(both.entries[0].key, "00000002-0000-0000-0000-000000000000");
    assert_eq!(both.entries[1].key, "00000003-0000-0000-0000-000000000000");
}

#[test]
fn test_list_pagination_consistency() {
    let mut store = KvStore::new();
    for i in 0..5u32 {
        let id = format!("{:08x}-0000-0000-0000-000000000000", i);
        store.upsert(&key(&id), "{}", 1);
    }
    // total_count does not move with limit or offset
    let totals: Vec<i64> = [
        store.list_all(None, SortOrder::KeyAsc, None, 0).total_count,
        store.list_all(None, SortOrder::KeyAsc, Some(1), 0).total_count,
        store.list_all(None, SortOrder::KeyAsc, Some(3), 4).total_count,
        store.list_all(None, SortOrder::KeyAsc, None, 9).total_count,
    ]
    .to_vec();
    assert!(totals.iter().all(|t| *t == 5));
    // without a limit, the page is everything past the offset, clamped
    assert_eq!(store.list_all(None, SortOrder::KeyAsc, None, 4).entries.len(), 1);
    assert_eq!(store.list_all(None, SortOrder::KeyAsc, None, 5).entries.len(), 0);
    assert_eq!(store.list_all(None, SortOrder::KeyAsc, None, 9).entries.len(), 0);
}

#[test]
fn test_list_all_prefix_filter() {
    let mut store = KvStore::new();
    store.upsert(
        &key("11111111-1111-1111-1111-111111111111"),
        "{\"type\":\"user\"}",
        1,
    );
    store.upsert(
        &key("22222222-2222-2222-2222-222222222222"),
        "{\"type\":\"user\"}",
        2,
    );
    store.upsert(
        &key("aaaaaaaa-aaaa-aaaa-aaaa-aaaaaaaaaaaa"),
        "{\"type\":\"admin\"}",
        3,
    );

    let one = store.list_all(Some("1"), SortOrder::KeyAsc, None, 0);
    assert_eq!(one.entries.len(), 1, "Should return 1 entry with prefix '1'");
    assert_eq!(one.total_count, 1, "Total count should be 1");
    assert_eq!(one.entries[0].key, "11111111-1111-1111-1111-111111111111");

    let two = store.list_all(Some("2"), SortOrder::KeyAsc, None, 0);
    assert_eq!(two.entries.len(), 1, "Should return 1 entry with prefix '2'");

    let a = store.list_all(Some("a"), SortOrder::KeyAsc, None, 0);
    assert_eq!(a.entries.len(), 1, "Should return 1 entry with prefix 'a'");

    let none = store.list_all(Some("xyz"), SortOrder::KeyAsc, None, 0);
    assert_eq!(
        none.entries.len(),
        0,
        "Should return 0 entries with non-matching prefix"
    );
    assert_eq!(none.total_count, 0, "Total count should be 0");
}

#[test]
fn test_list_prefix_applies_to_every_entry() {
    let mut store = KvStore::new();
    for i in 0..8u32 {
        let id = format!("{:08x}-0000-0000-0000-000000000000", i * 16);
        store.upsert(&key(&id), "{}", 1);
    }
    let r = store.list_all(Some("000000"), SortOrder::KeyAsc, None, 0);
    assert!(r.entries.len() > 0, "No test data found");
    for e in &r.entries {
        assert!(
            e.key.starts_with("000000"),
            "Key '{}' should start with prefix '{}'",
            e.key,
            "000000"
        );
    }
    assert_eq!(r.total_count as usize, r.entries.len());
}

#[test]
fn test_list_all_sort_by_timestamps() {
    let mut store = KvStore::new();
    let id1 = "aaaaaaaa-1111-1111-1111-111111111111";
    let id2 = "bbbbbbbb-2222-2222-2222-222222222222";
    let id3 = "cccccccc-3333-3333-3333-333333333333";
    store.upsert(&key(id1), "{\"order\":1}", 100);
    store.upsert(&key(id2), "{\"order\":2}", 200);
    store.upsert(&key(id3), "{\"order\":3}", 300);

    let created_asc = store.list_all(None, SortOrder::CreatedAsc, None, 0);
    assert_eq!(created_asc.entries[0].key, id1, "First should be oldest");
    assert_eq!(created_asc.entries[2].key, id3, "Last should be newest");

    let created_desc = store.list_all(None, SortOrder::CreatedDesc, None, 0);
    assert_eq!(created_desc.entries[0].key, id3, "First should be newest");
    assert_eq!(created_desc.entries[2].key, id1, "Last should be oldest");

    // touch id1 last: it becomes the most recently updated
    store.upsert(&key(id1), "{\"order\":1,\"updated\":true}", 400);
    let updated_desc = store.list_all(None, SortOrder::UpdatedDesc, None, 0);
    assert_eq!(
        updated_desc.entries[0].key, id1,
        "id1 should be most recently updated"
    );

    let updated_asc = store.list_all(None, SortOrder::UpdatedAsc, None, 0);
    assert_eq!(updated_asc.entries[0].key, id2);
    assert_eq!(updated_asc.entries[2].key, id1);
}

#[test]
fn test_list_sorted_consecutive_pairs_all_orders() {
    let mut store = KvStore::new();
    let seeds = [
        ("99999999-0000-0000-0000-000000000000", 5i64),
        ("11111111-0000-0000-0000-000000000000", 9),
        ("55555555-0000-0000-0000-000000000000", 1),
        ("33333333-0000-0000-0000-000000000000", 9),
    ];
    for (id, t) in seeds.iter() {
        store.upsert(&key(id), "{}", *t);
    }
    let orders = [
        SortOrder::KeyAsc,
        SortOrder::KeyDesc,
        SortOrder::CreatedAsc,
        SortOrder::CreatedDesc,
        SortOrder::UpdatedAsc,
        SortOrder::UpdatedDesc,
    ];
    for sort in orders.iter() {
        let r = store.list_all(None, *sort, None, 0);
        assert_eq!(r.entries.len(), 4);
        for w in r.entries.windows(2) {
            let ok = match sort {
                SortOrder::KeyAsc => w[0].key <= w[1].key,
                SortOrder::KeyDesc => w[0].key >= w[1].key,
                SortOrder::CreatedAsc => w[0].created_at <= w[1].created_at,
                SortOrder::CreatedDesc => w[0].created_at >= w[1].created_at,
                SortOrder::UpdatedAsc => w[0].updated_at <= w[1].updated_at,
                SortOrder::UpdatedDesc => w[0].updated_at >= w[1].updated_at,
            };
            assert!(ok, "Sort option {:?} should order consecutive pairs", sort);
        }
    }
}

#[test]
fn test_uppercase_input_canonicalized_key() {
    let mut store = KvStore::new();
    let upper = key("550E8400-E29B-41D4-A716-446655440000");
    store.upsert(&upper, "{\"a\":1}", 1);
    let lower = key("550e8400-e29b-41d4-a716-446655440000");
    assert_eq!(
        store.read(&lower).as_deref(),
        Some("{\"a\":1}"),
        "either letter case names the same entry"
    );
    let r = store.list_all(None, SortOrder::KeyAsc, None, 0);
    assert_eq!(r.entries[0].key, "550e8400-e29b-41d4-a716-446655440000");
}

#[test]
fn test_list_keys_helper_consistency() {
    let mut store = KvStore::new();
    store.upsert(&key("aaaaaaaa-aaaa-aaaa-aaaa-aaaaaaaaaaaa"), "{}", 1);
    store.upsert(&key("bbbbbbbb-bbbb-bbbb-bbbb-bbbbbbbbbbbb"), "{}", 2);
    let r = store.list_all(None, SortOrder::KeyAsc, None, 0);
    assert_eq!(
        list_keys(&r),
        vec![
            "aaaaaaaa-aaaa-aaaa-aaaa-aaaaaaaaaaaa".to_string(),
            "bbbbbbbb-bbbb-bbbb-bbbb-bbbbbbbbbbbb".to_string()
        ]
    );
}
