use clipd::models::{ClipEntry, ContentType, Timestamp};
use clipd::store::{
    add_tag, fts_query, order_for_listing, plan_insert, row_for_insert, row_to_entry,
    select_evictions, sort_rows, ClipRow, InsertPlan, RowOrder, StoreError,
};

fn row(id: i64, created_at: &str, pinned: i64) -> ClipRow {
    ClipRow {
        id,
        content: format!("clip {}", id),
        content_type: "plain_text".to_string(),
        hash: format!("{:064x}", id),
        source_app: None,
        created_at: created_at.to_string(),
        pinned,
        tags: "[]".to_string(),
        label: None,
    }
}

fn ids(rows: &[ClipRow]) -> Vec<i64> {
    rows.iter().map(|r| r.id).collect()
}

#[test]
fn listing_is_newest_first_whatever_is_pinned() {
    let rows = vec![
        row(1, "2024-01-01T10:00:00+00:00", 0),
        row(2, "2024-01-03T10:00:00+00:00", 0),
        row(3, "2024-01-02T10:00:00+00:00", 1),
        row(4, "2024-01-04T10:00:00+00:00", 0),
        row(5, "2023-12-31T10:00:00+00:00", 1),
    ];
    let listed = order_for_listing(rows, 20);
    assert_eq!(ids(&listed), vec![4, 2, 3, 1, 5]);
}

#[test]
fn listing_respects_limit() {
    let rows = vec![
        row(1, "2024-01-01T10:00:00+00:00", 0),
        row(2, "2024-01-02T10:00:00+00:00", 0),
        row(3, "2024-01-03T10:00:00+00:00", 0),
    ];
    assert_eq!(ids(&order_for_listing(rows.clone(), 2)), vec![3, 2]);
    assert_eq!(ids(&order_for_listing(rows.clone(), 0)), Vec::<i64>::new());
    assert_eq!(ids(&order_for_listing(rows, usize::MAX)), vec![3, 2, 1]);
}

#[test]
fn listing_compares_time_text_bytewise() {
    // text order, as the database compares it: '+' sorts before '.'
    let rows = vec![
        row(1, "2024-01-01T10:00:00.5+00:00", 0),
        row(2, "2024-01-01T10:00:00+00:00", 0),
        row(3, "2024-01-01T10:00:01+00:00", 0),
    ];
    assert_eq!(ids(&order_for_listing(rows, 10)), vec![3, 1, 2]);
}

#[test]
fn sorting_by_age() {
    let rows = vec![
        row(1, "b", 0),
        row(2, "a", 1),
        row(3, "c", 0),
        row(4, "ab", 0),
    ];
    assert_eq!(ids(&sort_rows(RowOrder::Age, rows)), vec![2, 4, 1, 3]);
}

#[test]
fn eviction_keeps_pinned_and_newest() {
    let rows = vec![
        row(1, "2024-01-01T00:00:00+00:00", 1),
        row(2, "2024-01-02T00:00:00+00:00", 0),
        row(3, "2024-01-03T00:00:00+00:00", 0),
        row(4, "2024-01-04T00:00:00+00:00", 0),
        row(5, "2024-01-05T00:00:00+00:00", 0),
    ];
    // four unpinned rows, two allowed: the two oldest unpinned go
    assert_eq!(select_evictions(&rows, 2), vec![2, 3]);
    assert_eq!(select_evictions(&rows, 4), Vec::<i64>::new());
    assert_eq!(select_evictions(&rows, 10), Vec::<i64>::new());
    assert_eq!(select_evictions(&rows, 0), vec![2, 3, 4, 5]);
}

#[test]
fn eviction_never_takes_pinned_rows() {
    let rows = vec![row(1, "a", 1), row(2, "b", 1), row(3, "c", 5)];
    assert_eq!(select_evictions(&rows, 0), Vec::<i64>::new());
}

#[test]
fn eviction_with_the_largest_limit_takes_nothing() {
    let rows = vec![row(1, "a", 0), row(2, "b", 0)];
    assert_eq!(select_evictions(&rows, usize::MAX), Vec::<i64>::new());
    assert_eq!(select_evictions(&rows, (i64::MAX as usize) + 1), Vec::<i64>::new());
    assert_eq!(select_evictions(&rows, 1), vec![1]);
}

#[test]
fn tags_are_not_repeated() {
    let mut tags = vec!["work".to_string()];
    add_tag(&mut tags, "home");
    assert_eq!(tags, vec!["work", "home"]);
    add_tag(&mut tags, "work");
    assert_eq!(tags, vec!["work", "home"]);
    add_tag(&mut tags, "home");
    assert_eq!(tags, vec!["work", "home"]);
}

#[test]
fn search_term_is_quoted_as_a_phrase() {
    assert_eq!(fts_query("github.com"), "\"github.com\"");
    assert_eq!(fts_query("say \"hi\""), "\"say \"\"hi\"\"\"");
    assert_eq!(fts_query(""), "\"\"");
    assert_eq!(fts_query("\""), "\"\"\"\"");
}

#[test]
fn search_quoting_roundtrip() {
    for term in ["plain", "a\"b", "\"\"", "end\""] {
        let q = fts_query(term);
        let inner = &q[1..q.len() - 1];
        assert_eq!(inner.replace("\"\"", "\""), term);
    }
}

fn entry() -> ClipEntry {
    ClipEntry {
        id: 7,
        content: "fn main() {}".to_string(),
        content_type: ContentType::Code,
        hash: "abc".to_string(),
        source_app: Some("Terminal".to_string()),
        created_at: Timestamp { secs: 0, nanos: 0 },
        pinned: true,
        tags: vec!["rust".to_string(), "snippet".to_string()],
        label: Some("main".to_string()),
    }
}

#[test]
fn entry_to_row() {
    let r = row_for_insert(&entry()).unwrap();
    assert_eq!(r.id, 7);
    assert_eq!(r.content, "fn main() {}");
    assert_eq!(r.content_type, "code");
    assert_eq!(r.hash, "abc");
    assert_eq!(r.source_app, Some("Terminal".to_string()));
    assert_eq!(r.created_at, "1970-01-01T00:00:00+00:00");
    assert_eq!(r.pinned, 1);
    assert_eq!(r.tags, "[\"rust\",\"snippet\"]");
    assert_eq!(r.label, Some("main".to_string()));
}

#[test]
fn entry_row_roundtrip() {
    let e = entry();
    let back = row_to_entry(row_for_insert(&e).unwrap());
    assert_eq!(back.id, e.id);
    assert_eq!(back.content, e.content);
    assert_eq!(back.content_type, e.content_type);
    assert_eq!(back.hash, e.hash);
    assert_eq!(back.source_app, e.source_app);
    assert_eq!(back.created_at, e.created_at);
    assert_eq!(back.pinned, e.pinned);
    assert_eq!(back.tags, e.tags);
    assert_eq!(back.label, e.label);
}

#[test]
fn row_to_entry_fallbacks() {
    let mut r = row(3, "not a time", 2);
    r.content_type = "mystery".to_string();
    r.tags = "{not json".to_string();
    let e = row_to_entry(r);
    assert_eq!(e.content_type, ContentType::PlainText);
    assert!(e.tags.is_empty());
    assert!(e.pinned);
    assert!(e.created_at.secs > 1_600_000_000);
}

#[test]
fn row_to_entry_reads_offsets_as_utc() {
    let r = row(4, "1970-01-01T01:00:00+01:00", 0);
    let e = row_to_entry(r);
    assert_eq!(e.created_at, Timestamp { secs: 0, nanos: 0 });
    assert!(!e.pinned);
}

#[test]
fn out_of_range_time_cannot_be_stored() {
    let mut e = entry();
    e.created_at = Timestamp { secs: i64::MAX, nanos: 0 };
    assert_eq!(row_for_insert(&e).unwrap_err(), StoreError::TimestampOutOfRange);
}

#[test]
fn csv_fields_are_quoted() {
    assert_eq!(clipd::text::quote("plain"), "\"plain\"");
    assert_eq!(clipd::text::quote("a,\"b\""), "\"a,\"\"b\"\"\"");
}

#[test]
fn stored_content_is_bumped_not_duplicated() {
    let e = entry();
    match plan_insert(&e, Some(5)).unwrap() {
        InsertPlan::Bump { id, created_at } => {
            assert_eq!(id, 5);
            assert_eq!(created_at, "1970-01-01T00:00:00+00:00");
        }
        InsertPlan::Insert(_) => panic!("stored content must not be inserted again"),
    }
    match plan_insert(&e, None).unwrap() {
        InsertPlan::Insert(r) => {
            assert_eq!(r.hash, "abc");
            assert_eq!(r.pinned, 1);
        }
        InsertPlan::Bump { .. } => panic!("new content must be inserted"),
    }
    let mut bad = entry();
    bad.created_at = Timestamp { secs: i64::MIN, nanos: 0 };
    assert_eq!(plan_insert(&bad, Some(5)).unwrap_err(), StoreError::TimestampOutOfRange);
}

#[test]
fn round_trip_keeps_fractions_escapes_and_far_years() {
    let mut e = entry();
    e.created_at = Timestamp { secs: 253_402_300_799, nanos: 123_456_789 };
    e.tags = vec!["a;b".to_string(), "say \"hi\"\n".to_string(), String::new()];
    let back = row_to_entry(row_for_insert(&e).unwrap());
    assert_eq!(back.created_at, e.created_at);
    assert_eq!(back.tags, e.tags);
    e.created_at = Timestamp { secs: -62_167_219_200, nanos: 5_000_000 };
    let back = row_to_entry(row_for_insert(&e).unwrap());
    assert_eq!(back.created_at, e.created_at);
}

#[test]
fn listing_breaks_time_ties_by_id_and_limits_are_prefixes() {
    let rows = vec![
        row(1, "2024-01-02T00:00:00+00:00", 0),
        row(2, "2024-01-02T00:00:00+00:00", 1),
        row(3, "2024-01-01T00:00:00+00:00", 0),
        row(4, "2024-01-02T00:00:00+00:00", 0),
    ];
    let all = ids(&order_for_listing(rows.clone(), usize::MAX));
    assert_eq!(all, vec![4, 2, 1, 3]);
    for k in 0..6 {
        assert_eq!(ids(&order_for_listing(rows.clone(), k)), all[..k.min(4)].to_vec());
    }
}

#[test]
fn leap_seconds_round_trip() {
    let mut e = entry();
    e.created_at = Timestamp { secs: 1_483_228_799, nanos: 1_500_000_000 };
    let r = row_for_insert(&e).unwrap();
    assert_eq!(r.created_at, "2016-12-31T23:59:60.500+00:00");
    assert_eq!(row_to_entry(r).created_at, e.created_at);
    e.created_at = Timestamp { secs: 1_483_228_799, nanos: 1_000_000_000 };
    assert_eq!(row_to_entry(row_for_insert(&e).unwrap()).created_at, e.created_at);
}
