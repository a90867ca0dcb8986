use click_house_component::cache::{timeout_passed, AddInCache, CacheStatus};
use click_house_component::json::{JsonLeaf, JsonNumber, JsonObject, JsonValue};

fn row(id: i64) -> JsonValue {
    let mut o = JsonObject::new();
    o.insert("id".to_string(), JsonLeaf::Number(JsonNumber::from_i64(id)));
    JsonValue::Object(o)
}

fn ids(rows: &[JsonValue]) -> Vec<String> {
    rows.iter()
        .map(|r| match r {
            JsonValue::Object(o) => match o.get(&"id".to_string()) {
                Some(JsonLeaf::Number(n)) => n.text().clone(),
                _ => "?".to_string(),
            },
            JsonValue::Leaf(_) => "leaf".to_string(),
        })
        .collect()
}

fn is_flush(s: &CacheStatus, table: &str) -> bool {
    matches!(s, CacheStatus::NeedsNetworkFlush(t) if t == table)
}

#[test]
fn rows_below_the_limit_are_stored() {
    let mut cache = AddInCache::new(3, 3600);
    let s = cache.add_with_timeout("t".to_string(), vec![row(1), row(2)], false);
    assert!(matches!(s, CacheStatus::Stored));
    assert!(cache.take_flush_data("t").is_none());
}

#[test]
fn reaching_the_limit_sets_all_rows_aside() {
    let mut cache = AddInCache::new(3, 3600);
    cache.add_with_timeout("t".to_string(), vec![row(1), row(2)], false);
    let s = cache.add_with_timeout("t".to_string(), vec![row(3)], false);
    assert!(is_flush(&s, "t"));
    let taken = cache.take_flush_data("t").unwrap();
    assert_eq!(ids(&taken), vec!["1", "2", "3"]);
    assert!(cache.take_flush_data("t").is_none());
}

#[test]
fn timeout_sets_rows_aside() {
    let mut cache = AddInCache::new(100, 3600);
    let s = cache.add_with_timeout("t".to_string(), vec![row(7)], true);
    assert!(is_flush(&s, "t"));
}

#[test]
fn zero_timeout_flushes_at_once() {
    let mut cache = AddInCache::new(100, 0);
    let s = cache.add("t".to_string(), vec![row(1)]);
    assert!(is_flush(&s, "t"));
    assert_eq!(ids(&cache.take_flush_data("t").unwrap()), vec!["1"]);
}

#[test]
fn no_second_batch_while_one_is_pending() {
    let mut cache = AddInCache::new(1, 3600);
    assert!(is_flush(&cache.add("t".to_string(), vec![row(1)]), "t"));
    assert!(matches!(cache.add("t".to_string(), vec![row(2)]), CacheStatus::Stored));
    assert_eq!(ids(&cache.take_flush_data("t").unwrap()), vec!["1"]);
    assert!(is_flush(&cache.add("t".to_string(), vec![row(3)]), "t"));
    assert_eq!(ids(&cache.take_flush_data("t").unwrap()), vec!["2", "3"]);
}

#[test]
fn empty_rows_never_flush() {
    let mut cache = AddInCache::new(0, 0);
    assert!(matches!(cache.add("t".to_string(), vec![]), CacheStatus::Stored));
}

#[test]
fn returned_batch_comes_back() {
    let mut cache = AddInCache::new(1, 3600);
    cache.add("t".to_string(), vec![row(5)]);
    let d = cache.take_flush_data("t").unwrap();
    cache.return_to_flush("t", d);
    assert_eq!(ids(&cache.take_flush_data("t").unwrap()), vec!["5"]);
}

#[test]
fn return_is_dropped_when_a_batch_is_pending_or_table_unknown() {
    let mut cache = AddInCache::new(1, 3600);
    cache.add("t".to_string(), vec![row(5)]);
    cache.return_to_flush("t", vec![row(9)]);
    assert_eq!(ids(&cache.take_flush_data("t").unwrap()), vec!["5"]);
    cache.return_to_flush("unknown", vec![row(9)]);
    assert!(cache.take_flush_data("unknown").is_none());
}

#[test]
fn flush_all_hands_out_active_rows_and_replaces_pending_batch() {
    let mut cache = AddInCache::new(2, 3600);
    cache.add("a".to_string(), vec![row(1), row(2)]);
    cache.add("a".to_string(), vec![row(3)]);
    cache.add("b".to_string(), vec![row(4)]);
    cache.add("c".to_string(), vec![]);
    let all = cache.flush_all();
    let got: Vec<(String, Vec<String>)> = all.iter().map(|(t, d)| (t.clone(), ids(d))).collect();
    assert_eq!(
        got,
        vec![("a".to_string(), vec!["3".to_string()]), ("b".to_string(), vec!["4".to_string()])]
    );
    assert_eq!(ids(&cache.take_flush_data("a").unwrap()), vec!["3"]);
    assert_eq!(ids(&cache.take_flush_data("b").unwrap()), vec!["4"]);
    assert!(cache.flush_all().is_empty());
}

#[test]
fn flush_expired_with_flags() {
    let mut cache = AddInCache::new(100, 3600);
    cache.add_with_timeout("a".to_string(), vec![row(1)], false);
    cache.add_with_timeout("b".to_string(), vec![row(2)], false);
    let out = cache.flush_expired_with(&vec![false, true]);
    assert_eq!(out.len(), 1);
    assert_eq!(out[0].0, "b");
    assert_eq!(ids(&out[0].1), vec!["2"]);
    assert!(cache.take_flush_data("a").is_none());
    assert_eq!(ids(&cache.take_flush_data("b").unwrap()), vec!["2"]);
}

#[test]
fn flush_expired_with_zero_timeout_takes_every_waiting_table() {
    let mut cache = AddInCache::new(100, 5);
    cache.add_with_timeout("a".to_string(), vec![row(1)], false);
    let mut zero = AddInCache::new(100, 0);
    zero.add_with_timeout("a".to_string(), vec![row(1)], false);
    zero.add_with_timeout("b".to_string(), vec![row(2)], false);
    let out = zero.flush_expired();
    assert_eq!(out.len(), 2);
    assert_eq!(cache.flush_all().len(), 1);
}

#[test]
fn flush_expired_after_timeout_passes() {
    let mut cache = AddInCache::new(100, 1);
    cache.add("a".to_string(), vec![row(1)]);
    let start = std::time::Instant::now();
    while start.elapsed() < std::time::Duration::from_millis(1100) {}
    let out = cache.flush_expired();
    assert_eq!(out.len(), 1);
    assert_eq!(ids(&out[0].1), vec!["1"]);
}

#[test]
fn timeout_passes_at_the_full_second_count() {
    assert!(!timeout_passed(4_999_999_999, 5));
    assert!(timeout_passed(5_000_000_000, 5));
    assert!(timeout_passed(0, 0));
    assert!(!timeout_passed(5_000_000, 5));
}

#[test]
fn flush_all_gives_each_table_with_rows_once() {
    let mut cache = AddInCache::new(100, 60);
    cache.add_with_timeout("a".to_string(), vec![row(1)], false);
    cache.add_with_timeout("b".to_string(), vec![row(2)], false);
    cache.add_with_timeout("a".to_string(), vec![row(3)], false);
    cache.add_with_timeout("c".to_string(), vec![], false);
    let out = cache.flush_all();
    assert_eq!(out.len(), 2);
    assert_eq!(out[0].0, "a");
    assert_eq!(ids(&out[0].1), vec!["1", "3"]);
    assert_eq!(out[1].0, "b");
    assert_eq!(ids(&out[1].1), vec!["2"]);
}
