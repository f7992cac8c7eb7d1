use keymouse_monitor::config::UpdateMode;
use keymouse_monitor::counts::CountMap;
use keymouse_monitor::data::{MonitorData, StoreWrite};
use keymouse_monitor::database::ImportMode;

fn local_today() -> String {
    chrono::Local::now().format("%Y-%m-%d").to_string()
}

fn make_empty() -> MonitorData {
    MonitorData {
        base_counts: CountMap::new(),
        incremental_counts: CountMap::new(),
        today: local_today(),
    }
}

fn make_today() -> String {
    local_today()
}

#[test]
fn test_increase_count_new_key() {
    let mut data = make_empty();
    data.increase_count("a");
    assert_eq!(data.incremental_counts.get("a"), Some(&1));
}

#[test]
fn test_increase_count_existing_key() {
    let mut data = make_empty();
    data.increase_count("a");
    data.increase_count("a");
    data.increase_count("a");
    assert_eq!(data.incremental_counts.get("a"), Some(&3));
}

#[test]
fn test_increase_count_multiple_keys() {
    let mut data = make_empty();
    data.increase_count("a");
    data.increase_count("b");
    data.increase_count("a");
    assert_eq!(data.incremental_counts.get("a"), Some(&2));
    assert_eq!(data.incremental_counts.get("b"), Some(&1));
}

#[test]
fn test_get_key_counts_empty() {
    let data = make_empty();
    let counts = data.get_key_counts();
    assert!(counts.is_empty());
}

#[test]
fn test_get_key_counts_incremental_only() {
    let mut data = make_empty();
    data.increase_count("x");
    data.increase_count("x");
    let counts = data.get_key_counts();
    assert_eq!(counts.get("x"), Some(&2));
    assert_eq!(counts.len(), 1);
}

#[test]
fn test_get_key_counts_merges_base_and_incremental() {
    let mut data = make_empty();
    data.base_counts.insert("existing".to_string(), 10);
    data.increase_count("new");
    data.increase_count("existing");

    let counts = data.get_key_counts();
    assert_eq!(counts.get("existing"), Some(&11));
    assert_eq!(counts.get("new"), Some(&1));
}

#[test]
fn test_get_key_counts_does_not_mutate_base() {
    let mut data = make_empty();
    data.base_counts.insert("k".to_string(), 5);
    data.increase_count("k");
    let _ = data.get_key_counts();
    assert_eq!(data.base_counts.get("k"), Some(&5));
}

#[test]
fn test_prepare_save_returns_delta() {
    let mut data = make_empty();
    let today = make_today();
    data.today = today.clone();
    data.increase_count("a");
    data.increase_count("b");

    let result = data.prepare_save(make_today());
    assert!(result.is_some());
    let result = result.unwrap();
    assert_eq!(result.date, today);
    assert!(!result.is_rollover);
    assert_eq!(result.delta.get("a"), Some(&1));
    assert_eq!(result.delta.get("b"), Some(&1));
    let snapshot = data.get_key_counts();
    assert_eq!(snapshot.get("a"), Some(&1));
    assert_eq!(snapshot.get("b"), Some(&1));
}

#[test]
fn test_prepare_save_rollover_has_empty_delta() {
    let mut data = make_empty();
    data.today = "2000-01-01".to_string();
    data.base_counts.insert("old".to_string(), 42);

    let result = data.prepare_save(make_today());
    assert!(result.is_some());
    let result = result.unwrap();
    assert_eq!(result.date, "2000-01-01");
    assert!(result.is_rollover);
    assert!(result.delta.is_empty());
    assert_eq!(result.yesterday_snapshot.get("old"), Some(&42));
}

// ----- saves on a fixed day -----

fn day_data(day: &str) -> MonitorData {
    MonitorData {
        base_counts: CountMap::new(),
        incremental_counts: CountMap::new(),
        today: day.to_string(),
    }
}

#[test]
fn save_with_nothing_new_returns_none() {
    let mut data = day_data("2026-06-22");
    data.base_counts.insert("k".to_string(), 7);
    assert!(data.prepare_save("2026-06-22".to_string()).is_none());
    assert_eq!(data.base_counts.get("k"), Some(&7));
}

#[test]
fn save_moves_delta_into_base_and_keeps_totals() {
    let mut data = day_data("2026-06-22");
    data.base_counts.insert("a".to_string(), 10);
    data.increase_count("a");
    data.increase_count("b");
    let before = data.get_key_counts();
    let r = data.prepare_save("2026-06-22".to_string()).unwrap();
    assert!(!r.is_rollover);
    assert!(r.yesterday_snapshot.is_empty());
    assert!(data.incremental_counts.is_empty());
    assert_eq!(data.base_counts.get("a"), Some(&11));
    assert_eq!(data.base_counts.get("b"), Some(&1));
    let after = data.get_key_counts();
    assert_eq!(before.get("a"), after.get("a"));
    assert_eq!(before.get("b"), after.get("b"));
    assert_eq!(before.len(), after.len());
    // A second save right after finds nothing to do.
    assert!(data.prepare_save("2026-06-22".to_string()).is_none());
}

#[test]
fn rollover_moves_new_counts_into_the_new_day() {
    let mut data = day_data("2000-01-01");
    data.base_counts.insert("old".to_string(), 99);
    data.increase_count("new_day");
    let r = data.prepare_save("2000-01-02".to_string()).unwrap();
    assert!(r.is_rollover);
    assert_eq!(r.date, "2000-01-01");
    assert_eq!(r.yesterday_snapshot.get("old"), Some(&99));
    assert_eq!(data.today, "2000-01-02");
    assert!(data.incremental_counts.is_empty());
    assert_eq!(data.base_counts.get("new_day"), Some(&1));
    assert!(!data.base_counts.contains_key("old"));
}

#[test]
fn diff_save_writes_only_the_delta() {
    let mut data = day_data("2026-06-22");
    data.base_counts.insert("a".to_string(), 10);
    data.increase_count("a");
    let r = data.prepare_save("2026-06-22".to_string()).unwrap();
    let writes = data.store_writes(r, UpdateMode::Diff);
    assert_eq!(writes.len(), 1);
    match &writes[0] {
        StoreWrite::Merge { date, counts } => {
            assert_eq!(date, "2026-06-22");
            assert_eq!(counts.get("a"), Some(&1));
            assert_eq!(counts.len(), 1);
        }
        _ => panic!("expected a merge"),
    }
}

#[test]
fn full_save_replaces_with_the_totals() {
    let mut data = day_data("2026-06-22");
    data.base_counts.insert("a".to_string(), 10);
    data.increase_count("a");
    let r = data.prepare_save("2026-06-22".to_string()).unwrap();
    let writes = data.store_writes(r, UpdateMode::Full);
    assert_eq!(writes.len(), 1);
    match &writes[0] {
        StoreWrite::Replace { date, counts } => {
            assert_eq!(date, "2026-06-22");
            assert_eq!(counts.get("a"), Some(&11));
        }
        _ => panic!("expected a replace"),
    }
}

#[test]
fn rollover_save_writes_yesterday_then_today() {
    let mut data = day_data("2000-01-01");
    data.base_counts.insert("old".to_string(), 99);
    data.increase_count("new_day");
    let r = data.prepare_save("2000-01-02".to_string()).unwrap();
    let writes = data.store_writes(r, UpdateMode::Diff);
    assert_eq!(writes.len(), 2);
    match &writes[0] {
        StoreWrite::Replace { date, counts } => {
            assert_eq!(date, "2000-01-01");
            assert_eq!(counts.get("old"), Some(&99));
        }
        _ => panic!("expected a replace of yesterday"),
    }
    match &writes[1] {
        StoreWrite::Replace { date, counts } => {
            assert_eq!(date, "2000-01-02");
            assert_eq!(counts.get("new_day"), Some(&1));
        }
        _ => panic!("expected a replace of today"),
    }
}

#[test]
fn rollover_with_nothing_new_writes_only_yesterday() {
    let mut data = day_data("2000-01-01");
    data.base_counts.insert("old".to_string(), 5);
    let r = data.prepare_save("2000-01-02".to_string()).unwrap();
    let writes = data.store_writes(r, UpdateMode::Full);
    assert_eq!(writes.len(), 1);
}

#[test]
fn import_overwrite_and_merge() {
    let mut data = day_data("2026-06-22");
    data.base_counts.insert("a".to_string(), 3);
    let mut incoming = CountMap::new();
    incoming.insert("a".to_string(), 4);
    incoming.insert("b".to_string(), 1);
    data.import_today_data(&incoming, ImportMode::Merge);
    assert_eq!(data.base_counts.get("a"), Some(&7));
    assert_eq!(data.base_counts.get("b"), Some(&1));
    data.import_today_data(&incoming, ImportMode::Overwrite);
    assert_eq!(data.base_counts.get("a"), Some(&4));
    assert_eq!(data.base_counts.len(), 2);
}

fn apply(store: &mut std::collections::BTreeMap<String, CountMap>, writes: &[StoreWrite]) {
    for w in writes {
        match w {
            StoreWrite::Replace { date, counts } => {
                store.insert(date.clone(), counts.duplicate());
            }
            StoreWrite::Merge { date, counts } => {
                let day = store.entry(date.clone()).or_insert_with(CountMap::new);
                day.add_all(counts);
            }
        }
    }
}

#[test]
fn a_save_leaves_the_store_with_the_days_totals() {
    for mode in [UpdateMode::Diff, UpdateMode::Full] {
        let mut store = std::collections::BTreeMap::new();
        let mut data = day_data("2026-06-22");
        data.base_counts.insert("a".to_string(), 10);
        store.insert("2026-06-22".to_string(), data.base_counts.duplicate());
        data.increase_count("a");
        data.increase_count("b");
        let totals = data.get_key_counts();
        let r = data.prepare_save("2026-06-22".to_string()).unwrap();
        let writes = data.store_writes(r, mode);
        apply(&mut store, &writes);
        let day = &store["2026-06-22"];
        assert_eq!(day.get("a"), totals.get("a"));
        assert_eq!(day.get("b"), totals.get("b"));
        assert_eq!(day.len(), totals.len());
    }
}

#[test]
fn save_to_db_gives_the_writes_of_the_save() {
    let mut data = MonitorData::new("2026-06-22".to_string(), CountMap::new());
    data.increase_count("a");
    data.increase_count("b");
    let w = data.save_to_db(UpdateMode::Diff, "2026-06-22".to_string());
    assert_eq!(w.len(), 1);
    match &w[0] {
        StoreWrite::Merge { date, counts } => {
            assert_eq!(date, "2026-06-22");
            assert_eq!((counts.get("a"), counts.get("b"), counts.len()), (Some(&1), Some(&1), 2));
        },
        _ => panic!("expected a merge"),
    }
    assert!(data.incremental_counts.is_empty());
    assert!(data.save_to_db(UpdateMode::Diff, "2026-06-22".to_string()).is_empty());
    data.increase_count("c");
    let w = data.save_to_db(UpdateMode::Full, "2026-06-23".to_string());
    assert_eq!(w.len(), 2);
    assert_eq!(data.today, "2026-06-23");
    assert_eq!(data.base_counts.get("c"), Some(&1));
}
