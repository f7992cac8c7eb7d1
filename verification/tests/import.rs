use keymouse_monitor::counts::CountMap;
use keymouse_monitor::database::ImportMode;
use keymouse_monitor::export::{render_export, ExportProgress};
use keymouse_monitor::import::{merged_day, plan_import, today_import_of, validate_count, DayCounts, Json};

/// A parsed JSON value as the library reads it.
fn json_of(v: &serde_json::Value) -> Json {
    match v {
        serde_json::Value::Null => Json::Null,
        serde_json::Value::Bool(b) => Json::Bool(*b),
        serde_json::Value::Number(n) => match (n.as_i64(), n.as_u64()) {
            (Some(i), _) => Json::Int(i),
            (None, Some(u)) => Json::UInt(u),
            _ => Json::Float,
        },
        serde_json::Value::String(s) => Json::Str(s.clone()),
        serde_json::Value::Array(a) => Json::Arr(a.iter().map(json_of).collect()),
        serde_json::Value::Object(o) => Json::Obj(o.iter().map(|(k, x)| (k.clone(), json_of(x))).collect()),
    }
}

fn plan(text: &str) -> Result<Option<DayCounts>, String> {
    let v: serde_json::Value = serde_json::from_str(text).map_err(|e| format!("parse json: {e}"))?;
    plan_import(&json_of(&v))
}

fn today_of(text: &str, today: &str) -> (bool, CountMap) {
    match serde_json::from_str::<serde_json::Value>(text) {
        Ok(v) => today_import_of(&json_of(&v), today),
        Err(_) => (false, CountMap::new()),
    }
}

fn day<'a>(days: &'a DayCounts, date: &str) -> Option<&'a CountMap> {
    for i in 0..days.len() {
        let (d, c) = days.entry_at(i);
        if d == date {
            return Some(c);
        }
    }
    None
}

#[test]
fn nested_import() {
    let plan = plan(r#"{"records":{"2026-06-22":{"a":100,"enter":7},"2026-06-23":{"a":42}}}"#).unwrap().unwrap();
    assert_eq!(plan.len(), 2);
    assert_eq!(day(&plan, "2026-06-22").unwrap().get("enter"), Some(&7));
    assert_eq!(day(&plan, "2026-06-23").unwrap().get("a"), Some(&42));
}

#[test]
fn nested_day_that_is_not_counts_is_empty() {
    let plan = plan(r#"{"records":{"2026-06-22":{"a":-1},"2026-06-23":"x"}}"#).unwrap().unwrap();
    assert_eq!(plan.len(), 2);
    assert!(day(&plan, "2026-06-22").unwrap().is_empty());
    assert!(day(&plan, "2026-06-23").unwrap().is_empty());
}

#[test]
fn flat_import_groups_by_date_and_reads_counts() {
    let plan = plan(
        r#"{"records":[{"date":"2026-06-22","key":"a","count":100},{"date":"2026-06-22","key":"b","count":-5},{"date":"2026-06-22","key":"c"},{"key":"x","count":1},{"date":"2026-06-23","key":"a","count":3},{"date":"2026-06-22","key":"a","count":9}]}"#,
    )
    .unwrap()
    .unwrap();
    assert_eq!(plan.len(), 2);
    let d = day(&plan, "2026-06-22").unwrap();
    assert_eq!(d.get("a"), Some(&9));
    assert_eq!(d.get("b"), Some(&0));
    assert_eq!(d.get("c"), Some(&0));
    assert_eq!(d.len(), 3);
    assert_eq!(day(&plan, "2026-06-23").unwrap().get("a"), Some(&3));
}

#[test]
fn empty_records_are_skipped() {
    assert!(plan(r#"{"records":{}}"#).unwrap().is_none());
    assert!(plan(r#"{"records":[{"key":"a","count":1}]}"#).unwrap().is_none());
}

#[test]
fn records_of_the_wrong_shape_are_refused() {
    assert_eq!(
        plan(r#"{"records":5}"#).err().unwrap(),
        "Import JSON 'records' must be an object (nested) or array (flat)"
    );
    assert_eq!(
        plan(r#"{"nothing":1}"#).err().unwrap(),
        "Import JSON 'records' must be an object (nested) or array (flat)"
    );
}

#[test]
fn bad_dates_are_refused() {
    assert_eq!(
        plan(r#"{"records":{"22-06-2026":{"a":1}}}"#).err().unwrap(),
        "Invalid date '22-06-2026': expected YYYY-MM-DD format"
    );
}

#[test]
fn text_that_is_not_json_is_refused() {
    let e = plan("{not json").err().unwrap();
    assert!(e.starts_with("parse json: "), "{}", e);
}

#[test]
fn counts_read_back() {
    assert_eq!(validate_count(5), Some(5));
    assert_eq!(validate_count(0), Some(0));
    assert_eq!(validate_count(-1), None);
}

#[test]
fn merge_and_overwrite_of_a_day() {
    let mut existing = CountMap::new();
    existing.insert("a".to_string(), 2);
    existing.insert("b".to_string(), 1);
    let mut incoming = CountMap::new();
    incoming.insert("a".to_string(), 5);
    let m = merged_day(&existing, &incoming, ImportMode::Merge);
    assert_eq!(m.get("a"), Some(&7));
    assert_eq!(m.get("b"), Some(&1));
    let o = merged_day(&existing, &incoming, ImportMode::Overwrite);
    assert_eq!(o.get("a"), Some(&5));
    assert_eq!(o.get("b"), None);
}

#[test]
fn an_export_imports_back() {
    let rows = vec![
        ("2026-06-22".to_string(), "a".to_string(), 100i64),
        ("2026-06-22".to_string(), "enter".to_string(), 7),
        ("2026-06-23".to_string(), "a".to_string(), 42),
    ];
    for fmt in ["flat", "nested"] {
        let p = ExportProgress::new();
        let text = render_export("sqlite", "2026-06-23T00:00:00", fmt, &rows, &p);
        let plan = plan(&text).unwrap().unwrap();
        assert_eq!(plan.len(), 2);
        assert_eq!(day(&plan, "2026-06-22").unwrap().get("a"), Some(&100));
        assert_eq!(day(&plan, "2026-06-22").unwrap().get("enter"), Some(&7));
        assert_eq!(day(&plan, "2026-06-23").unwrap().get("a"), Some(&42));
    }
}

#[test]
fn today_is_taken_from_either_format() {
    let t = "2026-06-29";
    let (has, counts) = today_of(r#"{"records": {"2026-06-29": {"a": 5}, "2026-06-28": {"b": 1}}}"#, t);
    assert!(has);
    assert_eq!(counts.get("a"), Some(&5));
    assert_eq!(counts.len(), 1);
    let (has, counts) = today_of(
        r#"{"records": [{"date": "2026-06-29", "key": "a", "count": 5}, {"date": "2026-06-28", "key": "b", "count": 1}]}"#,
        t,
    );
    assert!(has);
    assert_eq!(counts.get("a"), Some(&5));
    assert_eq!(counts.len(), 1);
    let (has, counts) = today_of(r#"{"records": [{"date": "2026-06-28", "key": "b", "count": 1}]}"#, t);
    assert!(!has);
    assert!(counts.is_empty());
    let (has, _) = today_of("not json", t);
    assert!(!has);
}

#[test]
fn counts_are_read_as_the_format_says() {
    // A flat count beyond i64 reads as no count, stored as 0; a float too.
    let p = plan(r#"{"records":[{"date":"2026-06-22","key":"a","count":18446744073709551615},{"date":"2026-06-22","key":"b","count":1.5}]}"#)
        .unwrap()
        .unwrap();
    let d = day(&p, "2026-06-22").unwrap();
    assert_eq!((d.get("a"), d.get("b")), (Some(&0), Some(&0)));
    // A nested day with a count that is not a non-negative integer is empty;
    // one beyond i64 is still a count.
    let p = plan(r#"{"records":{"2026-06-22":{"a":1.0},"2026-06-23":{"a":18446744073709551615}}}"#).unwrap().unwrap();
    assert!(day(&p, "2026-06-22").unwrap().is_empty());
    assert_eq!(day(&p, "2026-06-23").unwrap().get("a"), Some(&u64::MAX));
    // A document that is not an object has no records.
    assert!(plan_import(&Json::Arr(vec![])).is_err());
}
