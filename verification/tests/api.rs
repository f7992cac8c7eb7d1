use keymouse_monitor::api::{
    check_export, check_export_output, check_history, counts_delta, import_mode, mode_name, progress_poll, progress_value,
    progress_report, str_after, ExportParams, HistoryParams, ImportParams,
};
use keymouse_monitor::counts::CountMap;
use keymouse_monitor::database::ImportMode;

fn params(format: Option<&str>, start: Option<&str>, end: Option<&str>) -> ExportParams {
    ExportParams {
        format: format.map(String::from),
        pretty: None,
        start: start.map(String::from),
        end: end.map(String::from),
        session: None,
    }
}

#[test]
fn history_dates_are_checked() {
    let ok = HistoryParams { start: "2026-06-01".to_string(), end: "2026-06-22".to_string() };
    assert!(check_history(&ok).is_ok());
    let bad = HistoryParams { start: "2026-13-01".to_string(), end: "2026-06-22".to_string() };
    assert_eq!(check_history(&bad).err().unwrap(), "Invalid date format, please use YYYY-MM-DD.");
}

#[test]
fn export_defaults_to_nested() {
    let r = check_export(&params(None, None, None)).ok().unwrap();
    assert_eq!(r.format, "nested");
    assert!(!r.pretty);
    assert_eq!(r.session, "");
}

#[test]
fn export_rejects_unknown_formats() {
    assert_eq!(check_export(&params(Some("xml"), None, None)).err().unwrap(), "Invalid format, use 'nested' or 'flat'.");
}

#[test]
fn export_rejects_backwards_ranges() {
    assert_eq!(
        check_export(&params(Some("flat"), Some("2026-06-23"), Some("2026-06-22"))).err().unwrap(),
        "start must not be after end"
    );
    let r = check_export(&params(Some("flat"), Some("2026-06-22"), Some("2026-06-22"))).ok().unwrap();
    assert_eq!(r.format, "flat");
    assert_eq!(r.start.as_deref(), Some("2026-06-22"));
    assert!(check_export(&params(None, Some("2026-06-23"), None)).is_ok());
}

#[test]
fn string_order_is_by_code_point() {
    assert!(str_after("b", "a"));
    assert!(str_after("ab", "a"));
    assert!(!str_after("a", "ab"));
    assert!(!str_after("a", "a"));
    assert!(str_after("é", "z"));
    assert_eq!(str_after("2026-06-10", "2026-06-9"), "2026-06-10" > "2026-06-9");
}

#[test]
fn empty_export_output_is_an_error() {
    assert!(check_export_output("{}").is_ok());
    assert!(check_export_output("").err().unwrap().starts_with("Export returned no data"));
}

#[test]
fn import_modes_from_queries() {
    assert_eq!(import_mode(&ImportParams { mode: None }), ImportMode::Overwrite);
    assert_eq!(import_mode(&ImportParams { mode: Some("MERGE".to_string()) }), ImportMode::Merge);
    assert_eq!(import_mode(&ImportParams { mode: Some("叠加".to_string()) }), ImportMode::Merge);
    assert_eq!(mode_name(ImportMode::Merge), "Merge");
    assert_eq!(mode_name(ImportMode::Overwrite), "Overwrite");
}

#[test]
fn progress_reports() {
    let done = progress_report(Some((5, 9, true)));
    assert_eq!((done.current, done.total, done.done, done.idle), (0, 0, true, Some(false)));
    let running = progress_report(Some((12, 10, false)));
    assert_eq!((running.current, running.total, running.done, running.idle), (10, 10, true, None));
    let half = progress_report(Some((5, 10, false)));
    assert_eq!((half.current, half.total, half.done, half.idle), (5, 10, false, None));
    let idle = progress_report(None);
    assert_eq!((idle.current, idle.total, idle.done, idle.idle), (0, 0, false, Some(true)));
}

#[test]
fn progress_polls() {
    assert_eq!(progress_poll(3, 10, false), ((3, 10, false), false));
    assert_eq!(progress_poll(10, 10, false), ((10, 10, true), true));
    assert_eq!(progress_poll(0, 0, true), ((0, 0, true), true));
    assert_eq!(progress_poll(0, 0, false), ((0, 0, false), false));
}

#[test]
fn live_deltas() {
    let mut last = CountMap::new();
    last.insert("a".to_string(), 1);
    last.insert("b".to_string(), 2);
    last.insert("gone".to_string(), 4);
    let mut current = CountMap::new();
    current.insert("a".to_string(), 1);
    current.insert("b".to_string(), 3);
    current.insert("new".to_string(), 1);
    let d = counts_delta(&last, &current);
    assert_eq!(d.len(), 3);
    assert_eq!(d.get("b"), Some(&3));
    assert_eq!(d.get("new"), Some(&1));
    assert_eq!(d.get("gone"), Some(&0));
    assert_eq!(d.get("a"), None);
    assert!(counts_delta(&current, &current).is_empty());
}

#[test]
fn progress_values_as_json() {
    assert_eq!(progress_value(None), "{\"current\":0,\"done\":false,\"idle\":true,\"total\":0}");
    assert_eq!(progress_value(Some((3, 10, false))), "{\"current\":3,\"done\":false,\"total\":10}");
    assert_eq!(progress_value(Some((1, 1, true))), "{\"current\":0,\"done\":true,\"idle\":false,\"total\":0}");
    let v: serde_json::Value = serde_json::from_str(&progress_value(Some((12, 10, false)))).unwrap();
    assert_eq!(v["current"], 10);
    assert_eq!(v["done"], true);
}
