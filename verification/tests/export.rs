use keymouse_monitor::export::{
    export_percent, push_signed_decimal, render_export, update_export_progress, write_json_str, ExportProgress,
    ExportWriter,
};
use std::sync::atomic::Ordering;

fn quoted(s: &str) -> String {
    let mut out: Vec<char> = Vec::new();
    write_json_str(&mut out, s);
    out.into_iter().collect()
}

fn rows(v: &[(&str, &str, i64)]) -> Vec<(String, String, i64)> {
    v.iter().map(|(d, k, c)| (d.to_string(), k.to_string(), *c)).collect()
}

#[test]
fn json_strings_are_escaped() {
    assert_eq!(quoted("a\"b\\c"), "\"a\\\"b\\\\c\"");
    assert_eq!(quoted("\n\r\t"), "\"\\n\\r\\t\"");
    assert_eq!(quoted("\u{1}\u{7f}\u{9f}"), "\"\\u0001\\u007f\\u009f\"");
    assert_eq!(quoted("é€"), "\"é€\"");
}

#[test]
fn json_escaping_matches_serde() {
    for s in ["plain", "quote\"", "back\\slash", "ctl\u{2}\u{1b}", "tab\tnl\n"] {
        let ours = quoted(s);
        let back: String = serde_json::from_str(&ours).unwrap();
        assert_eq!(back, s);
    }
}

#[test]
fn signed_numbers() {
    let mut out: Vec<char> = Vec::new();
    push_signed_decimal(&mut out, -42);
    out.push(' ');
    push_signed_decimal(&mut out, i64::MIN);
    out.push(' ');
    push_signed_decimal(&mut out, 0);
    let s: String = out.into_iter().collect();
    assert_eq!(s, format!("-42 {} 0", i64::MIN));
}

#[test]
fn percentages() {
    assert_eq!(export_percent(1, 3), 33);
    assert_eq!(export_percent(3, 3), 100);
    assert_eq!(export_percent(5, 0), 0);
    assert_eq!(export_percent(u64::MAX, 7), 0);
}

#[test]
fn progress_is_published_only_on_a_new_percentage() {
    let p = ExportProgress::new();
    let mut last = -1;
    assert_eq!(update_export_progress(&p, 1, 200, &mut last), 0);
    assert_eq!(p.current.load(Ordering::Relaxed), 1);
    assert_eq!(update_export_progress(&p, 2, 200, &mut last), 1);
    assert_eq!(p.current.load(Ordering::Relaxed), 2);
    assert_eq!(update_export_progress(&p, 3, 200, &mut last), 1);
    assert_eq!(p.current.load(Ordering::Relaxed), 2);
    assert_eq!(last, 1);
}

#[test]
fn flat_export_document() {
    let p = ExportProgress::new();
    let out = render_export("sqlite", "2026-06-23T12:34:56", "flat", &rows(&[("2026-06-22", "a", 100), ("2026-06-22", "enter", 7)]), &p);
    assert_eq!(
        out,
        "{\"backend\":\"sqlite\",\"exported_at\":\"2026-06-23T12:34:56\",\"records\":[{\"date\":\"2026-06-22\",\"key\":\"a\",\"count\":100},{\"date\":\"2026-06-22\",\"key\":\"enter\",\"count\":7}]}"
    );
    assert_eq!(p.total.load(Ordering::Relaxed), 2);
    assert_eq!(p.current.load(Ordering::Relaxed), 2);
    let v: serde_json::Value = serde_json::from_str(&out).unwrap();
    assert_eq!(v["records"][1]["key"], "enter");
}

#[test]
fn nested_export_document() {
    let p = ExportProgress::new();
    let out = render_export(
        "mongodb",
        "t",
        "nested",
        &rows(&[("2026-06-22", "a", 100), ("2026-06-22", "enter", 7), ("2026-06-23", "a", 42), ("2026-06-23", "mouse_left", 3)]),
        &p,
    );
    assert_eq!(
        out,
        "{\"backend\":\"mongodb\",\"exported_at\":\"t\",\"records\":{\"2026-06-22\":{\"a\":100,\"enter\":7},\"2026-06-23\":{\"a\":42,\"mouse_left\":3}}}"
    );
    let v: serde_json::Value = serde_json::from_str(&out).unwrap();
    assert_eq!(v["records"]["2026-06-23"]["mouse_left"], 3);
}

#[test]
fn empty_exports() {
    let p = ExportProgress::new();
    assert_eq!(render_export("sqlite", "t", "flat", &Vec::new(), &p), "{\"backend\":\"sqlite\",\"exported_at\":\"t\",\"records\":[]}");
    assert_eq!(render_export("sqlite", "t", "other", &Vec::new(), &p), "{\"backend\":\"sqlite\",\"exported_at\":\"t\",\"records\":{}}");
}

#[test]
fn writer_row_by_row() {
    let p = ExportProgress::new();
    let mut w = ExportWriter::new("sqlite", "t", "nested", 1, &p);
    w.push_row("d", "k\"", 1, &p);
    assert_eq!(w.finish(), "{\"backend\":\"sqlite\",\"exported_at\":\"t\",\"records\":{\"d\":{\"k\\\"\":1}}}");
}
