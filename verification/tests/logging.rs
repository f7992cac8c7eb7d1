use keymouse_monitor::logging::{date_suffix, log_file_name, log_filter, needs_reopen, parse_rotation, stamp_pattern, Rotation};

#[test]
fn rotations() {
    assert_eq!(parse_rotation("Hourly"), Rotation::Hourly);
    assert_eq!(parse_rotation("never"), Rotation::Never);
    assert_eq!(parse_rotation("MINUTELY"), Rotation::Minutely);
    assert_eq!(parse_rotation("weekly"), Rotation::Daily);
}

#[test]
fn suffixes_and_names() {
    assert_eq!(date_suffix(Rotation::Never, "2026-06-22"), "");
    assert_eq!(date_suffix(Rotation::Daily, "2026-06-22"), ".2026-06-22");
    assert_eq!(date_suffix(Rotation::Hourly, "2026-06-22-13"), ".2026-06-22-13");
    assert_eq!(stamp_pattern(Rotation::Never), None);
    assert_eq!(stamp_pattern(Rotation::Daily), Some("%Y-%m-%d"));
    assert_eq!(stamp_pattern(Rotation::Hourly), Some("%Y-%m-%d-%H"));
    assert_eq!(stamp_pattern(Rotation::Minutely), Some("%Y-%m-%d-%H-%M"));
    assert_eq!(log_file_name("monitor", "", "log"), "monitor.log");
    assert_eq!(log_file_name("monitor", ".2026-06-22", "log"), "monitor.2026-06-22.log");
}

#[test]
fn reopening() {
    assert!(needs_reopen(None, ""));
    assert!(needs_reopen(Some(".a"), ".b"));
    assert!(!needs_reopen(Some(".a"), ".a"));
}

#[test]
fn filters() {
    let f = log_filter("debug");
    assert_eq!(f.default_level, "info");
    assert_eq!(f.app_directive.as_deref(), Some("keymouse_monitor=debug"));
    let t = log_filter("TRACE");
    assert_eq!(t.default_level, "trace");
    assert!(t.app_directive.is_none());
}
