use keymouse_monitor::changelog::{check, collect_hash_links, disp_len, format_entry, format_text};
use regex::Regex;

fn any_link_re() -> Regex {
    Regex::new(r"\[([^\]]*)\]\([^)]*\)").unwrap()
}

fn hash_lone_strip_re() -> Regex {
    Regex::new(r"[—–\-]\s*$").unwrap()
}


// ----- hash-link regex -----

#[test]
fn hash_link_bare() {
    let out = collect_hash_links("[abc1234](http://x)");
    assert_eq!(out, vec!["[abc1234](http://x)"]);
}

#[test]
fn hash_link_backticked() {
    let out = collect_hash_links("[`abc1234`](http://x)");
    assert_eq!(out, vec!["[`abc1234`](http://x)"]);
}

#[test]
fn hash_link_multiple() {
    let out = collect_hash_links("see [`aaa1111`](u) and [`bbb2222`](u)");
    assert_eq!(out, vec!["[`aaa1111`](u)", "[`bbb2222`](u)"]);
}

// ----- format_entry -----

#[test]
fn format_short_single_hash_inline() {
    let out = format_entry("- (cli) add -h flag — [`abc1234`](http://x)", &[]);
    assert_eq!(out, vec!["- (cli) add -h flag — [`abc1234`](http://x)"]);
}

#[test]
fn format_short_multi_hash_inline() {
    let out = format_entry(
        "- (db) merge SQLite fallback — ([`aaa1111`](u), [`bbb2222`](u))",
        &[],
    );
    assert_eq!(
        out,
        vec!["- (db) merge SQLite fallback — ([`aaa1111`](u), [`bbb2222`](u))"]
    );
}

#[test]
fn format_long_desc_wraps() {
    let bullet = "- (frontend) fix export/import/version using relative URLs — \
                   use `${API_URL}` prefix so they work from external static hosting — \
                   [`abc1234`](http://x)";
    let out = format_entry(bullet, &[]);
    // All lines <= 88 display chars.
    for line in &out {
        assert!(
            disp_len(line) <= 88,
            "line too long: {:?} ({} chars)",
            line,
            disp_len(line)
        );
    }
    let joined = out.join("");
    assert!(joined.contains("[`abc1234`](http://x)"));
    for (i, line) in out.iter().enumerate() {
        if line.contains("[`abc1234`](http://x)") {
            let text_only = any_link_re().replace_all(line, "").trim().to_string();
            let text_only = hash_lone_strip_re().replace(text_only.as_str(), "").trim().to_string();
            assert!(!text_only.is_empty(), "hash-only line at L{}: {:?}", i + 1, line);
        }
    }
}

#[test]
fn format_continuation_input_merged() {
    let out = format_entry(
        "- (cli) add the -h flag to all 4 binaries,",
        &["wire up arg parsing in main — [`abc1234`](http://x)"],
    );
    let joined = out.join("");
    assert!(joined.contains("[`abc1234`](http://x)"));
    for line in &out {
        if line.contains("[`abc1234`](http://x)") {
            let text_only = any_link_re().replace_all(line, "").trim().to_string();
            let text_only = hash_lone_strip_re().replace(text_only.as_str(), "").trim().to_string();
            assert!(!text_only.is_empty(), "hash-only line: {:?}", line);
        }
    }
}

#[test]
fn format_no_description_just_hash() {
    let out = format_entry("- (chore) — [`abc1234`](http://x)", &[]);
    assert_eq!(out.len(), 1);
    assert!(out[0].contains("[`abc1234`](http://x)"));
}

#[test]
fn format_literal_paren_artifact_stripped() {
    let bullet = "- (core) extract library crates — tools and main binary now \
                   depend on shared crates — ([`aaa1111`](u), [`bbb2222`](u), [`ccc3333`](u))";
    let out = format_entry(bullet, &[]);
    let joined = out.join(" ");
    assert!(!joined.contains("— (, , )"), "artifact remains: {}", joined);
    assert!(!joined.contains("— ( , , )"), "artifact remains: {}", joined);
    for h in ["`aaa1111`", "`bbb2222`", "`ccc3333`"] {
        assert!(joined.contains(h), "missing hash {} in: {}", h, joined);
    }
}

// ----- check -----

#[test]
fn check_clean_entry_passes() {
    let text = "## [X]\n\n### Features\n- (cli) add -h flag — [`abc1234`](http://x)\n";
    assert!(check(text).is_empty());
}

#[test]
fn check_merge_up_detected() {
    let text = "## [X]\n\n### Features\n\
                - (cli) add the -h flag to all 4 binaries and the tools folder,\n  \
                wire up arg parsing — [`abc1234`](http://x)\n";
    let errs = check(text);
    assert!(
        errs.iter().any(|e| e.contains("MERGE-UP")),
        "expected MERGE-UP, got: {:?}",
        errs
    );
}

#[test]
fn check_hash_alone_detected() {
    let text = "## [X]\n\n### Features\n\
                - (cli) add -h flag\n  \
                — [`abc1234`](http://x)\n";
    let errs = check(text);
    assert!(
        errs.iter().any(|e| e.contains("HASH-ALONE")),
        "expected HASH-ALONE, got: {:?}",
        errs
    );
}

// ----- end-to-end -----

#[test]
fn format_clean_input_stays_clean() {
    let text = "\
# Changelog\n\
\n\
## [2.1.1]\n\
\n\
### Features\n\
- (cli) add -h/--help to all 4 binaries — [`abc1234`](http://x)\n\
\n\
### Bug Fixes\n\
- (frontend) fix SSE status stuck on reconnect — add onopen handler — [`def5678`](http://x)\n\
- (frontend) fix export/import/version using relative URLs — use `${API_URL}` prefix so\n\
  they work from external static hosting — [`ccc3333`](http://x)\n\
\n\
### Chores\n\
- (build) consolidate build scripts into scripts/ directory; add exe/ to\n\
  .gitignore — [`bbb2222`](http://x)\n";
    let formatted = format_text(text);
    let errs = check(&formatted);
    assert!(
        errs.is_empty(),
        "formatting produced violations:\n{}\n--- formatted ---\n{}",
        errs.join("\n"),
        formatted
    );
}

#[test]
fn format_messy_input_gets_cleaned() {
    let text = "\
# Changelog\n\
\n\
## [X]\n\
\n\
### Features\n\
- (cli) add the -h flag to all 4 binaries, the\n\
  tools folder, and the db_check helper — [`abc1234`](http://x)\n\
- (frontend) fix export/import/version using relative URLs —\n\
  use `${API_URL}` prefix so they work from external static hosting — [`def5678`](http://x)\n";
    let formatted = format_text(text);
    let errs = check(&formatted);
    assert!(
        errs.is_empty(),
        "formatting produced violations:\n{}\n--- formatted ---\n{}",
        errs.join("\n"),
        formatted
    );
}


// ----- laws on concrete values -----

#[test]
fn text_without_entries_is_unchanged() {
    let text = "# Changelog\r\n\n## [2.1.0]\n\n### Features\nplain paragraph\n  indented text\n| table |\n";
    assert_eq!(format_text(text), text);
}

#[test]
fn commit_links_end_the_last_line() {
    let out = format_entry(
        "- (db) merge SQLite fallback — ([`aaa1111`](u), [`bbb2222`](u))",
        &["and sync data back on reconnect so nothing is lost when the primary comes back online again"],
    );
    let last = out.last().unwrap();
    assert!(last.ends_with("— ([`aaa1111`](u), [`bbb2222`](u))"), "{:?}", out);
    let single = format_entry("- (chore) — [`abc1234`](http://x)", &[]);
    assert!(single.last().unwrap().ends_with("— [`abc1234`](http://x)"));
}

#[test]
fn reflowed_lines_cannot_be_merged_up() {
    let bullet = "- (api) stream the export document row by row so that very large histories no longer \
                  have to be held in memory at once, and report progress while doing so — [`abc1234`](http://x)";
    let out = format_entry(bullet, &[]);
    assert!(out.len() >= 2, "{:?}", out);
    for i in 0..out.len() - 1 {
        let next = out[i + 1].trim_start();
        let first = next.split(' ').next().unwrap();
        // The last word would also carry the commit link's " — " after it.
        let reserved = if i + 1 == out.len() - 1 && !next.contains(' ') { 3 } else { 0 };
        assert!(
            disp_len(&out[i]) + 1 + first.chars().count() + reserved > 88,
            "line {} could take {:?}: {:?}",
            i + 1,
            first,
            out
        );
    }
    assert!(check(&out.join("\n")).is_empty(), "{:?}", out);
}
