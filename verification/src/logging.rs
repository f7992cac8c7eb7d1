//! The decisions of the log set-up: how often the log file rolls over, the
//! name of the current file, and which messages pass the filter.
use vstd::prelude::*;
use crate::text::{all_ascii, ascii_lowercase, lowercase, push_str, str_eq, string_of, to_lowercase};

verus! {

/// How often the log moves to a new file.
#[derive(Debug, Clone, Copy, PartialEq, Eq, Structural)]
pub enum Rotation {
    Never,
    Minutely,
    Hourly,
    Daily,
}

/// The rotation that a lowercased name selects: `hourly`, `never` and
/// `minutely` are themselves, anything else is daily.
pub open spec fn rotation_of(lower: Seq<char>) -> Rotation {
    if lower == "hourly"@ {
        Rotation::Hourly
    } else if lower == "never"@ {
        Rotation::Never
    } else if lower == "minutely"@ {
        Rotation::Minutely
    } else {
        Rotation::Daily
    }
}

/// The documented name of each rotation in the configuration.
pub open spec fn rotation_name(r: Rotation) -> Seq<char> {
    match r {
        Rotation::Never => "never"@,
        Rotation::Minutely => "minutely"@,
        Rotation::Hourly => "hourly"@,
        Rotation::Daily => "daily"@,
    }
}

/// Law: each documented rotation name selects the rotation of that name,
/// and any name that is none of them selects daily rotation.
pub proof fn lemma_rotation_names(r: Rotation, other: Seq<char>)
    ensures
        rotation_of(rotation_name(r)) == r,
        (forall|q: Rotation| other != #[trigger] rotation_name(q)) ==> rotation_of(other) == Rotation::Daily,
{
    reveal_strlit("never");
    reveal_strlit("minutely");
    reveal_strlit("hourly");
    reveal_strlit("daily");
    assert("daily"@.len() != "hourly"@.len());
    assert("daily"@[0] != "never"@[0]);
    assert("daily"@.len() != "minutely"@.len());
    assert("never"@.len() != "hourly"@.len());
    assert("never"@.len() != "minutely"@.len());
    assert("hourly"@.len() != "minutely"@.len());
    if forall|q: Rotation| other != #[trigger] rotation_name(q) {
        assert(other != rotation_name(Rotation::Hourly));
        assert(other != rotation_name(Rotation::Never));
        assert(other != rotation_name(Rotation::Minutely));
    }
}

/// Parses a rotation name, ignoring case.
pub fn parse_rotation(s: &str) -> (r: Rotation)
    ensures
        r == rotation_of(lowercase(s@)),
        all_ascii(s@) ==> r == rotation_of(ascii_lowercase(s@)),
{
    let lower = to_lowercase(s);
    if str_eq(lower.as_str(), "hourly") {
        Rotation::Hourly
    } else if str_eq(lower.as_str(), "never") {
        Rotation::Never
    } else if str_eq(lower.as_str(), "minutely") {
        Rotation::Minutely
    } else {
        Rotation::Daily
    }
}

/// The `chrono` format of the stamp that marks a period of a rotating log:
/// the date, with the hour, or the hour and minute; none when the log never
/// rolls over.
pub fn stamp_pattern(rotation: Rotation) -> (p: Option<&'static str>)
    ensures
        match rotation {
            Rotation::Never => p is None,
            Rotation::Daily => p matches Some(x) && x@ == "%Y-%m-%d"@,
            Rotation::Hourly => p matches Some(x) && x@ == "%Y-%m-%d-%H"@,
            Rotation::Minutely => p matches Some(x) && x@ == "%Y-%m-%d-%H-%M"@,
        },
{
    match rotation {
        Rotation::Never => None,
        Rotation::Daily => Some("%Y-%m-%d"),
        Rotation::Hourly => Some("%Y-%m-%d-%H"),
        Rotation::Minutely => Some("%Y-%m-%d-%H-%M"),
    }
}

/// The part of the log file's name that marks the current period: empty
/// when the log never rolls over, else a dot and `stamp`, the local time in
/// the rotation's `stamp_pattern`.
pub fn date_suffix(rotation: Rotation, stamp: &str) -> (s: String)
    ensures
        s@ == if rotation == Rotation::Never {
            Seq::<char>::empty()
        } else {
            seq!['.'] + stamp@
        },
{
    if rotation == Rotation::Never {
        return String::new();
    }
    let mut v: Vec<char> = Vec::new();
    v.push('.');
    push_str(&mut v, stamp);
    string_of(v.as_slice())
}

/// The log file's name: the stem, the period's suffix, a dot and the
/// extension.
pub fn log_file_name(stem: &str, suffix: &str, ext: &str) -> (name: String)
    ensures
        name@ == stem@ + suffix@ + seq!['.'] + ext@,
{
    let mut v: Vec<char> = Vec::new();
    push_str(&mut v, stem);
    push_str(&mut v, suffix);
    v.push('.');
    push_str(&mut v, ext);
    string_of(v.as_slice())
}

/// Whether the writer must open a new file: when none is open, or the one
/// open belongs to another period.
pub fn needs_reopen(open_suffix: Option<&str>, suffix: &str) -> (b: bool)
    ensures
        b == match open_suffix {
            Some(cur) => cur@ != suffix@,
            None => true,
        },
{
    match open_suffix {
        Some(cur) => !str_eq(cur, suffix),
        None => true,
    }
}

/// The log filter for a configured level: below `trace`, messages default
/// to `info` and the application's own to the level; at `trace`, all
/// messages pass at `trace`.
pub struct LogFilter {
    /// The level of messages from other crates.
    pub default_level: String,
    /// The directive for the application's own messages, if one is added.
    pub app_directive: Option<String>,
}

/// Decides the log filter for the configured level (compared ignoring
/// case): `keymouse_monitor=<level>` on top of `info`, or `trace` alone.
pub fn log_filter(level: &str) -> (f: LogFilter)
    ensures
        lowercase(level@) != "trace"@ ==> (f.default_level@ == "info"@ && (f.app_directive matches Some(d) && d@
            == "keymouse_monitor="@ + level@)),
        lowercase(level@) == "trace"@ ==> f.default_level@ == "trace"@ && f.app_directive is None,
        all_ascii(level@) ==> (lowercase(level@) == "trace"@ <==> ascii_lowercase(level@) == "trace"@),
{
    let lower = to_lowercase(level);
    if !str_eq(lower.as_str(), "trace") {
        let mut v: Vec<char> = Vec::new();
        push_str(&mut v, "keymouse_monitor=");
        push_str(&mut v, level);
        LogFilter { default_level: "info".to_owned(), app_directive: Some(string_of(v.as_slice())) }
    } else {
        LogFilter { default_level: "trace".to_owned(), app_directive: None }
    }
}

} // verus!
