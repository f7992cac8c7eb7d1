//! The decisions of the HTTP API: checking query parameters, reporting an
//! export's progress, and the changes pushed to live clients.
use vstd::prelude::*;
use crate::clock::{parse_ymd_date, ymd_date_accepted};
use crate::counts::{keys_distinct, CountMap};
use crate::database::{import_mode_of, ImportMode};
use crate::text::{all_ascii, ascii_lowercase, chars_of, decimal, lowercase, push_decimal, push_str, str_eq, string_of};

verus! {

/// The query of `/history`: the first and last day, `YYYY-MM-DD`.
pub struct HistoryParams {
    pub start: String,
    pub end: String,
}

/// The query of `/api/export`.
pub struct ExportParams {
    pub format: Option<String>,
    pub pretty: Option<bool>,
    pub start: Option<String>,
    pub end: Option<String>,
    pub session: Option<String>,
}

/// The query of `/api/import`.
pub struct ImportParams {
    pub mode: Option<String>,
}

/// The message for a date that is not `YYYY-MM-DD`.
pub open spec fn bad_date_message() -> Seq<char> {
    "Invalid date format, please use YYYY-MM-DD."@
}

/// Checks the days of a history query: both must be dates that chrono
/// accepts as `YYYY-MM-DD`.
pub fn check_history(params: &HistoryParams) -> (r: Result<(), String>)
    ensures
        match r {
            Ok(()) => ymd_date_accepted(params.start@) && ymd_date_accepted(params.end@),
            Err(e) => !(ymd_date_accepted(params.start@) && ymd_date_accepted(params.end@)) && e@
                == bad_date_message(),
        },
{
    if parse_ymd_date(params.start.as_str()) && parse_ymd_date(params.end.as_str()) {
        Ok(())
    } else {
        let mut m: Vec<char> = Vec::new();
        push_str(&mut m, "Invalid date format, please use YYYY-MM-DD.");
        Err(string_of(m.as_slice()))
    }
}

/// Whether `a` sorts after `b`, comparing characters by code point as `str`
/// comparison does.
pub open spec fn sorts_after(a: Seq<char>, b: Seq<char>) -> bool
    decreases a.len(),
{
    if a.len() == 0 {
        false
    } else if b.len() == 0 {
        true
    } else if a[0] != b[0] {
        (a[0] as u32) > (b[0] as u32)
    } else {
        sorts_after(a.drop_first(), b.drop_first())
    }
}

/// Whether `a` sorts after `b`.
pub fn str_after(a: &str, b: &str) -> (r: bool)
    ensures
        r == sorts_after(a@, b@),
{
    let x = chars_of(a);
    let y = chars_of(b);
    assert(x@.skip(0) =~= x@);
    assert(y@.skip(0) =~= y@);
    let mut i: usize = 0;
    while i < x.len() && i < y.len() && x[i] == y[i]
        invariant
            i <= x@.len(),
            i <= y@.len(),
            sorts_after(a@, b@) == sorts_after(x@.skip(i as int), y@.skip(i as int)),
            x@ == a@,
            y@ == b@,
        decreases x@.len() - i,
    {
        proof {
            assert(x@.skip(i as int).drop_first() =~= x@.skip(i + 1));
            assert(y@.skip(i as int).drop_first() =~= y@.skip(i + 1));
        }
        i = i + 1;
    }
    if i == x.len() {
        false
    } else if i == y.len() {
        true
    } else {
        assert(x@.skip(i as int)[0] == x@[i as int]);
        assert(y@.skip(i as int)[0] == y@[i as int]);
        (x[i] as u32) > (y[i] as u32)
    }
}

/// An export request whose parameters were accepted.
pub struct ExportRequest {
    /// `nested` or `flat`.
    pub format: String,
    pub pretty: bool,
    pub start: Option<String>,
    pub end: Option<String>,
    /// The session to report the progress to; empty for none.
    pub session: String,
}

/// The message for an unknown export format.
pub open spec fn bad_format_message() -> Seq<char> {
    "Invalid format, use 'nested' or 'flat'."@
}

/// The message for a start day after the end day.
pub open spec fn bad_range_message() -> Seq<char> {
    "start must not be after end"@
}

/// The view of a present-or-absent string.
pub open spec fn opt_str(o: Option<String>) -> Option<Seq<char>> {
    match o {
        Some(s) => Some(s@),
        None => None,
    }
}

/// The format that an export asks for: `nested` when none is given.
pub open spec fn requested_format(p: ExportParams) -> Seq<char> {
    match p.format {
        Some(f) => f@,
        None => "nested"@,
    }
}

/// Whether the export's range is backwards.
pub open spec fn range_backwards(p: ExportParams) -> bool {
    match (p.start, p.end) {
        (Some(s), Some(e)) => sorts_after(s@, e@),
        _ => false,
    }
}

/// Checks an export query: the format must be `nested` (the default) or
/// `flat`, and a given start must not sort after a given end. `pretty`
/// defaults to false and `session` to none.
pub fn check_export(params: &ExportParams) -> (r: Result<ExportRequest, String>)
    ensures
        ({
            let f = requested_format(*params);
            if f != "nested"@ && f != "flat"@ {
                r matches Err(e) && e@ == bad_format_message()
            } else if range_backwards(*params) {
                r matches Err(e) && e@ == bad_range_message()
            } else {
                r matches Ok(req) && req.format@ == f && req.pretty == (params.pretty == Some(true))
                    && opt_str(req.start) == opt_str(params.start) && opt_str(req.end) == opt_str(
                    params.end,
                ) && req.session@ == match params.session {
                    Some(s) => s@,
                    None => Seq::<char>::empty(),
                }
            }
        }),
{
    let fmt: String = match &params.format {
        Some(f) => f.clone(),
        None => "nested".to_owned(),
    };
    if !str_eq(fmt.as_str(), "nested") && !str_eq(fmt.as_str(), "flat") {
        let mut m: Vec<char> = Vec::new();
        push_str(&mut m, "Invalid format, use 'nested' or 'flat'.");
        return Err(string_of(m.as_slice()));
    }
    match (&params.start, &params.end) {
        (Some(s), Some(e)) => {
            if str_after(s.as_str(), e.as_str()) {
                let mut m: Vec<char> = Vec::new();
                push_str(&mut m, "start must not be after end");
                return Err(string_of(m.as_slice()));
            }
        },
        _ => {},
    }
    let pretty = match params.pretty {
        Some(b) => b,
        None => false,
    };
    let session: String = match &params.session {
        Some(s) => s.clone(),
        None => String::new(),
    };
    Ok(ExportRequest { format: fmt, pretty, start: params.start.clone(), end: params.end.clone(), session })
}

/// The message for an export that produced nothing.
pub open spec fn empty_export_message() -> Seq<char> {
    "Export returned no data \u{2014} check server logs for details."@
}

/// Checks what an export produced: an empty document is refused.
pub fn check_export_output(json: &str) -> (r: Result<(), String>)
    ensures
        match r {
            Ok(()) => json@.len() > 0,
            Err(e) => json@.len() == 0 && e@ == empty_export_message(),
        },
{
    if json.is_empty() {
        let mut m: Vec<char> = Vec::new();
        push_str(&mut m, "Export returned no data \u{2014} check server logs for details.");
        Err(string_of(m.as_slice()))
    } else {
        Ok(())
    }
}

/// The import mode that an import query asks for: `overwrite` when none is
/// given, else as `ImportMode::from_str` reads it.
pub fn import_mode(params: &ImportParams) -> (mode: ImportMode)
    ensures
        mode == import_mode_of(lowercase(match params.mode {
            Some(m) => m@,
            None => "overwrite"@,
        })),
        match params.mode {
            Some(m) => all_ascii(m@) ==> mode == import_mode_of(ascii_lowercase(m@)),
            None => mode == ImportMode::Overwrite,
        },
{
    match &params.mode {
        Some(m) => {
            let s: &str = m.as_str();
            assert(s@ == m@);
            ImportMode::from_str(s)
        },
        None => {
            let mode = ImportMode::from_str("overwrite");
            proof {
                reveal_strlit("overwrite");
                reveal_strlit("merge");
                reveal_strlit("\u{53e0}\u{52a0}");
                assert(all_ascii("overwrite"@));
                assert(ascii_lowercase("overwrite"@) =~= "overwrite"@);
            }
            mode
        },
    }
}

/// The name under which an import reports its mode.
pub fn mode_name(mode: ImportMode) -> (name: &'static str)
    ensures
        name@ == match mode {
            ImportMode::Overwrite => "Overwrite"@,
            ImportMode::Merge => "Merge"@,
        },
{
    match mode {
        ImportMode::Overwrite => "Overwrite",
        ImportMode::Merge => "Merge",
    }
}

/// The progress of an export as reported to clients. `idle` is absent while
/// an export runs.
#[derive(Debug, Clone, Copy, PartialEq, Eq, Structural)]
pub struct ProgressReport {
    pub current: u64,
    pub total: u64,
    pub done: bool,
    pub idle: Option<bool>,
}

/// What a client is told of a progress sample `(current, total, finished)`:
/// a finished export is done; a running one is done when the total is
/// reached, its current count capped at the total; no sample means idle.
pub open spec fn report_of(val: Option<(u64, u64, bool)>) -> ProgressReport {
    match val {
        Some((_, _, true)) => ProgressReport { current: 0, total: 0, done: true, idle: Some(false) },
        Some((current, total, false)) => ProgressReport {
            current: if current <= total {
                current
            } else {
                total
            },
            total,
            done: total > 0 && current >= total,
            idle: None,
        },
        None => ProgressReport { current: 0, total: 0, done: false, idle: Some(true) },
    }
}

/// The report of a progress sample.
pub fn progress_report(val: Option<(u64, u64, bool)>) -> (r: ProgressReport)
    ensures
        r == report_of(val),
{
    match val {
        Some((_, _, true)) => ProgressReport { current: 0, total: 0, done: true, idle: Some(false) },
        Some((current, total, false)) => ProgressReport {
            current: if current <= total {
                current
            } else {
                total
            },
            total,
            done: total > 0 && current >= total,
            idle: None,
        },
        None => ProgressReport { current: 0, total: 0, done: false, idle: Some(true) },
    }
}

/// `true` or `false`.
pub open spec fn bool_json(b: bool) -> Seq<char> {
    if b {
        "true"@
    } else {
        "false"@
    }
}

/// A progress report as a JSON object, its keys in order.
pub open spec fn report_json(r: ProgressReport) -> Seq<char> {
    "{\"current\":"@ + decimal(r.current as nat) + ",\"done\":"@ + bool_json(r.done) + match r.idle {
        Some(b) => ",\"idle\":"@ + bool_json(b),
        None => Seq::<char>::empty(),
    } + ",\"total\":"@ + decimal(r.total as nat) + "}"@
}

/// Appends `true` or `false`.
fn push_bool(out: &mut Vec<char>, b: bool)
    ensures
        final(out)@ == old(out)@ + bool_json(b),
{
    if b {
        push_str(out, "true");
    } else {
        push_str(out, "false");
    }
}

/// The JSON text that clients are sent for a progress sample.
pub fn progress_value(val: Option<(u64, u64, bool)>) -> (s: String)
    ensures
        s@ == report_json(report_of(val)),
{
    let r = progress_report(val);
    let mut out: Vec<char> = Vec::new();
    push_str(&mut out, "{\"current\":");
    push_decimal(&mut out, r.current);
    push_str(&mut out, ",\"done\":");
    push_bool(&mut out, r.done);
    let ghost mid = out@;
    match r.idle {
        Some(b) => {
            push_str(&mut out, ",\"idle\":");
            push_bool(&mut out, b);
        },
        None => {},
    }
    push_str(&mut out, ",\"total\":");
    push_decimal(&mut out, r.total);
    push_str(&mut out, "}");
    assert(out@ =~= report_json(r));
    string_of(out.as_slice())
}

/// One poll of an export's progress: the sample to publish and whether
/// polling stops. A finished export, or one that reached its total, is
/// published as finished and ends the polling.
pub fn progress_poll(current: u64, total: u64, done: bool) -> (r: ((u64, u64, bool), bool))
    ensures
        if done || (total > 0 && current >= total) {
            r == ((total, total, true), true)
        } else {
            r == ((current, total, false), false)
        },
{
    if done || (total > 0 && current >= total) {
        ((total, total, true), true)
    } else {
        ((current, total, false), false)
    }
}

/// The changes to push to a live client that last saw `last` and should
/// now see `current`: every key whose count is new or changed, with its
/// count, and every key that vanished, with 0.
pub open spec fn counts_delta_spec(last: Map<Seq<char>, u64>, current: Map<Seq<char>, u64>) -> Map<Seq<char>, u64> {
    Map::new(
        |k: Seq<char>|
            (current.contains_key(k) && !(last.contains_key(k) && last[k] == current[k])) || (
            last.contains_key(k) && !current.contains_key(k)),
        |k: Seq<char>|
            if current.contains_key(k) {
                current[k]
            } else {
                0
            },
    )
}

/// The changes to push to a live client that last saw `last`.
pub fn counts_delta(last: &CountMap, current: &CountMap) -> (delta: CountMap)
    ensures
        delta@ == counts_delta_spec(last@, current@),
{
    let ghost target = counts_delta_spec(last@, current@);
    let mut delta = CountMap::new();
    let n = current.entry_count();
    let ghost cs = current.entries_seq();
    let mut i: usize = 0;
    while i < n
        invariant
            i <= n,
            n == cs.len(),
            cs == current.entries_seq(),
            keys_distinct(cs),
            current@ == crate::counts::entries_view(cs),
            target == counts_delta_spec(last@, current@),
            forall|k: Seq<char>| #[trigger] delta@.contains_key(k) ==> target.contains_key(k) && delta@[k] == target[k]
                && current@.contains_key(k),
            forall|j: int| 0 <= j < i ==> (target.contains_key((#[trigger] cs[j]).0@) && current@.contains_key(cs[j].0@))
                ==> delta@.contains_key(cs[j].0@),
        decreases n - i,
    {
        let (k, v) = current.entry_at(i);
        let changed = match last.get(k.as_str()) {
            Some(w) => *w != v,
            None => true,
        };
        if changed {
            delta.insert(k.clone(), v);
        }
        i = i + 1;
    }
    proof {
        assert forall|k: Seq<char>| #[trigger] target.contains_key(k) && current@.contains_key(k) implies delta@.contains_key(k) by {
            let q = choose|q: int| 0 <= q < cs.len() && #[trigger] cs[q].0@ == k;
            assert(target.contains_key(cs[q].0@));
        }
    }
    let m = last.entry_count();
    let ghost ls = last.entries_seq();
    let mut j: usize = 0;
    while j < m
        invariant
            j <= m,
            m == ls.len(),
            ls == last.entries_seq(),
            keys_distinct(ls),
            last@ == crate::counts::entries_view(ls),
            n == cs.len(),
            keys_distinct(cs),
            current@ == crate::counts::entries_view(cs),
            target == counts_delta_spec(last@, current@),
            forall|k: Seq<char>| #[trigger] delta@.contains_key(k) ==> target.contains_key(k) && delta@[k] == target[k],
            forall|k: Seq<char>| #[trigger] target.contains_key(k) && current@.contains_key(k) ==> delta@.contains_key(k),
            forall|q: int| 0 <= q < j ==> (target.contains_key((#[trigger] ls[q]).0@) && !current@.contains_key(ls[q].0@))
                ==> delta@.contains_key(ls[q].0@),
        decreases m - j,
    {
        let (k, _) = last.entry_at(j);
        if !current.contains_key(k.as_str()) {
            delta.insert(k.clone(), 0);
        }
        j = j + 1;
    }
    proof {
        assert forall|k: Seq<char>| #[trigger] target.contains_key(k) implies delta@.contains_key(k) by {
            if !current@.contains_key(k) {
                assert(last@.contains_key(k));
                let q = choose|q: int| 0 <= q < ls.len() && #[trigger] ls[q].0@ == k;
                assert(target.contains_key(ls[q].0@));
            }
        }
        assert(delta@ =~= target);
    }
    delta
}

/// Law: a live client that held `last` and applies the pushed changes holds
/// the current counts: every current key at its count, every vanished key
/// at 0, and no other key.
pub proof fn lemma_delta_brings_client_up_to_date(last: Map<Seq<char>, u64>, current: Map<Seq<char>, u64>)
    ensures
        ({
            let seen = last.union_prefer_right(counts_delta_spec(last, current));
            &&& forall|k: Seq<char>| #[trigger] current.contains_key(k) ==> seen.contains_key(k) && seen[k] == current[k]
            &&& forall|k: Seq<char>| #[trigger] last.contains_key(k) && !current.contains_key(k) ==> seen[k] == 0
            &&& forall|k: Seq<char>| #[trigger] seen.contains_key(k) <==> last.contains_key(k) || current.contains_key(k)
        }),
{
}

/// Law: nothing is pushed to a client that already holds the current
/// counts.
pub proof fn lemma_no_delta_when_unchanged(counts: Map<Seq<char>, u64>)
    ensures
        counts_delta_spec(counts, counts) == Map::<Seq<char>, u64>::empty(),
{
    assert(counts_delta_spec(counts, counts) =~= Map::<Seq<char>, u64>::empty());
}

} // verus!
