//! The JSON export of the stored counts: string escaping, the progress that
//! an export reports, and the writer that renders the rows a backend reads.
use vstd::prelude::*;
use std::sync::atomic::{AtomicBool, AtomicU64, Ordering};
use crate::text::{chars_eq, chars_of, decimal, push_decimal, push_str, str_eq, string_of};

verus! {

/// A control character (Unicode general category `Cc`), as tested by
/// `char::is_control`.
pub open spec fn is_control(c: char) -> bool {
    (c as u32) <= 0x1f || (0x7f <= (c as u32) && (c as u32) <= 0x9f)
}

/// A lowercase hexadecimal digit of value `d`.
pub open spec fn hex_digit(d: nat) -> char {
    if d < 10 {
        ((48 + d) as u32) as char
    } else {
        ((87 + d) as u32) as char
    }
}

/// How one character is written inside a JSON string.
pub open spec fn escape_char(c: char) -> Seq<char> {
    if c == '"' {
        seq!['\\', '"']
    } else if c == '\\' {
        seq!['\\', '\\']
    } else if c == '\n' {
        seq!['\\', 'n']
    } else if c == '\r' {
        seq!['\\', 'r']
    } else if c == '\t' {
        seq!['\\', 't']
    } else if is_control(c) {
        seq!['\\', 'u', '0', '0', hex_digit(((c as u32) / 16) as nat), hex_digit(((c as u32) % 16) as nat)]
    } else {
        seq![c]
    }
}

/// `s` with each character escaped for a JSON string.
pub open spec fn escaped(s: Seq<char>) -> Seq<char>
    decreases s.len(),
{
    if s.len() == 0 {
        Seq::empty()
    } else {
        escaped(s.drop_last()) + escape_char(s.last())
    }
}

/// `s` as a JSON string literal.
pub open spec fn quoted(s: Seq<char>) -> Seq<char> {
    seq!['"'] + escaped(s) + seq!['"']
}

/// The lowercase hexadecimal digit of `d`.
fn hex_char(d: u32) -> (c: char)
    requires
        d < 16,
    ensures
        c == hex_digit(d as nat),
{
    if d < 10 {
        let b: u8 = d as u8;
        (48u8 + b) as char
    } else {
        let b: u8 = d as u8;
        (87u8 + b) as char
    }
}

/// Appends `s` to `out` as a JSON string literal.
pub fn write_json_str(out: &mut Vec<char>, s: &str)
    ensures
        final(out)@ == old(out)@ + quoted(s@),
{
    let cs = chars_of(s);
    out.push('"');
    let ghost start = out@;
    let mut i: usize = 0;
    while i < cs.len()
        invariant
            i <= cs@.len(),
            cs@ == s@,
            out@ == start + escaped(s@.take(i as int)),
        decreases cs@.len() - i,
    {
        let c = cs[i];
        let ghost before = out@;
        if c == '"' {
            out.push('\\');
            out.push('"');
        } else if c == '\\' {
            out.push('\\');
            out.push('\\');
        } else if c == '\n' {
            out.push('\\');
            out.push('n');
        } else if c == '\r' {
            out.push('\\');
            out.push('r');
        } else if c == '\t' {
            out.push('\\');
            out.push('t');
        } else {
            let code: u32 = c as u32;
            if code <= 0x1f || (0x7f <= code && code <= 0x9f) {
                out.push('\\');
                out.push('u');
                out.push('0');
                out.push('0');
                out.push(hex_char(code / 16));
                out.push(hex_char(code % 16));
            } else {
                out.push(c);
            }
        }
        proof {
            assert(out@ =~= before + escape_char(c));
            assert(s@.take(i + 1).drop_last() =~= s@.take(i as int));
            assert(s@.take(i + 1).last() == c);
        }
        i = i + 1;
    }
    out.push('"');
    assert(s@.take(cs@.len() as int) =~= s@);
    assert(out@ =~= old(out)@ + quoted(s@));
}

/// The decimal representation of a signed number.
pub open spec fn signed_decimal(n: int) -> Seq<char> {
    if n < 0 {
        seq!['-'] + decimal((-n) as nat)
    } else {
        decimal(n as nat)
    }
}

/// Appends the decimal representation of `n`.
pub fn push_signed_decimal(out: &mut Vec<char>, n: i64)
    ensures
        final(out)@ == old(out)@ + signed_decimal(n as int),
{
    if n < 0 {
        out.push('-');
        let m: u64 = ((-(n + 1)) as u64) + 1;
        push_decimal(out, m);
    } else {
        push_decimal(out, n as u64);
    }
}

/// How far an export is: rows counted so far, rows expected, and whether it
/// has ended. Shared with whoever reports the progress.
pub struct ExportProgress {
    pub total: AtomicU64,
    pub current: AtomicU64,
    pub done: AtomicBool,
}

impl ExportProgress {
    /// A progress record with nothing counted and not done.
    pub fn new() -> (p: ExportProgress) {
        ExportProgress { total: AtomicU64::new(0), current: AtomicU64::new(0), done: AtomicBool::new(false) }
    }
}

/// The whole percentage that `current` rows of `total` make; 0 when the
/// total is 0 or `current * 100` overflows.
pub open spec fn percent_of(current: u64, total: u64) -> i32 {
    if total > 0 && current * 100 <= u64::MAX {
        ((current * 100) / (total as int)) as i32
    } else {
        0
    }
}

/// The whole percentage that `current` rows of `total` make.
pub fn export_percent(current: u64, total: u64) -> (pct: i32)
    ensures
        pct == percent_of(current, total),
{
    if total > 0 {
        match current.checked_mul(100) {
            Some(v) => (v / total) as i32,
            None => 0,
        }
    } else {
        0
    }
}

/// Records that `current` rows of `total` are done: the shared count is
/// updated only when the percentage changed since `last_pct`, which then
/// becomes the new percentage.
pub fn update_export_progress(progress: &ExportProgress, current: u64, total: u64, last_pct: &mut i32) -> (pct: i32)
    ensures
        pct == percent_of(current, total),
        *final(last_pct) == pct,
{
    let pct = export_percent(current, total);
    if pct != *last_pct {
        progress.current.store(current, Ordering::Relaxed);
        *last_pct = pct;
    }
    pct
}

/// One stored count: date, key and count.
pub type RowView = (Seq<char>, Seq<char>, i64);

/// A row of the flat format: `{"date":..,"key":..,"count":..}`.
pub open spec fn flat_record(r: RowView) -> Seq<char> {
    "{\"date\":"@ + quoted(r.0) + ",\"key\":"@ + quoted(r.1) + ",\"count\":"@ + signed_decimal(
        r.2 as int,
    ) + seq!['}']
}

/// The rows of the flat format, separated by commas.
pub open spec fn flat_body(rows: Seq<RowView>) -> Seq<char>
    decreases rows.len(),
{
    if rows.len() == 0 {
        Seq::empty()
    } else if rows.len() == 1 {
        flat_record(rows[0])
    } else {
        flat_body(rows.drop_last()) + seq![','] + flat_record(rows.last())
    }
}

/// What the nested format writes for one more row, given whether no date
/// was opened yet and the date opened last; with the new state.
pub open spec fn nested_step(first: bool, cur: Seq<char>, r: RowView) -> (Seq<char>, bool, Seq<char>) {
    let entry = quoted(r.1) + seq![':'] + signed_decimal(r.2 as int);
    if r.0 != cur {
        let close: Seq<char> = if first { Seq::empty() } else { seq!['}', ','] };
        (close + quoted(r.0) + seq![':', '{'] + entry, false, r.0)
    } else {
        (seq![','] + entry, first, cur)
    }
}

/// The nested format's text for `rows`, whether no date was opened yet, and
/// the date opened last. Consecutive rows of one date share an object.
pub open spec fn nested_run(rows: Seq<RowView>) -> (Seq<char>, bool, Seq<char>)
    decreases rows.len(),
{
    if rows.len() == 0 {
        (Seq::empty(), true, Seq::empty())
    } else {
        let prev = nested_run(rows.drop_last());
        let step = nested_step(prev.1, prev.2, rows.last());
        (prev.0 + step.0, step.1, step.2)
    }
}

/// The value of `records`: an array of rows in the flat format, else an
/// object of dates.
pub open spec fn records_text(flat: bool, rows: Seq<RowView>) -> Seq<char> {
    if flat {
        seq!['['] + flat_body(rows) + seq![']']
    } else {
        let run = nested_run(rows);
        seq!['{'] + run.0 + (if run.1 { Seq::<char>::empty() } else { seq!['}'] }) + seq!['}']
    }
}

/// The export's opening: backend, time of export and the `records` key.
pub open spec fn export_header(backend: Seq<char>, exported_at: Seq<char>) -> Seq<char> {
    seq!['{'] + quoted("backend"@) + ":\""@ + backend + "\","@ + quoted("exported_at"@) + seq![':']
        + quoted(exported_at) + ",\"records\":"@
}

/// The whole export document for `rows`, in the flat format when `flat`.
pub open spec fn export_text(backend: Seq<char>, exported_at: Seq<char>, flat: bool, rows: Seq<RowView>) -> Seq<char> {
    export_header(backend, exported_at) + records_text(flat, rows) + seq!['}']
}

/// Appends one row in the flat format.
fn push_flat_record(out: &mut Vec<char>, date: &str, key: &str, count: i64)
    ensures
        final(out)@ == old(out)@ + flat_record((date@, key@, count)),
{
    push_str(out, "{\"date\":");
    write_json_str(out, date);
    push_str(out, ",\"key\":");
    write_json_str(out, key);
    push_str(out, ",\"count\":");
    push_signed_decimal(out, count);
    out.push('}');
    assert(out@ =~= old(out)@ + flat_record((date@, key@, count)));
}

/// Appends one row in the nested format, opening its date's object when the
/// date differs from the one opened last.
fn push_nested_entry(
    out: &mut Vec<char>,
    first: &mut bool,
    current_date: &mut Vec<char>,
    date: &str,
    key: &str,
    count: i64,
)
    ensures
        ({
            let step = nested_step(*old(first), old(current_date)@, (date@, key@, count));
            &&& final(out)@ == old(out)@ + step.0
            &&& *final(first) == step.1
            &&& final(current_date)@ == step.2
        }),
{
    let d = chars_of(date);
    if !chars_eq(d.as_slice(), current_date.as_slice()) {
        if !*first {
            out.push('}');
            out.push(',');
        }
        *first = false;
        write_json_str(out, date);
        out.push(':');
        out.push('{');
        *current_date = d;
    } else {
        out.push(',');
    }
    write_json_str(out, key);
    out.push(':');
    push_signed_decimal(out, count);
    let ghost step = nested_step(*old(first), old(current_date)@, (date@, key@, count));
    assert(out@ =~= old(out)@ + step.0);
}

/// The flat body grows by a comma and the new record.
proof fn lemma_flat_body_push(rows: Seq<RowView>, r: RowView)
    ensures
        flat_body(rows.push(r)) == if rows.len() == 0 {
            flat_record(r)
        } else {
            flat_body(rows) + seq![','] + flat_record(r)
        },
{
    assert(rows.push(r).drop_last() =~= rows);
}

/// The nested run grows by one step.
proof fn lemma_nested_run_push(rows: Seq<RowView>, r: RowView)
    ensures
        ({
            let prev = nested_run(rows);
            let step = nested_step(prev.1, prev.2, r);
            nested_run(rows.push(r)) == (prev.0 + step.0, step.1, step.2)
        }),
{
    assert(rows.push(r).drop_last() =~= rows);
}

/// Renders an export document row by row, as a backend's cursor yields the
/// rows, and reports the progress.
pub struct ExportWriter {
    out: Vec<char>,
    flat: bool,
    first: bool,
    current_date: Vec<char>,
    current: u64,
    total: u64,
    last_pct: i32,
    head: Ghost<Seq<char>>,
    rows: Ghost<Seq<RowView>>,
}

impl ExportWriter {
    /// The rows rendered so far.
    pub closed spec fn rows(&self) -> Seq<RowView> {
        self.rows@
    }

    /// The opening that the writer was made with.
    pub closed spec fn header(&self) -> Seq<char> {
        self.head@
    }

    /// Whether the writer renders the flat format.
    pub closed spec fn is_flat(&self) -> bool {
        self.flat
    }

    /// The number of rows expected.
    pub closed spec fn expected(&self) -> u64 {
        self.total
    }

    /// The percentage last reported.
    pub closed spec fn reported_percent(&self) -> i32 {
        self.last_pct
    }

    /// The writer's state agrees with the rows rendered so far.
    pub closed spec fn wf(&self) -> bool {
        &&& self.current == self.rows@.len()
        &&& if self.flat {
            self.out@ == self.head@ + seq!['['] + flat_body(self.rows@)
        } else {
            let run = nested_run(self.rows@);
            &&& self.out@ == self.head@ + seq!['{'] + run.0
            &&& self.first == run.1
            &&& self.current_date@ == run.2
        }
    }

    /// Starts an export of `total` rows from `backend`, made at
    /// `exported_at`, in the flat format when `format` is `flat` and the
    /// nested one otherwise; the expected total is published to `progress`.
    pub fn new(backend: &str, exported_at: &str, format: &str, total: u64, progress: &ExportProgress) -> (w: ExportWriter)
        ensures
            w.wf(),
            w.rows() == Seq::<RowView>::empty(),
            w.header() == export_header(backend@, exported_at@),
            w.is_flat() == (format@ == "flat"@),
            w.expected() == total,
            w.reported_percent() == -1,
    {
        progress.total.store(total, Ordering::Relaxed);
        let mut out: Vec<char> = Vec::new();
        out.push('{');
        write_json_str(&mut out, "backend");
        push_str(&mut out, ":\"");
        push_str(&mut out, backend);
        push_str(&mut out, "\",");
        write_json_str(&mut out, "exported_at");
        out.push(':');
        write_json_str(&mut out, exported_at);
        push_str(&mut out, ",\"records\":");
        let ghost head = out@;
        assert(head =~= export_header(backend@, exported_at@));
        let flat = str_eq(format, "flat");
        if flat {
            out.push('[');
        } else {
            out.push('{');
        }
        let w = ExportWriter {
            out,
            flat,
            first: true,
            current_date: Vec::new(),
            current: 0,
            total,
            last_pct: -1,
            head: Ghost(head),
            rows: Ghost(Seq::empty()),
        };
        assert(w.current_date@ =~= Seq::<char>::empty());
        assert(flat_body(Seq::<RowView>::empty()) == Seq::<char>::empty());
        assert(w.out@ =~= head + seq!['['] + flat_body(Seq::<RowView>::empty()) || !flat);
        assert(w.out@ =~= head + seq!['{'] + nested_run(Seq::<RowView>::empty()).0 || flat);
        w
    }

    /// Renders one more row and reports the progress.
    pub fn push_row(&mut self, date: &str, key: &str, count: i64, progress: &ExportProgress)
        requires
            old(self).wf(),
            old(self).rows().len() < u64::MAX,
        ensures
            final(self).wf(),
            final(self).rows() == old(self).rows().push((date@, key@, count)),
            final(self).header() == old(self).header(),
            final(self).is_flat() == old(self).is_flat(),
            final(self).expected() == old(self).expected(),
            final(self).reported_percent() == percent_of(final(self).rows().len() as u64, old(self).expected()),
    {
        let ghost row: RowView = (date@, key@, count);
        let ghost old_rows = self.rows@;
        self.current = self.current + 1;
        update_export_progress(progress, self.current, self.total, &mut self.last_pct);
        if self.flat {
            if self.current > 1 {
                self.out.push(',');
            }
            push_flat_record(&mut self.out, date, key, count);
            proof {
                lemma_flat_body_push(old_rows, row);
                assert(self.out@ =~= self.head@ + seq!['['] + flat_body(old_rows.push(row)));
            }
        } else {
            push_nested_entry(&mut self.out, &mut self.first, &mut self.current_date, date, key, count);
            proof {
                lemma_nested_run_push(old_rows, row);
                assert(self.out@ =~= self.head@ + seq!['{'] + nested_run(old_rows.push(row)).0);
            }
        }
        self.rows = Ghost(old_rows.push(row));
    }

    /// Closes the document and hands it out.
    pub fn finish(self) -> (text: String)
        requires
            self.wf(),
        ensures
            text@ == self.header() + records_text(self.is_flat(), self.rows()) + seq!['}'],
    {
        let mut out = self.out;
        if self.flat {
            out.push(']');
        } else {
            if !self.first {
                out.push('}');
            }
            out.push('}');
        }
        out.push('}');
        assert(out@ =~= self.head@ + records_text(self.flat, self.rows@) + seq!['}']);
        string_of(out.as_slice())
    }
}

/// Renders a whole export of `rows`, as `ExportWriter` does row by row.
pub fn render_export(backend: &str, exported_at: &str, format: &str, rows: &Vec<(String, String, i64)>, progress: &ExportProgress) -> (text: String)
    requires
        rows@.len() < u64::MAX,
    ensures
        text@ == export_text(backend@, exported_at@, format@ == "flat"@, rows@.map_values(|r: (String, String, i64)| (r.0@, r.1@, r.2))),
{
    let ghost views = rows@.map_values(|r: (String, String, i64)| (r.0@, r.1@, r.2));
    let mut w = ExportWriter::new(backend, exported_at, format, rows.len() as u64, progress);
    let mut i: usize = 0;
    while i < rows.len()
        invariant
            i <= rows@.len(),
            rows@.len() < u64::MAX,
            w.wf(),
            w.rows() == views.take(i as int),
            w.header() == export_header(backend@, exported_at@),
            w.is_flat() == (format@ == "flat"@),
            views == rows@.map_values(|r: (String, String, i64)| (r.0@, r.1@, r.2)),
        decreases rows@.len() - i,
    {
        let r = &rows[i];
        w.push_row(r.0.as_str(), r.1.as_str(), r.2, progress);
        assert(views.take(i + 1) =~= views.take(i as int).push(views[i as int]));
        i = i + 1;
    }
    assert(views.take(rows@.len() as int) =~= views);
    w.finish()
}

/// Law: while no more rows are counted than expected, the reported
/// percentage lies between 0 and 100.
pub proof fn lemma_percent_in_range(current: u64, total: u64)
    requires
        current <= total,
    ensures
        0 <= percent_of(current, total) <= 100,
{
    if total > 0 && current * 100 <= u64::MAX {
        let q = (current * 100) / (total as int);
        assert(q <= 100) by (nonlinear_arith)
            requires
                current <= total,
                total > 0,
                q == (current * 100) / (total as int),
        ;
        assert(q >= 0) by (nonlinear_arith)
            requires
                total > 0,
                q == (current * 100) / (total as int),
                current >= 0,
        ;
    }
}

} // verus!
