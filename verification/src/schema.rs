//! The SQLite store's own rules: which table names are accepted, how an old
//! table is recognised and its rows migrated, and the queries of an export.
use vstd::prelude::*;
use crate::changelog::{utf8_len, utf8_len_exec};
use crate::text::{chars_of, push_str, str_eq, string_of};

verus! {

/// The number of bytes that `s` takes in UTF-8.
pub open spec fn utf8_size(s: Seq<char>) -> int
    decreases s.len(),
{
    if s.len() == 0 {
        0
    } else {
        utf8_size(s.drop_last()) + utf8_len(s.last())
    }
}

/// An ASCII letter.
pub open spec fn is_ascii_alpha(c: char) -> bool {
    ('a' <= c && c <= 'z') || ('A' <= c && c <= 'Z')
}

/// A character that may start an identifier.
pub open spec fn is_ident_start(c: char) -> bool {
    is_ascii_alpha(c) || c == '_'
}

/// A character that may occur in an identifier.
pub open spec fn is_ident_char(c: char) -> bool {
    is_ascii_alpha(c) || ('0' <= c && c <= '9') || c == '_'
}

/// The first index at or after `i` whose character may not occur in an
/// identifier, or the length.
pub open spec fn first_bad_char(s: Seq<char>, i: int) -> int
    decreases s.len() - i,
{
    if 0 <= i < s.len() {
        if is_ident_char(s[i]) {
            first_bad_char(s, i + 1)
        } else {
            i
        }
    } else {
        s.len() as int
    }
}

/// What checking `name` as an SQLite identifier finds: nothing, or the
/// message naming the first rule it breaks.
pub open spec fn identifier_error(name: Seq<char>, label: Seq<char>) -> Option<Seq<char>> {
    if name.len() == 0 {
        Some("SQLite "@ + label + " must not be empty"@)
    } else if utf8_size(name) > 64 {
        Some("SQLite "@ + label + " '"@ + name + "' exceeds 64 characters"@)
    } else if !is_ident_start(name[0]) {
        Some("SQLite "@ + label + " '"@ + name + "' must start with a letter or underscore"@)
    } else if first_bad_char(name, 0) < name.len() {
        Some(
            "SQLite "@ + label + " '"@ + name + "' contains invalid character '"@ + seq![
                name[first_bad_char(name, 0)],
            ] + "'"@,
        )
    } else {
        None
    }
}

/// The UTF-8 size of `s`.
fn utf8_size_exec(s: &Vec<char>) -> (n: u128)
    ensures
        n == utf8_size(s@),
{
    let mut n: u128 = 0;
    let mut i: usize = 0;
    while i < s.len()
        invariant
            i <= s@.len(),
            n == utf8_size(s@.take(i as int)),
            n <= 4 * i,
        decreases s@.len() - i,
    {
        let k = utf8_len_exec(s[i]);
        proof {
            assert(s@.take(i + 1).drop_last() =~= s@.take(i as int));
        }
        n = n + k as u128;
        i = i + 1;
    }
    assert(s@.take(s@.len() as int) =~= s@);
    n
}

/// Checks that `name` can be used as an SQLite table name: not empty, at
/// most 64 bytes, a letter or `_` first, then only letters, digits and `_`.
/// `label` names the setting in the message.
pub fn validate_identifier(name: &str, label: &str) -> (r: Result<(), String>)
    ensures
        match r {
            Ok(()) => identifier_error(name@, label@) is None,
            Err(e) => identifier_error(name@, label@) == Some(e@),
        },
{
    let cs = chars_of(name);
    let mut m: Vec<char> = Vec::new();
    push_str(&mut m, "SQLite ");
    push_str(&mut m, label);
    if cs.len() == 0 {
        push_str(&mut m, " must not be empty");
        assert(m@ =~= "SQLite "@ + label@ + " must not be empty"@);
        return Err(string_of(m.as_slice()));
    }
    push_str(&mut m, " '");
    push_str(&mut m, name);
    if utf8_size_exec(&cs) > 64 {
        push_str(&mut m, "' exceeds 64 characters");
        assert(m@ =~= "SQLite "@ + label@ + " '"@ + name@ + "' exceeds 64 characters"@);
        return Err(string_of(m.as_slice()));
    }
    assert(m@ =~= "SQLite "@ + label@ + " '"@ + name@);
    let c0 = cs[0];
    if !(('a' <= c0 && c0 <= 'z') || ('A' <= c0 && c0 <= 'Z') || c0 == '_') {
        push_str(&mut m, "' must start with a letter or underscore");
        assert(m@ =~= "SQLite "@ + label@ + " '"@ + name@ + "' must start with a letter or underscore"@);
        return Err(string_of(m.as_slice()));
    }
    let mut i: usize = 0;
    while i < cs.len()
        invariant
            i <= cs@.len(),
            cs@ == name@,
            first_bad_char(name@, 0) == first_bad_char(name@, i as int),
            m@ == "SQLite "@ + label@ + " '"@ + name@,
            name@.len() > 0,
            utf8_size(name@) <= 64,
            is_ident_start(name@[0]),
        decreases cs@.len() - i,
    {
        let c = cs[i];
        if !(('a' <= c && c <= 'z') || ('A' <= c && c <= 'Z') || ('0' <= c && c <= '9') || c == '_') {
            let ghost head = m@;
            push_str(&mut m, "' contains invalid character '");
            m.push(c);
            push_str(&mut m, "'");
            assert(m@ =~= head + "' contains invalid character '"@ + seq![c] + "'"@);
            return Err(string_of(m.as_slice()));
        }
        i = i + 1;
    }
    Ok(())
}

/// What opening the counts table needs: create it, migrate an old table, or
/// nothing.
#[derive(Debug, Clone, Copy, PartialEq, Eq, Structural)]
pub enum SchemaAction {
    /// No table yet: create it.
    Create,
    /// A table of the old format (one JSON text per day, in a `data`
    /// column): migrate it to one row per key.
    Migrate,
    /// The table is current.
    Keep,
}

/// Whether one of `columns` is `name`.
pub open spec fn has_column(columns: Seq<String>, name: Seq<char>) -> bool {
    exists|i: int| 0 <= i < columns.len() && #[trigger] columns[i]@ == name
}

/// Decides what opening the counts table needs, from whether it exists and
/// its columns.
pub fn schema_action(table_exists: bool, columns: &Vec<String>) -> (a: SchemaAction)
    ensures
        a == if !table_exists {
            SchemaAction::Create
        } else if has_column(columns@, "data"@) {
            SchemaAction::Migrate
        } else {
            SchemaAction::Keep
        },
{
    if !table_exists {
        return SchemaAction::Create;
    }
    let mut i: usize = 0;
    while i < columns.len()
        invariant
            table_exists,
            i <= columns@.len(),
            forall|j: int| 0 <= j < i ==> #[trigger] columns@[j]@ != "data"@,
        decreases columns@.len() - i,
    {
        if str_eq(columns[i].as_str(), "data") {
            assert(columns@[i as int]@ == "data"@);
            assert(has_column(columns@, "data"@));
            return SchemaAction::Migrate;
        }
        i = i + 1;
    }
    SchemaAction::Keep
}

/// The counts that `serde_json` reads from a day's JSON text in the old
/// format, as (key, count) pairs in key order; `None` when it cannot.
pub uninterp spec fn old_day_counts(text: Seq<char>) -> Option<Seq<(Seq<char>, u64)>>;

/// Reads a day's JSON text of the old format with
/// `serde_json::from_str::<BTreeMap<String, u64>>`, as pairs in key order,
/// or `None` when it is not such an object. The claim is only that the
/// result is a function of the text; JSON's grammar is not restated.
#[verifier::external_body]
fn parse_old_day(text: &str) -> (r: Option<Vec<(String, u64)>>)
    ensures
        match r {
            Some(v) => old_day_counts(text@) == Some(v@.map_values(|p: (String, u64)| (p.0@, p.1))),
            None => old_day_counts(text@) is None,
        },
{
    serde_json::from_str::<std::collections::BTreeMap<String, u64>>(text).ok().map(|m| m.into_iter().collect())
}

/// The rows that the old format's days become: one (date, key, count) per
/// key of each day whose text can be read; unreadable days are dropped.
pub open spec fn migrated(old: Seq<(Seq<char>, Seq<char>)>) -> Seq<(Seq<char>, Seq<char>, u64)>
    decreases old.len(),
{
    if old.len() == 0 {
        Seq::empty()
    } else {
        let d = old.last();
        migrated(old.drop_last()) + match old_day_counts(d.1) {
            Some(ps) => ps.map_values(|p: (Seq<char>, u64)| (d.0, p.0, p.1)),
            None => Seq::empty(),
        }
    }
}

/// Converts the days of an old-format table, (date, JSON text) pairs, into
/// rows of the current format.
pub fn migrate_old_rows(old: &Vec<(String, String)>) -> (rows: Vec<(String, String, u64)>)
    ensures
        rows@.map_values(|r: (String, String, u64)| (r.0@, r.1@, r.2)) == migrated(
            old@.map_values(|o: (String, String)| (o.0@, o.1@)),
        ),
{
    let ghost ov = old@.map_values(|o: (String, String)| (o.0@, o.1@));
    let mut rows: Vec<(String, String, u64)> = Vec::new();
    let mut i: usize = 0;
    while i < old.len()
        invariant
            i <= old@.len(),
            ov == old@.map_values(|o: (String, String)| (o.0@, o.1@)),
            rows@.map_values(|r: (String, String, u64)| (r.0@, r.1@, r.2)) == migrated(ov.take(i as int)),
        decreases old@.len() - i,
    {
        let ghost before = rows@.map_values(|r: (String, String, u64)| (r.0@, r.1@, r.2));
        match parse_old_day(old[i].1.as_str()) {
            Some(pairs) => {
                let ghost pv = pairs@.map_values(|p: (String, u64)| (p.0@, p.1));
                let mut j: usize = 0;
                while j < pairs.len()
                    invariant
                        j <= pairs@.len(),
                        i < old@.len(),
                        pv == pairs@.map_values(|p: (String, u64)| (p.0@, p.1)),
                        rows@.map_values(|r: (String, String, u64)| (r.0@, r.1@, r.2)) == before + pv.take(
                            j as int,
                        ).map_values(|p: (Seq<char>, u64)| (old@[i as int].0@, p.0, p.1)),
                    decreases pairs@.len() - j,
                {
                    let ghost prev = rows@;
                    rows.push((old[i].0.clone(), pairs[j].0.clone(), pairs[j].1));
                    proof {
                        let g = |r: (String, String, u64)| (r.0@, r.1@, r.2);
                        assert(rows@.map_values(g) =~= prev.map_values(g).push(g(rows@.last())));
                        let f = |p: (Seq<char>, u64)| (old@[i as int].0@, p.0, p.1);
                        assert(pv.take(j + 1).map_values(f) =~= pv.take(j as int).map_values(f).push(f(pv[j as int])));
                        assert(rows@.map_values(|r: (String, String, u64)| (r.0@, r.1@, r.2)) =~= before + pv.take(
                            j + 1,
                        ).map_values(f));
                    }
                    j = j + 1;
                }
                assert(pv.take(pairs@.len() as int) =~= pv);
            },
            None => {},
        }
        proof {
            assert(ov.take(i + 1).drop_last() =~= ov.take(i as int));
            assert(ov.take(i + 1).last() == (old@[i as int].0@, old@[i as int].1@));
            assert(rows@.map_values(|r: (String, String, u64)| (r.0@, r.1@, r.2)) =~= migrated(ov.take(i + 1)));
        }
        i = i + 1;
    }
    assert(ov.take(old@.len() as int) =~= ov);
    rows
}

/// A document of MongoDB's old format, by its plain values: its `date` when
/// that is a string, and the entries of its `data` sub-document (absent
/// when that is not a document), each value given when it is an integer.
pub struct OldDocument {
    pub date: Option<String>,
    pub data: Option<Vec<(String, Option<i64>)>>,
}

/// The view of an old document.
pub type OldDocumentView = (Option<Seq<char>>, Option<Seq<(Seq<char>, Option<i64>)>>);

/// The view of an old document.
pub open spec fn old_document_view(d: OldDocument) -> OldDocumentView {
    (
        match d.date {
            Some(s) => Some(s@),
            None => None,
        },
        match d.data {
            Some(v) => Some(v@.map_values(|e: (String, Option<i64>)| (e.0@, e.1))),
            None => None,
        },
    )
}

/// The rows that a day's entries become: one (date, key, count) per entry
/// whose value is an integer.
pub open spec fn entry_rows(date: Seq<char>, es: Seq<(Seq<char>, Option<i64>)>) -> Seq<(Seq<char>, Seq<char>, i64)>
    decreases es.len(),
{
    if es.len() == 0 {
        Seq::empty()
    } else {
        entry_rows(date, es.drop_last()) + match es.last().1 {
            Some(c) => seq![(date, es.last().0, c)],
            None => Seq::empty(),
        }
    }
}

/// The rows that old documents become: the entry rows of each document
/// with a date and a `data` document, in order; other documents give none.
pub open spec fn old_document_rows(docs: Seq<OldDocumentView>) -> Seq<(Seq<char>, Seq<char>, i64)>
    decreases docs.len(),
{
    if docs.len() == 0 {
        Seq::empty()
    } else {
        let d = docs.last();
        old_document_rows(docs.drop_last()) + match (d.0, d.1) {
            (Some(date), Some(es)) => entry_rows(date, es),
            _ => Seq::empty(),
        }
    }
}

/// Converts documents of MongoDB's old format into rows of the current
/// one.
pub fn flatten_old_documents(docs: &Vec<OldDocument>) -> (rows: Vec<(String, String, i64)>)
    ensures
        rows@.map_values(|r: (String, String, i64)| (r.0@, r.1@, r.2)) == old_document_rows(
            docs@.map_values(|d: OldDocument| old_document_view(d)),
        ),
{
    let ghost dv = docs@.map_values(|d: OldDocument| old_document_view(d));
    let mut rows: Vec<(String, String, i64)> = Vec::new();
    let mut i: usize = 0;
    while i < docs.len()
        invariant
            i <= docs@.len(),
            dv == docs@.map_values(|d: OldDocument| old_document_view(d)),
            rows@.map_values(|r: (String, String, i64)| (r.0@, r.1@, r.2)) == old_document_rows(dv.take(i as int)),
        decreases docs@.len() - i,
    {
        let ghost before = rows@.map_values(|r: (String, String, i64)| (r.0@, r.1@, r.2));
        match (&docs[i].date, &docs[i].data) {
            (Some(date), Some(entries)) => {
                let ghost ev = entries@.map_values(|e: (String, Option<i64>)| (e.0@, e.1));
                let mut j: usize = 0;
                while j < entries.len()
                    invariant
                        j <= entries@.len(),
                        ev == entries@.map_values(|e: (String, Option<i64>)| (e.0@, e.1)),
                        rows@.map_values(|r: (String, String, i64)| (r.0@, r.1@, r.2)) == before + entry_rows(
                            date@,
                            ev.take(j as int),
                        ),
                    decreases entries@.len() - j,
                {
                    let ghost prev = rows@;
                    proof {
                        assert(ev.take(j + 1).drop_last() =~= ev.take(j as int));
                    }
                    match entries[j].1 {
                        Some(c) => {
                            rows.push((date.clone(), entries[j].0.clone(), c));
                            proof {
                                let g = |r: (String, String, i64)| (r.0@, r.1@, r.2);
                                assert(rows@.map_values(g) =~= prev.map_values(g).push(g(rows@.last())));
                                assert(rows@.map_values(g) =~= before + entry_rows(date@, ev.take(j + 1)));
                            }
                        },
                        None => {
                            proof {
                                assert(entry_rows(date@, ev.take(j + 1)) =~= entry_rows(date@, ev.take(j as int)));
                            }
                        },
                    }
                    j = j + 1;
                }
                assert(ev.take(entries@.len() as int) =~= ev);
            },
            _ => {},
        }
        proof {
            assert(dv.take(i + 1).drop_last() =~= dv.take(i as int));
            assert(dv.take(i + 1).last() == old_document_view(docs@[i as int]));
            assert(rows@.map_values(|r: (String, String, i64)| (r.0@, r.1@, r.2)) =~= old_document_rows(
                dv.take(i + 1),
            ));
        }
        i = i + 1;
    }
    assert(dv.take(docs@.len() as int) =~= dv);
    rows
}

/// The conditions on `date` of a MongoDB export over the days from `start`
/// to `end`, either bound optional: `$gte` the start, then `$lte` the end;
/// none when neither is given (every day).
pub fn mongo_date_conditions(start: Option<&str>, end: Option<&str>) -> (c: Vec<(&'static str, String)>)
    ensures
        c@.map_values(|p: (&'static str, String)| (p.0@, p.1@)) == (match start {
            Some(s) => seq![("$gte"@, s@)],
            None => Seq::empty(),
        }) + (match end {
            Some(e) => seq![("$lte"@, e@)],
            None => Seq::empty(),
        }),
{
    let mut c: Vec<(&'static str, String)> = Vec::new();
    match start {
        Some(s) => c.push(("$gte", s.to_owned())),
        None => {},
    }
    match end {
        Some(e) => c.push(("$lte", e.to_owned())),
        None => {},
    }
    proof {
        let f = |p: (&'static str, String)| (p.0@, p.1@);
        assert(c@.map_values(f) =~= (match start {
            Some(s) => seq![("$gte"@, s@)],
            None => Seq::empty(),
        }) + (match end {
            Some(e) => seq![("$lte"@, e@)],
            None => Seq::empty(),
        }));
    }
    c
}

/// The queries of an SQLite export of `table`: the rows, their number, and
/// the parameters (the given start and end days, in that order).
pub struct ExportQueries {
    pub select: String,
    pub count: String,
    pub params: Vec<String>,
}

/// The filter on days that an export's range gives.
pub open spec fn range_filter(start: Option<Seq<char>>, end: Option<Seq<char>>) -> Seq<char> {
    match (start, end) {
        (Some(_), Some(_)) => " WHERE date >= ?1 AND date <= ?2"@,
        (Some(_), None) => " WHERE date >= ?1"@,
        (None, Some(_)) => " WHERE date <= ?1"@,
        (None, None) => Seq::empty(),
    }
}

/// The parameters that an export's range gives.
pub open spec fn range_params(start: Option<Seq<char>>, end: Option<Seq<char>>) -> Seq<Seq<char>> {
    match (start, end) {
        (Some(s), Some(e)) => seq![s, e],
        (Some(s), None) => seq![s],
        (None, Some(e)) => seq![e],
        (None, None) => Seq::empty(),
    }
}

/// Whether text `a` sorts at or before text `b`, character by character
/// (SQLite's binary order of text).
pub open spec fn text_le(a: Seq<char>, b: Seq<char>) -> bool
    decreases a.len(),
{
    if a.len() == 0 {
        true
    } else if b.len() == 0 {
        false
    } else if a[0] != b[0] {
        (a[0] as u32) < (b[0] as u32)
    } else {
        text_le(a.drop_first(), b.drop_first())
    }
}

/// Whether a row of day `date` meets one SQL condition `date >= ?N` or
/// `date <= ?N`, with `?N` the `N`-th of `params` (`N` one digit).
pub open spec fn condition_holds(c: Seq<char>, params: Seq<Seq<char>>, date: Seq<char>) -> bool {
    let n = (c[9] as u32) as int - 49;
    &&& c.len() == 10
    &&& c.take(5) == "date "@
    &&& c.subrange(7, 9) == " ?"@
    &&& 0 <= n < params.len()
    &&& (c.subrange(5, 7) == ">="@ && text_le(params[n], date)) || (c.subrange(5, 7) == "<="@ && text_le(
        date,
        params[n],
    ))
}

/// Whether a row of day `date` meets conditions joined by ` AND `.
pub open spec fn conditions_hold(s: Seq<char>, params: Seq<Seq<char>>, date: Seq<char>) -> bool
    decreases s.len(),
{
    if s.len() <= 10 {
        condition_holds(s, params, date)
    } else if s.len() < 15 {
        false
    } else {
        &&& s.subrange(10, 15) == " AND "@
        &&& condition_holds(s.take(10), params, date)
        &&& conditions_hold(s.skip(15), params, date)
    }
}

/// Whether an SQL filter keeps a row of day `date`: an empty filter keeps
/// every row, ` WHERE ` and conditions keep the rows that meet them.
pub open spec fn filter_keeps(f: Seq<char>, params: Seq<Seq<char>>, date: Seq<char>) -> bool {
    if f.len() == 0 {
        true
    } else {
        f.len() > 7 && f.take(7) == " WHERE "@ && conditions_hold(f.skip(7), params, date)
    }
}

/// Law: an export's filter, with its parameters, keeps exactly the days at
/// or after the start (when one is given) and at or before the end (when
/// one is given).
pub proof fn lemma_export_range(start: Option<Seq<char>>, end: Option<Seq<char>>, date: Seq<char>)
    ensures
        filter_keeps(range_filter(start, end), range_params(start, end), date) == ((start matches Some(s) ==> text_le(
            s,
            date,
        )) && (end matches Some(e) ==> text_le(date, e))),
{
    reveal_strlit(" WHERE date >= ?1 AND date <= ?2");
    reveal_strlit(" WHERE date >= ?1");
    reveal_strlit(" WHERE date <= ?1");
    reveal_strlit(" WHERE ");
    reveal_strlit("date ");
    reveal_strlit(" ?");
    reveal_strlit(">=");
    reveal_strlit("<=");
    reveal_strlit(" AND ");
    reveal_with_fuel(conditions_hold, 2);
    let f = range_filter(start, end);
    let ps = range_params(start, end);
    match (start, end) {
        (Some(s), Some(e)) => {
            assert(f == " WHERE date >= ?1 AND date <= ?2"@);
            assert(f.len() == 32);
            let c = f.skip(7);
            assert(f.take(7) =~= " WHERE "@);
            assert(c.subrange(10, 15) =~= " AND "@);
            let c1 = c.take(10);
            let c2 = c.skip(15);
            assert(c1.take(5) =~= "date "@);
            assert(c1.subrange(7, 9) =~= " ?"@);
            assert(c1.subrange(5, 7) =~= ">="@);
            assert(c2.take(5) =~= "date "@);
            assert(c2.subrange(7, 9) =~= " ?"@);
            assert(c2.subrange(5, 7) =~= "<="@);
            assert(c2.len() == 10);
            assert(c1[9] == '1' && c2[9] == '2');
            assert(ps == seq![s, e]);
            assert(c1.subrange(5, 7) != "<="@) by {
                assert(c1.subrange(5, 7)[0] != "<="@[0]);
            }
            assert(c2.subrange(5, 7) != ">="@) by {
                assert(c2.subrange(5, 7)[0] != ">="@[0]);
            }
        },
        (Some(s), None) => {
            assert(f == " WHERE date >= ?1"@);
            let c = f.skip(7);
            assert(f.take(7) =~= " WHERE "@);
            assert(c.take(5) =~= "date "@);
            assert(c.subrange(7, 9) =~= " ?"@);
            assert(c.subrange(5, 7) =~= ">="@);
            assert(c.len() == 10 && c[9] == '1');
            assert(c.subrange(5, 7) != "<="@) by {
                assert(c.subrange(5, 7)[0] != "<="@[0]);
            }
        },
        (None, Some(e)) => {
            assert(f == " WHERE date <= ?1"@);
            let c = f.skip(7);
            assert(f.take(7) =~= " WHERE "@);
            assert(c.take(5) =~= "date "@);
            assert(c.subrange(7, 9) =~= " ?"@);
            assert(c.subrange(5, 7) =~= "<="@);
            assert(c.len() == 10 && c[9] == '1');
            assert(c.subrange(5, 7) != ">="@) by {
                assert(c.subrange(5, 7)[0] != ">="@[0]);
            }
        },
        (None, None) => {},
    }
}

/// Builds the queries of an SQLite export of `table` over the days from
/// `start` to `end`, either bound optional: rows sorted by date then key.
pub fn export_queries(table: &str, start: Option<&str>, end: Option<&str>) -> (q: ExportQueries)
    ensures
        ({
            let s = match start {
                Some(x) => Some(x@),
                None => None,
            };
            let e = match end {
                Some(x) => Some(x@),
                None => None,
            };
            &&& q.select@ == "SELECT date, key, count FROM "@ + table@ + range_filter(s, e) + " ORDER BY date, key"@
            &&& q.count@ == "SELECT COUNT(*) FROM "@ + table@ + range_filter(s, e)
            &&& q.params@.map_values(|p: String| p@) == range_params(s, e)
        }),
{
    let filter: &str = match (start, end) {
        (Some(_), Some(_)) => " WHERE date >= ?1 AND date <= ?2",
        (Some(_), None) => " WHERE date >= ?1",
        (None, Some(_)) => " WHERE date <= ?1",
        (None, None) => "",
    };
    let mut params: Vec<String> = Vec::new();
    match start {
        Some(s) => params.push(s.to_owned()),
        None => {},
    }
    match end {
        Some(e) => params.push(e.to_owned()),
        None => {},
    }
    let mut sel: Vec<char> = Vec::new();
    push_str(&mut sel, "SELECT date, key, count FROM ");
    push_str(&mut sel, table);
    push_str(&mut sel, filter);
    push_str(&mut sel, " ORDER BY date, key");
    let mut cnt: Vec<char> = Vec::new();
    push_str(&mut cnt, "SELECT COUNT(*) FROM ");
    push_str(&mut cnt, table);
    push_str(&mut cnt, filter);
    proof {
        reveal_strlit("");
    }
    let ghost s = match start {
        Some(x) => Some(x@),
        None => None,
    };
    let ghost e = match end {
        Some(x) => Some(x@),
        None => None,
    };
    assert(params@.map_values(|p: String| p@) =~= range_params(s, e));
    ExportQueries { select: string_of(sel.as_slice()), count: string_of(cnt.as_slice()), params }
}

} // verus!
