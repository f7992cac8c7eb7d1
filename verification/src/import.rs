//! The JSON import: reading an export document's `records`, in the nested
//! or the flat format, into counts per day, and combining them with the
//! stored counts. The document arrives parsed, as a `Json` value.
use vstd::prelude::*;
use crate::clock::{parse_ymd_date, ymd_date_accepted};
use crate::counts::{
    entries_view, keys_distinct, lemma_view_at, lemma_view_finite, lemma_view_push, lemma_view_update,
    sum_counts, sums_fit, CountMap,
};
use crate::database::ImportMode;
use crate::export::{nested_run, nested_step, quoted, records_text, signed_decimal, RowView};
use crate::text::{decimal, join_with};
use crate::text::{push_str, string_of};

verus! {

/// One element of a flat `records` array, as far as the import reads it:
/// its `date` and `key` when they are strings, its `count` when it is an
/// integer that fits `i64`.
pub struct FlatItem {
    pub date: Option<String>,
    pub key: Option<String>,
    pub count: Option<i64>,
}

/// The `records` of an import document.
pub enum RawRecords {
    /// An object from dates to the day's counts; a day's counts are absent
    /// when they are not an object of non-negative integers.
    Nested(Vec<(String, Option<Vec<(String, u64)>>)>),
    /// An array of `{date, key, count}` objects.
    Flat(Vec<FlatItem>),
    /// Anything else.
    Invalid,
}

/// The view of a flat element.
pub type FlatItemView = (Option<Seq<char>>, Option<Seq<char>>, Option<i64>);

/// The view of a nested day: its date and, when readable, its counts.
pub type NestedDayView = (Seq<char>, Option<Seq<(Seq<char>, u64)>>);

/// The view of an import document's `records`.
pub enum RecordsView {
    Nested(Seq<NestedDayView>),
    Flat(Seq<FlatItemView>),
    Invalid,
}

/// The view of a present-or-absent string.
pub open spec fn opt_view(o: Option<String>) -> Option<Seq<char>> {
    match o {
        Some(s) => Some(s@),
        None => None,
    }
}

/// The view of a list of (key, count) pairs.
pub open spec fn pairs_view(v: Seq<(String, u64)>) -> Seq<(Seq<char>, u64)> {
    v.map_values(|p: (String, u64)| (p.0@, p.1))
}

/// The view of a nested day.
pub open spec fn nested_day_view(d: (String, Option<Vec<(String, u64)>>)) -> NestedDayView {
    (
        d.0@,
        match d.1 {
            Some(v) => Some(pairs_view(v@)),
            None => None,
        },
    )
}

/// The view of a flat element.
pub open spec fn flat_item_view(i: FlatItem) -> FlatItemView {
    (opt_view(i.date), opt_view(i.key), i.count)
}

impl View for RawRecords {
    type V = RecordsView;

    open spec fn view(&self) -> RecordsView {
        match self {
            RawRecords::Nested(v) => RecordsView::Nested(v@.map_values(|d| nested_day_view(d))),
            RawRecords::Flat(v) => RecordsView::Flat(v@.map_values(|i| flat_item_view(i))),
            RawRecords::Invalid => RecordsView::Invalid,
        }
    }
}

/// A JSON value, as the import reads it: a number that fits `i64` is
/// `Int`, a larger non-negative integer `UInt`, any other number `Float`
/// (whose value is not read); an object is its members, in order, each name
/// once.
pub enum Json {
    Null,
    Bool(bool),
    Int(i64),
    UInt(u64),
    Float,
    Str(String),
    Arr(Vec<Json>),
    Obj(Vec<(String, Json)>),
}

/// The member of `fields` named `name`, the first one if several are.
pub open spec fn member(fields: Seq<(String, Json)>, name: Seq<char>) -> Option<Json>
    decreases fields.len(),
{
    if fields.len() == 0 {
        None
    } else if fields[0].0@ == name {
        Some(fields[0].1)
    } else {
        member(fields.drop_first(), name)
    }
}

/// The member `name` of `v`; none when `v` is not an object or has no such
/// member.
pub open spec fn field(v: Json, name: Seq<char>) -> Option<Json> {
    match v {
        Json::Obj(fs) => member(fs@, name),
        _ => None,
    }
}

/// A present string value.
pub open spec fn text_of(o: Option<Json>) -> Option<Seq<char>> {
    match o {
        Some(Json::Str(s)) => Some(s@),
        _ => None,
    }
}

/// A present integer value that fits `i64`.
pub open spec fn int_of(o: Option<Json>) -> Option<i64> {
    match o {
        Some(Json::Int(i)) => Some(i),
        _ => None,
    }
}

/// A value read as a count: a non-negative integer.
pub open spec fn count_of_json(v: Json) -> Option<u64> {
    match v {
        Json::Int(i) => if i >= 0 {
            Some(i as u64)
        } else {
            None
        },
        Json::UInt(u) => Some(u),
        _ => None,
    }
}

/// The members of an object read as counts: all of them, in order, when
/// every value is a count; none otherwise.
pub open spec fn member_counts(fs: Seq<(String, Json)>) -> Option<Seq<(Seq<char>, u64)>>
    decreases fs.len(),
{
    if fs.len() == 0 {
        Some(Seq::empty())
    } else {
        match (member_counts(fs.drop_last()), count_of_json(fs.last().1)) {
            (Some(p), Some(c)) => Some(p.push((fs.last().0@, c))),
            _ => None,
        }
    }
}

/// A day's counts in a nested document: an object whose every value is a
/// count; none otherwise.
pub open spec fn day_counts(v: Json) -> Option<Seq<(Seq<char>, u64)>> {
    match v {
        Json::Obj(fs) => member_counts(fs@),
        _ => None,
    }
}

/// An element of a flat `records` array: its `date` and `key` when they
/// are strings, its `count` when it is an integer that fits `i64`.
pub open spec fn flat_item_of(i: Json) -> FlatItemView {
    (text_of(field(i, "date"@)), text_of(field(i, "key"@)), int_of(field(i, "count"@)))
}

/// The `records` of an import document: an object gives each date with its
/// counts, an array its elements, anything else (or none) is invalid.
pub open spec fn records_of(doc: Json) -> RecordsView {
    match field(doc, "records"@) {
        Some(Json::Obj(fs)) => RecordsView::Nested(fs@.map_values(|m: (String, Json)| (m.0@, day_counts(m.1)))),
        Some(Json::Arr(items)) => RecordsView::Flat(items@.map_values(|i: Json| flat_item_of(i))),
        _ => RecordsView::Invalid,
    }
}

/// The member of `fields` named `name`.
fn find_member<'a>(fields: &'a Vec<(String, Json)>, name: &str) -> (r: Option<&'a Json>)
    ensures
        match member(fields@, name@) {
            Some(v) => r matches Some(x) && *x == v,
            None => r is None,
        },
{
    let mut i: usize = 0;
    assert(fields@.skip(0) =~= fields@);
    while i < fields.len()
        invariant
            i <= fields@.len(),
            member(fields@, name@) == member(fields@.skip(i as int), name@),
        decreases fields@.len() - i,
    {
        let ghost rest = fields@.skip(i as int);
        if crate::text::str_eq(fields[i].0.as_str(), name) {
            assert(rest[0] == fields@[i as int]);
            return Some(&fields[i].1);
        }
        assert(rest.drop_first() =~= fields@.skip(i + 1));
        i = i + 1;
    }
    assert(fields@.skip(i as int) =~= Seq::<(String, Json)>::empty());
    None
}

/// The member `name` of `v`.
fn field_of<'a>(v: &'a Json, name: &str) -> (r: Option<&'a Json>)
    ensures
        match field(*v, name@) {
            Some(x) => r matches Some(y) && *y == x,
            None => r is None,
        },
{
    match v {
        Json::Obj(fs) => find_member(fs, name),
        _ => None,
    }
}

/// A present string value, copied.
fn text_value(o: Option<&Json>) -> (r: Option<String>)
    ensures
        opt_view(r) == text_of(match o {
            Some(x) => Some(*x),
            None => None,
        }),
{
    match o {
        Some(Json::Str(s)) => Some(s.clone()),
        _ => None,
    }
}

/// A present integer value that fits `i64`.
fn int_value(o: Option<&Json>) -> (r: Option<i64>)
    ensures
        r == int_of(match o {
            Some(x) => Some(*x),
            None => None,
        }),
{
    match o {
        Some(Json::Int(i)) => Some(*i),
        _ => None,
    }
}

/// A day's counts in a nested document.
fn day_counts_of(v: &Json) -> (r: Option<Vec<(String, u64)>>)
    ensures
        match r {
            Some(p) => day_counts(*v) == Some(pairs_view(p@)),
            None => day_counts(*v) is None,
        },
{
    match v {
        Json::Obj(fs) => {
            assert(day_counts(*v) == member_counts(fs@));
            let mut out: Vec<(String, u64)> = Vec::new();
            let mut i: usize = 0;
            while i < fs.len()
                invariant
                    i <= fs@.len(),
                    member_counts(fs@.take(i as int)) == Some(pairs_view(out@)),
                    day_counts(*v) == member_counts(fs@),
                decreases fs@.len() - i,
            {
                proof {
                    assert(fs@.take(i + 1).drop_last() =~= fs@.take(i as int));
                    assert(fs@.take(i + 1).last() == fs@[i as int]);
                }
                let c: Option<u64> = match &fs[i].1 {
                    Json::Int(n) => if *n >= 0 {
                        Some(*n as u64)
                    } else {
                        None
                    },
                    Json::UInt(u) => Some(*u),
                    _ => None,
                };
                match c {
                    Some(c) => {
                        let ghost before = out@;
                        out.push((fs[i].0.clone(), c));
                        proof {
                            assert(pairs_view(out@) =~= pairs_view(before).push((fs@[i as int].0@, c)));
                        }
                    },
                    None => {
                        proof {
                            assert(count_of_json(fs@[i as int].1) is None);
                            lemma_member_counts_none(fs@, i as int);
                        }
                        return None;
                    },
                }
                i = i + 1;
            }
            assert(fs@.take(fs@.len() as int) =~= fs@);
            Some(out)
        },
        _ => None,
    }
}

/// Once a value is not a count, the members up to it, and all of them, are
/// not counts.
proof fn lemma_member_counts_none(fs: Seq<(String, Json)>, i: int)
    requires
        0 <= i < fs.len(),
        count_of_json(fs[i].1) is None,
    ensures
        member_counts(fs) is None,
    decreases fs.len(),
{
    if i == fs.len() - 1 {
    } else {
        lemma_member_counts_none(fs.drop_last(), i);
        assert(fs.drop_last()[i] == fs[i]);
    }
}

/// Reads the `records` of an import document.
pub fn read_records(doc: &Json) -> (r: RawRecords)
    ensures
        r@ == records_of(*doc),
{
    proof {
        reveal_strlit("records");
        reveal_strlit("date");
        reveal_strlit("key");
        reveal_strlit("count");
    }
    match field_of(doc, "records") {
        Some(Json::Obj(fs)) => {
            let mut days: Vec<(String, Option<Vec<(String, u64)>>)> = Vec::new();
            let mut i: usize = 0;
            while i < fs.len()
                invariant
                    i <= fs@.len(),
                    days@.map_values(|d| nested_day_view(d)) == fs@.take(i as int).map_values(
                        |m: (String, Json)| (m.0@, day_counts(m.1)),
                    ),
                decreases fs@.len() - i,
            {
                let counts = day_counts_of(&fs[i].1);
                let ghost before = days@;
                days.push((fs[i].0.clone(), counts));
                proof {
                    let f = |d| nested_day_view(d);
                    let g = |m: (String, Json)| (m.0@, day_counts(m.1));
                    assert(days@.map_values(f) =~= before.map_values(f).push(f(days@.last())));
                    assert(fs@.take(i + 1).map_values(g) =~= fs@.take(i as int).map_values(g).push(g(fs@[i as int])));
                }
                i = i + 1;
            }
            assert(fs@.take(fs@.len() as int) =~= fs@);
            RawRecords::Nested(days)
        },
        Some(Json::Arr(items)) => {
            let mut out: Vec<FlatItem> = Vec::new();
            let mut i: usize = 0;
            while i < items.len()
                invariant
                    i <= items@.len(),
                    out@.map_values(|x| flat_item_view(x)) == items@.take(i as int).map_values(
                        |j: Json| flat_item_of(j),
                    ),
                decreases items@.len() - i,
            {
                let it = &items[i];
                let item = FlatItem {
                    date: text_value(field_of(it, "date")),
                    key: text_value(field_of(it, "key")),
                    count: int_value(field_of(it, "count")),
                };
                let ghost before = out@;
                out.push(item);
                proof {
                    let f = |x| flat_item_view(x);
                    let g = |j: Json| flat_item_of(j);
                    assert(out@.map_values(f) =~= before.map_values(f).push(f(out@.last())));
                    assert(items@.take(i + 1).map_values(g) =~= items@.take(i as int).map_values(g).push(
                        g(items@[i as int]),
                    ));
                }
                i = i + 1;
            }
            assert(items@.take(items@.len() as int) =~= items@);
            RawRecords::Flat(out)
        },
        _ => RawRecords::Invalid,
    }
}

/// The counts that a list of (key, count) pairs sets, later pairs winning.
pub open spec fn pairs_map(ps: Seq<(Seq<char>, u64)>) -> Map<Seq<char>, u64>
    decreases ps.len(),
{
    if ps.len() == 0 {
        Map::empty()
    } else {
        pairs_map(ps.drop_last()).insert(ps.last().0, ps.last().1)
    }
}

/// The counts stored for `d`, empty when there are none.
pub open spec fn day_of(m: Map<Seq<char>, Map<Seq<char>, u64>>, d: Seq<char>) -> Map<Seq<char>, u64> {
    if m.contains_key(d) {
        m[d]
    } else {
        Map::empty()
    }
}

/// The days of a nested `records` object; a day whose counts cannot be read
/// has no counts.
pub open spec fn nested_days(days: Seq<NestedDayView>) -> Map<Seq<char>, Map<Seq<char>, u64>>
    decreases days.len(),
{
    if days.len() == 0 {
        Map::empty()
    } else {
        let d = days.last();
        nested_days(days.drop_last()).insert(
            d.0,
            match d.1 {
                Some(ps) => pairs_map(ps),
                None => Map::empty(),
            },
        )
    }
}

/// The count that a flat element gives: its `count` when it is not
/// negative, else 0.
pub open spec fn item_count(c: Option<i64>) -> u64 {
    match c {
        Some(v) => if v >= 0 {
            v as u64
        } else {
            0
        },
        None => 0,
    }
}

/// The days of a flat `records` array: each element with a date and a key
/// sets that key's count on that day; later elements win.
pub open spec fn flat_days(items: Seq<FlatItemView>) -> Map<Seq<char>, Map<Seq<char>, u64>>
    decreases items.len(),
{
    if items.len() == 0 {
        Map::empty()
    } else {
        let m = flat_days(items.drop_last());
        let it = items.last();
        match (it.0, it.1) {
            (Some(d), Some(k)) => m.insert(d, day_of(m, d).insert(k, item_count(it.2))),
            _ => m,
        }
    }
}

/// The days that readable `records` hold; `None` when they are neither an
/// object nor an array.
pub open spec fn records_days(r: RecordsView) -> Option<Map<Seq<char>, Map<Seq<char>, u64>>> {
    match r {
        RecordsView::Nested(days) => Some(nested_days(days)),
        RecordsView::Flat(items) => Some(flat_days(items)),
        RecordsView::Invalid => None,
    }
}

/// The message for `records` of the wrong shape.
pub open spec fn invalid_records_message() -> Seq<char> {
    "Import JSON 'records' must be an object (nested) or array (flat)"@
}

/// The message for a date that is not `YYYY-MM-DD`.
pub open spec fn invalid_date_message(d: Seq<char>) -> Seq<char> {
    "Invalid date '"@ + d + "': expected YYYY-MM-DD format"@
}

/// The view of a list of (date, counts) entries.
pub open spec fn days_view(s: Seq<(String, CountMap)>) -> Map<Seq<char>, Map<Seq<char>, u64>> {
    entries_view(s).map_values(|c: CountMap| c@)
}

/// Counts per day. No date occurs twice.
pub struct DayCounts {
    days: Vec<(String, CountMap)>,
}

impl View for DayCounts {
    type V = Map<Seq<char>, Map<Seq<char>, u64>>;

    closed spec fn view(&self) -> Map<Seq<char>, Map<Seq<char>, u64>> {
        days_view(self.days@)
    }
}

impl DayCounts {
    #[verifier::type_invariant]
    closed spec fn inv(self) -> bool {
        keys_distinct(self.days@)
    }

    /// The entries, in the order in which their dates were first set.
    pub closed spec fn entries_seq(self) -> Seq<(String, CountMap)> {
        self.days@
    }

    /// No days.
    pub fn new() -> (d: DayCounts)
        ensures
            d@ == Map::<Seq<char>, Map<Seq<char>, u64>>::empty(),
    {
        let d = DayCounts { days: Vec::new() };
        assert(d@ =~= Map::<Seq<char>, Map<Seq<char>, u64>>::empty());
        d
    }

    /// Sets the count of `key` on `date`, adding the day when it is new.
    pub fn set_count(&mut self, date: String, key: String, count: u64)
        ensures
            final(self)@ == old(self)@.insert(date@, day_of(old(self)@, date@).insert(key@, count)),
    {
        proof {
            use_type_invariant(&*self);
        }
        let mut days: Vec<(String, CountMap)> = Vec::new();
        std::mem::swap(&mut days, &mut self.days);
        let ghost s = days@;
        let ghost m = days_view(s);
        match self.find_in(&days, &date) {
            Some(i) => {
                let (d, mut c) = days.remove(i);
                let ghost old_c = c@;
                c.insert(key, count);
                proof {
                    lemma_view_at(s, i as int);
                    lemma_view_update(s, i as int, c);
                    assert(s.remove(i as int).insert(i as int, (d, c)) =~= s.update(i as int, (s[i as int].0, c)));
                }
                days.insert(i, (d, c));
                proof {
                    assert(days_view(days@) =~= m.insert(date@, day_of(m, date@).insert(key@, count)));
                }
            },
            None => {
                let mut c = CountMap::new();
                c.insert(key, count);
                proof {
                    lemma_view_push(s, date, c);
                }
                days.push((date, c));
                proof {
                    assert(days_view(days@) =~= m.insert(date@, day_of(m, date@).insert(key@, count)));
                }
            },
        }
        self.days = days;
    }

    fn find_in(&self, days: &Vec<(String, CountMap)>, date: &String) -> (r: Option<usize>)
        requires
            keys_distinct(days@),
        ensures
            match r {
                Some(i) => i < days@.len() && days@[i as int].0@ == date@,
                None => !entries_view(days@).contains_key(date@),
            },
    {
        let mut i: usize = 0;
        while i < days.len()
            invariant
                i <= days@.len(),
                forall|j: int| 0 <= j < i ==> #[trigger] days@[j].0@ != date@,
            decreases days@.len() - i,
        {
            if days[i].0 == *date {
                return Some(i);
            }
            i = i + 1;
        }
        proof {
            if entries_view(days@).contains_key(date@) {
                let j = choose|j: int| 0 <= j < days@.len() && #[trigger] days@[j].0@ == date@;
                assert(days@[j].0@ != date@);
            }
        }
        None
    }

    /// Sets the counts of `date`, replacing what the day held.
    pub fn set_day(&mut self, date: String, counts: CountMap)
        ensures
            final(self)@ == old(self)@.insert(date@, counts@),
    {
        proof {
            use_type_invariant(&*self);
        }
        let mut days: Vec<(String, CountMap)> = Vec::new();
        std::mem::swap(&mut days, &mut self.days);
        let ghost s = days@;
        let ghost m = days_view(s);
        match self.find_in(&days, &date) {
            Some(i) => {
                let (d, _) = days.remove(i);
                proof {
                    lemma_view_at(s, i as int);
                    lemma_view_update(s, i as int, counts);
                    assert(s.remove(i as int).insert(i as int, (d, counts)) =~= s.update(i as int, (s[i as int].0, counts)));
                }
                days.insert(i, (d, counts));
                proof {
                    assert(days_view(days@) =~= m.insert(date@, counts@));
                }
            },
            None => {
                proof {
                    lemma_view_push(s, date, counts);
                }
                days.push((date, counts));
                proof {
                    assert(days_view(days@) =~= m.insert(date@, counts@));
                }
            },
        }
        self.days = days;
    }

    /// The number of days; the map holds exactly its entries, no date twice.
    pub fn len(&self) -> (n: usize)
        ensures
            n == self.entries_seq().len(),
            n == self@.dom().len(),
            keys_distinct(self.entries_seq()),
            self@ == days_view(self.entries_seq()),
    {
        proof {
            use_type_invariant(self);
            lemma_view_finite(self.days@);
            assert(days_view(self.days@).dom() =~= entries_view(self.days@).dom());
        }
        self.days.len()
    }

    /// The `i`-th day and its counts.
    pub fn entry_at(&self, i: usize) -> (e: (&String, &CountMap))
        requires
            i < self.entries_seq().len(),
        ensures
            *e.0 == self.entries_seq()[i as int].0,
            *e.1 == self.entries_seq()[i as int].1,
            self@.contains_key(e.0@),
            self@[e.0@] == e.1@,
    {
        proof {
            use_type_invariant(self);
            lemma_view_at(self.days@, i as int);
        }
        (&self.days[i].0, &self.days[i].1)
    }
}

/// The counts that a list of (key, count) pairs sets.
fn counts_of_pairs(pairs: &Vec<(String, u64)>) -> (c: CountMap)
    ensures
        c@ == pairs_map(pairs_view(pairs@)),
{
    let mut c = CountMap::new();
    let mut i: usize = 0;
    while i < pairs.len()
        invariant
            i <= pairs@.len(),
            c@ == pairs_map(pairs_view(pairs@.take(i as int))),
        decreases pairs@.len() - i,
    {
        let (k, v) = (&pairs[i].0, pairs[i].1);
        c.insert(k.clone(), v);
        proof {
            let t = pairs_view(pairs@.take(i + 1));
            assert(t.drop_last() =~= pairs_view(pairs@.take(i as int)));
            assert(t.last() == (pairs@[i as int].0@, pairs@[i as int].1));
        }
        i = i + 1;
    }
    assert(pairs@.take(pairs@.len() as int) =~= pairs@);
    c
}

/// The counts that a flat element gives.
fn item_count_exec(c: Option<i64>) -> (n: u64)
    ensures
        n == item_count(c),
{
    match c {
        Some(v) => match validate_count(v) {
            Some(n) => n,
            None => 0,
        },
        None => 0,
    }
}

/// A stored count read back: non-negative values are counts, negative ones
/// are rejected.
pub fn validate_count(v: i64) -> (r: Option<u64>)
    ensures
        r == (if v >= 0 {
            Some(v as u64)
        } else {
            None::<u64>
        }),
{
    if v >= 0 {
        Some(v as u64)
    } else {
        None
    }
}

/// Reads the days of `records`, or gives the message for `records` of the
/// wrong shape.
pub fn records_to_days(raw: &RawRecords) -> (r: Result<DayCounts, String>)
    ensures
        match records_days(raw@) {
            Some(m) => r matches Ok(d) && d@ == m,
            None => r matches Err(e) && e@ == invalid_records_message(),
        },
{
    match raw {
        RawRecords::Nested(list) => {
            let ghost vs = list@.map_values(|d| nested_day_view(d));
            let mut days = DayCounts::new();
            let mut i: usize = 0;
            while i < list.len()
                invariant
                    i <= list@.len(),
                    vs == list@.map_values(|d| nested_day_view(d)),
                    days@ == nested_days(vs.take(i as int)),
                decreases list@.len() - i,
            {
                let counts = match &list[i].1 {
                    Some(pairs) => counts_of_pairs(pairs),
                    None => CountMap::new(),
                };
                days.set_day(list[i].0.clone(), counts);
                proof {
                    let t = vs.take(i + 1);
                    assert(t.drop_last() =~= vs.take(i as int));
                    assert(t.last() == nested_day_view(list@[i as int]));
                }
                i = i + 1;
            }
            assert(vs.take(list@.len() as int) =~= vs);
            Ok(days)
        },
        RawRecords::Flat(items) => {
            let ghost vs = items@.map_values(|it| flat_item_view(it));
            let mut days = DayCounts::new();
            let mut i: usize = 0;
            while i < items.len()
                invariant
                    i <= items@.len(),
                    vs == items@.map_values(|it| flat_item_view(it)),
                    days@ == flat_days(vs.take(i as int)),
                decreases items@.len() - i,
            {
                let it = &items[i];
                proof {
                    let t = vs.take(i + 1);
                    assert(t.drop_last() =~= vs.take(i as int));
                    assert(t.last() == flat_item_view(items@[i as int]));
                }
                match (&it.date, &it.key) {
                    (Some(d), Some(k)) => {
                        let n = item_count_exec(it.count);
                        days.set_count(d.clone(), k.clone(), n);
                    },
                    _ => {},
                }
                i = i + 1;
            }
            assert(vs.take(items@.len() as int) =~= vs);
            Ok(days)
        },
        RawRecords::Invalid => {
            let mut m: Vec<char> = Vec::new();
            push_str(&mut m, "Import JSON 'records' must be an object (nested) or array (flat)");
            Err(string_of(m.as_slice()))
        },
    }
}

/// The first day, in entry order, whose date chrono does not accept.
fn first_invalid_date(days: &DayCounts) -> (r: Option<String>)
    ensures
        match r {
            Some(d) => days@.contains_key(d@) && !ymd_date_accepted(d@),
            None => forall|d: Seq<char>| #[trigger] days@.contains_key(d) ==> ymd_date_accepted(d),
        },
{
    let n = days.len();
    let mut i: usize = 0;
    while i < n
        invariant
            i <= n,
            n == days.entries_seq().len(),
            keys_distinct(days.entries_seq()),
            days@ == days_view(days.entries_seq()),
            forall|j: int| 0 <= j < i ==> ymd_date_accepted(#[trigger] days.entries_seq()[j].0@),
        decreases n - i,
    {
        let (d, _) = days.entry_at(i);
        if !parse_ymd_date(d.as_str()) {
            return Some(d.clone());
        }
        i = i + 1;
    }
    proof {
        assert forall|d: Seq<char>| #[trigger] days@.contains_key(d) implies ymd_date_accepted(d) by {
            let s = days.entries_seq();
            let j = choose|j: int| 0 <= j < s.len() && #[trigger] s[j].0@ == d;
            assert(ymd_date_accepted(s[j].0@));
        }
    }
    None
}

/// What planning an import of `records` gives: the message for `records`
/// of the wrong shape; nothing to do when they hold no day; the message for
/// a date that chrono does not accept, when there is one; else the days.
pub open spec fn planned(rv: RecordsView, r: Result<Option<DayCounts>, String>) -> bool {
    match records_days(rv) {
        None => r matches Err(e) && e@ == invalid_records_message(),
        Some(m) => if m.dom().len() == 0 {
            r matches Ok(None)
        } else if forall|d: Seq<char>| #[trigger] m.contains_key(d) ==> ymd_date_accepted(d) {
            r matches Ok(Some(days)) && days@ == m
        } else {
            r matches Err(e) && exists|d: Seq<char>|
                #[trigger] m.contains_key(d) && !ymd_date_accepted(d) && e@ == invalid_date_message(d)
        },
    }
}

/// Plans an import of `records`: the days to store, `None` when there are
/// none, or the error that refuses the import.
pub fn plan_records(raw: &RawRecords) -> (r: Result<Option<DayCounts>, String>)
    ensures
        planned(raw@, r),
{
    let days = match records_to_days(raw) {
        Ok(d) => d,
        Err(e) => return Err(e),
    };
    if days.len() == 0 {
        return Ok(None);
    }
    match first_invalid_date(&days) {
        Some(d) => {
            let mut m: Vec<char> = Vec::new();
            push_str(&mut m, "Invalid date '");
            push_str(&mut m, d.as_str());
            push_str(&mut m, "': expected YYYY-MM-DD format");
            let ghost dv = d@;
            assert(m@ =~= invalid_date_message(dv));
            Err(string_of(m.as_slice()))
        },
        None => Ok(Some(days)),
    }
}

/// Plans the import of a parsed JSON document: what `plan_records` gives
/// for its `records`.
pub fn plan_import(doc: &Json) -> (r: Result<Option<DayCounts>, String>)
    ensures
        planned(records_of(*doc), r),
{
    let raw = read_records(doc);
    plan_records(&raw)
}

/// The counts to store for a day on import: the incoming ones in
/// `Overwrite` mode, the stored ones plus the incoming ones in `Merge` mode.
pub fn merged_day(existing: &CountMap, incoming: &CountMap, mode: ImportMode) -> (r: CountMap)
    requires
        mode == ImportMode::Merge ==> sums_fit(existing@, incoming@),
    ensures
        r@ == match mode {
            ImportMode::Overwrite => incoming@,
            ImportMode::Merge => sum_counts(existing@, incoming@),
        },
{
    match mode {
        ImportMode::Overwrite => incoming.duplicate(),
        ImportMode::Merge => {
            let mut m = existing.duplicate();
            m.add_all(incoming);
            m
        },
    }
}

/// Whether an import, in either format, names `today`, and the counts it
/// gives that day (none when it does not name it or its `records` cannot be
/// read).
pub open spec fn today_part(rv: RecordsView, today: Seq<char>) -> (bool, Map<Seq<char>, u64>) {
    match records_days(rv) {
        Some(m) => (m.contains_key(today), day_of(m, today)),
        None => (false, Map::empty()),
    }
}

/// The part of an import that concerns `today`, which the in-memory counts
/// take over: whether the `records` (nested or flat) name it, and its
/// counts.
pub fn today_import(raw: &RawRecords, today: &str) -> (r: (bool, CountMap))
    ensures
        r.0 == today_part(raw@, today@).0,
        r.1@ == today_part(raw@, today@).1,
{
    match records_to_days(raw) {
        Ok(days) => {
            let n = days.len();
            let mut i: usize = 0;
            while i < n
                invariant
                    i <= n,
                    n == days.entries_seq().len(),
                    keys_distinct(days.entries_seq()),
                    days@ == days_view(days.entries_seq()),
                    records_days(raw@) == Some(days@),
                    forall|j: int| 0 <= j < i ==> (#[trigger] days.entries_seq()[j]).0@ != today@,
                decreases n - i,
            {
                let (d, c) = days.entry_at(i);
                if crate::text::str_eq(d.as_str(), today) {
                    return (true, c.duplicate());
                }
                i = i + 1;
            }
            proof {
                if days@.contains_key(today@) {
                    let s = days.entries_seq();
                    let j = choose|j: int| 0 <= j < s.len() && #[trigger] s[j].0@ == today@;
                    assert(s[j].0@ != today@);
                }
            }
            let c = CountMap::new();
            (false, c)
        },
        Err(_) => (false, CountMap::new()),
    }
}

/// The part of a parsed import document that concerns `today`: as
/// `today_import` reads it from the document's `records`.
pub fn today_import_of(doc: &Json, today: &str) -> (r: (bool, CountMap))
    ensures
        r.0 == today_part(records_of(*doc), today@).0,
        r.1@ == today_part(records_of(*doc), today@).1,
{
    let raw = read_records(doc);
    today_import(&raw, today)
}

/// The days that stored rows make up: each row sets its key's count on its
/// date.
pub open spec fn stored_days(rows: Seq<RowView>) -> Map<Seq<char>, Map<Seq<char>, u64>>
    decreases rows.len(),
{
    if rows.len() == 0 {
        Map::empty()
    } else {
        let m = stored_days(rows.drop_last());
        let r = rows.last();
        m.insert(r.0, day_of(m, r.0).insert(r.1, r.2 as u64))
    }
}

/// The flat `records` that an export of `rows` writes, as the import reads
/// them: one element per row, with its date, key and count.
pub open spec fn flat_items(rows: Seq<RowView>) -> Seq<FlatItemView> {
    rows.map_values(|r: RowView| (Some(r.0), Some(r.1), Some(r.2)))
}

/// The nested `records` that an export of `rows` writes, as the import
/// reads them: one day per run of rows with the same date, with the counts
/// of those rows.
pub open spec fn nested_groups(rows: Seq<RowView>) -> Seq<NestedDayView>
    decreases rows.len(),
{
    if rows.len() == 0 {
        Seq::empty()
    } else {
        let g = nested_groups(rows.drop_last());
        let r = rows.last();
        if g.len() > 0 && g.last().0 == r.0 {
            let ps = match g.last().1 {
                Some(ps) => ps,
                None => Seq::empty(),
            };
            g.update(g.len() - 1, (r.0, Some(ps.push((r.1, r.2 as u64)))))
        } else {
            g.push((r.0, Some(seq![(r.1, r.2 as u64)])))
        }
    }
}

/// No count is negative.
pub open spec fn counts_nonnegative(rows: Seq<RowView>) -> bool {
    forall|i: int| 0 <= i < rows.len() ==> (#[trigger] rows[i]).2 >= 0
}

/// Rows of one date are adjacent, as an export sorted by date gives them.
pub open spec fn dates_grouped(rows: Seq<RowView>) -> bool {
    forall|i: int, j: int, k: int|
        0 <= i < j < k < rows.len() && (#[trigger] rows[i]).0 == (#[trigger] rows[k]).0 ==> (#[trigger] rows[j]).0 == rows[i].0
}

/// The stored days hold exactly the dates of the rows.
proof fn lemma_stored_days_dates(rows: Seq<RowView>, d: Seq<char>)
    ensures
        stored_days(rows).contains_key(d) <==> exists|i: int| 0 <= i < rows.len() && (#[trigger] rows[i]).0 == d,
    decreases rows.len(),
{
    if rows.len() > 0 {
        let p = rows.drop_last();
        lemma_stored_days_dates(p, d);
        if exists|i: int| 0 <= i < p.len() && (#[trigger] p[i]).0 == d {
            let i = choose|i: int| 0 <= i < p.len() && (#[trigger] p[i]).0 == d;
            assert(rows[i] == p[i]);
        }
        if exists|i: int| 0 <= i < rows.len() && (#[trigger] rows[i]).0 == d {
            let i = choose|i: int| 0 <= i < rows.len() && (#[trigger] rows[i]).0 == d;
            if i < rows.len() - 1 {
                assert(p[i] == rows[i]);
            }
        }
    }
}

/// Law: reading back the flat records that an export of `rows` writes
/// gives the days that the rows make up, when no count is negative.
pub proof fn lemma_flat_records_read_back(rows: Seq<RowView>)
    requires
        counts_nonnegative(rows),
    ensures
        records_days(RecordsView::Flat(flat_items(rows))) == Some(stored_days(rows)),
    decreases rows.len(),
{
    if rows.len() > 0 {
        let p = rows.drop_last();
        assert(counts_nonnegative(p)) by {
            assert forall|i: int| 0 <= i < p.len() implies (#[trigger] p[i]).2 >= 0 by {
                assert(p[i] == rows[i]);
            }
        }
        lemma_flat_records_read_back(p);
        assert(flat_items(rows).drop_last() =~= flat_items(p));
        assert(rows[rows.len() - 1].2 >= 0);
    } else {
        assert(flat_items(rows) =~= Seq::<FlatItemView>::empty());
    }
}

/// The nested reading of an export agrees with the stored days, and its
/// last day is the last row's date with that date's counts.
proof fn lemma_nested_groups(rows: Seq<RowView>)
    requires
        counts_nonnegative(rows),
        dates_grouped(rows),
    ensures
        nested_days(nested_groups(rows)) == stored_days(rows),
        rows.len() > 0 ==> ({
            let g = nested_groups(rows);
            &&& g.len() > 0
            &&& g.last().0 == rows.last().0
            &&& g.last().1 matches Some(ps) && pairs_map(ps) == day_of(stored_days(rows), rows.last().0)
        }),
    decreases rows.len(),
{
    if rows.len() > 0 {
        let p = rows.drop_last();
        assert(counts_nonnegative(p)) by {
            assert forall|i: int| 0 <= i < p.len() implies (#[trigger] p[i]).2 >= 0 by {
                assert(p[i] == rows[i]);
            }
        }
        assert(dates_grouped(p)) by {
            assert forall|i: int, j: int, k: int|
                0 <= i < j < k < p.len() && (#[trigger] p[i]).0 == (#[trigger] p[k]).0 implies (#[trigger] p[j]).0 == p[i].0 by {
                assert(p[i] == rows[i] && p[j] == rows[j] && p[k] == rows[k]);
            }
        }
        lemma_nested_groups(p);
        let g = nested_groups(p);
        let r = rows.last();
        let s = stored_days(p);
        let kc = (r.1, r.2 as u64);
        if g.len() > 0 && g.last().0 == r.0 {
            let ps = g.last().1->0;
            let g2 = g.update(g.len() - 1, (r.0, Some(ps.push(kc))));
            assert(g2.drop_last() =~= g.drop_last());
            assert(ps.push(kc).drop_last() =~= ps);
            assert(nested_days(g2) =~= nested_days(g.drop_last()).insert(r.0, pairs_map(ps).insert(r.1, r.2 as u64)));
            assert(nested_days(g) == nested_days(g.drop_last()).insert(r.0, pairs_map(ps)));
            assert(stored_days(rows) =~= nested_days(g2));
        } else {
            if p.len() > 0 {
                assert(g.last().0 == p.last().0);
            }
            assert(!s.contains_key(r.0)) by {
                lemma_stored_days_dates(p, r.0);
                if s.contains_key(r.0) {
                    let i = choose|i: int| 0 <= i < p.len() && (#[trigger] p[i]).0 == r.0;
                    let j = p.len() - 1;
                    assert(rows[i] == p[i] && rows[j] == p[j]);
                    if i < j {
                        assert(rows[j].0 == rows[i].0);
                    }
                }
            }
            let g2 = g.push((r.0, Some(seq![kc])));
            assert(g2.drop_last() =~= g);
            assert(seq![kc].drop_last() =~= Seq::<(Seq<char>, u64)>::empty());
            assert(seq![kc].last() == kc);
            assert(pairs_map(seq![kc].drop_last()) =~= Map::<Seq<char>, u64>::empty());
            assert(pairs_map(seq![kc]) =~= Map::<Seq<char>, u64>::empty().insert(r.1, r.2 as u64));
            assert(stored_days(rows) =~= nested_days(g2));
        }
    }
}

/// Law: reading back the nested records that an export of `rows` writes
/// gives the days that the rows make up, when no count is negative and the
/// rows of each date are adjacent (the export sorts them by date).
pub proof fn lemma_nested_records_read_back(rows: Seq<RowView>)
    requires
        counts_nonnegative(rows),
        dates_grouped(rows),
    ensures
        records_days(RecordsView::Nested(nested_groups(rows))) == Some(stored_days(rows)),
{
    lemma_nested_groups(rows);
}

/// A (key, count) pair as JSON: `"key":count`.
pub open spec fn entry_json(p: (Seq<char>, u64)) -> Seq<char> {
    quoted(p.0) + seq![':'] + decimal(p.1 as nat)
}

/// A day's counts as a JSON object member: `"date":{"key":count,...}`.
pub open spec fn day_json(d: NestedDayView) -> Seq<char> {
    quoted(d.0) + seq![':', '{'] + join_with(
        match d.1 {
            Some(ps) => ps.map_values(|p: (Seq<char>, u64)| entry_json(p)),
            None => Seq::empty(),
        },
        seq![','],
    ) + seq!['}']
}

/// Nested records as a JSON object: `{"date":{...},...}`.
pub open spec fn nested_json(days: Seq<NestedDayView>) -> Seq<char> {
    seq!['{'] + join_with(days.map_values(|d: NestedDayView| day_json(d)), seq![',']) + seq!['}']
}

/// Joining one more part.
proof fn lemma_join_push(parts: Seq<Seq<char>>, x: Seq<char>, sep: Seq<char>)
    ensures
        join_with(parts.push(x), sep) == if parts.len() == 0 {
            x
        } else {
            join_with(parts, sep) + sep + x
        },
{
    assert(parts.push(x).drop_last() =~= parts);
    if parts.len() == 0 {
        assert(parts.push(x)[0] == x);
    }
}

/// A row of the open day extends its object by one member.
proof fn lemma_same_date_step(g: Seq<NestedDayView>, text: Seq<char>, r: RowView, kc: (Seq<char>, u64))
    requires
        g.len() > 0,
        g.last().1 is Some,
        g.last().1->0.len() > 0,
        g.last().0 == r.0,
        kc == (r.1, r.2 as u64),
        text + seq!['}'] == join_with(g.map_values(|d: NestedDayView| day_json(d)), seq![',']),
    ensures
        ({
            let ps = g.last().1->0;
            let g2 = g.update(g.len() - 1, (r.0, Some(ps.push(kc))));
            text + seq![','] + entry_json(kc) + seq!['}'] == join_with(g2.map_values(|d: NestedDayView| day_json(d)), seq![','])
        }),
{
    let dj = |d: NestedDayView| day_json(d);
    let ej = |q: (Seq<char>, u64)| entry_json(q);
    let ps = g.last().1->0;
    let g2 = g.update(g.len() - 1, (r.0, Some(ps.push(kc))));
    let gv = g.map_values(dj);
    let gv2 = g2.map_values(dj);
    assert(gv2 =~= gv.drop_last().push(day_json((r.0, Some(ps.push(kc))))));
    assert(gv =~= gv.drop_last().push(day_json(g.last())));
    lemma_join_push(gv.drop_last(), day_json(g.last()), seq![',']);
    lemma_join_push(gv.drop_last(), day_json((r.0, Some(ps.push(kc)))), seq![',']);
    assert(ps.push(kc).map_values(ej) =~= ps.map_values(ej).push(entry_json(kc)));
    lemma_join_push(ps.map_values(ej), entry_json(kc), seq![',']);
    let before = join_with(gv.drop_last(), seq![',']);
    let sep: Seq<char> = if gv.drop_last().len() == 0 { Seq::empty() } else { seq![','] };
    let open = quoted(r.0) + seq![':', '{'] + join_with(ps.map_values(ej), seq![',']);
    assert(day_json(g.last()) == open + seq!['}']);
    assert(join_with(gv, seq![',']) =~= before + sep + open + seq!['}']) by {
        if gv.drop_last().len() == 0 {
            assert(join_with(gv, seq![',']) == day_json(g.last()));
        }
    }
    assert(text =~= before + sep + open) by {
        assert((text + seq!['}']).drop_last() =~= text);
        assert((before + sep + open + seq!['}']).drop_last() =~= before + sep + open);
    }
    assert(join_with(gv2, seq![',']) =~= before + sep + (open + seq![','] + entry_json(kc) + seq!['}'])) by {
        if gv.drop_last().len() == 0 {
            assert(join_with(gv2, seq![',']) == day_json((r.0, Some(ps.push(kc)))));
        }
    }
}

/// The text that the nested writer has produced for `rows` is the JSON of
/// its days with the last day's object left open.
#[verifier::spinoff_prover]
proof fn lemma_nested_run_text(rows: Seq<RowView>)
    requires
        counts_nonnegative(rows),
        rows.len() > 0 ==> rows[0].0 != Seq::<char>::empty(),
    ensures
        rows.len() == 0 ==> nested_run(rows) == (Seq::<char>::empty(), true, Seq::<char>::empty()),
        rows.len() > 0 ==> ({
            let run = nested_run(rows);
            let g = nested_groups(rows);
            &&& !run.1
            &&& g.len() > 0
            &&& run.2 == g.last().0
            &&& g.last().1 is Some
            &&& g.last().1->0.len() > 0
            &&& run.0 + seq!['}'] == join_with(g.map_values(|d: NestedDayView| day_json(d)), seq![','])
        }),
    decreases rows.len(),
{
    if rows.len() > 0 {
        let p = rows.drop_last();
        let r = rows.last();
        assert(counts_nonnegative(p)) by {
            assert forall|i: int| 0 <= i < p.len() implies (#[trigger] p[i]).2 >= 0 by {
                assert(p[i] == rows[i]);
            }
        }
        if p.len() > 0 {
            assert(p[0] == rows[0]);
        }
        lemma_nested_run_text(p);
        assert(r.2 >= 0) by {
            assert(rows[rows.len() - 1] == r);
        }
        assert(signed_decimal(r.2 as int) == decimal((r.2 as u64) as nat));
        let run = nested_run(p);
        let g = nested_groups(p);
        let kc = (r.1, r.2 as u64);
        let dj = |d: NestedDayView| day_json(d);
        let ej = |q: (Seq<char>, u64)| entry_json(q);
        let entry = quoted(r.1) + seq![':'] + signed_decimal(r.2 as int);
        assert(entry == entry_json(kc));
        let step = nested_step(run.1, run.2, r);
        assert(nested_run(rows) == (run.0 + step.0, step.1, step.2));
        if p.len() == 0 {
            assert(r == rows[0]);
            assert(r.0 != run.2);
            let g2 = nested_groups(rows);
            assert(g2 == g.push((r.0, Some(seq![kc]))));
            assert(g2 =~= seq![(r.0, Some(seq![kc]))]);
            assert(seq![kc].map_values(ej) =~= seq![entry_json(kc)]);
            assert(join_with(seq![entry_json(kc)], seq![',']) == entry_json(kc));
            assert(g2.map_values(dj) =~= seq![day_json((r.0, Some(seq![kc])))]);
            assert(join_with(g2.map_values(dj), seq![',']) == day_json((r.0, Some(seq![kc]))));
            assert(nested_run(rows).0 + seq!['}'] =~= join_with(g2.map_values(dj), seq![',']));
        } else if r.0 == run.2 {
            lemma_same_date_step(g, run.0, r, kc);
            let ps = g.last().1->0;
            assert(nested_groups(rows) == g.update(g.len() - 1, (r.0, Some(ps.push(kc)))));
            assert(step.0 == seq![','] + entry);
            assert(nested_run(rows).0 + seq!['}'] =~= run.0 + seq![','] + entry_json(kc) + seq!['}']);
        } else {
            let g2 = g.push((r.0, Some(seq![kc])));
            assert(g.last().0 == run.2);
            assert(nested_groups(rows) == g2);
            let gv = g.map_values(dj);
            assert(g2.map_values(dj) =~= gv.push(day_json((r.0, Some(seq![kc])))));
            lemma_join_push(gv, day_json((r.0, Some(seq![kc]))), seq![',']);
            assert(seq![kc].map_values(ej) =~= seq![entry_json(kc)]);
            assert(join_with(seq![entry_json(kc)], seq![',']) == entry_json(kc));
            assert(step.0 == seq!['}', ','] + quoted(r.0) + seq![':', '{'] + entry);
            assert(nested_run(rows).0 + seq!['}'] =~= join_with(g2.map_values(dj), seq![',']));
        }
    }
}

/// Law: the nested export writes, as its `records`, exactly the JSON object
/// of `nested_groups(rows)`, when no count is negative and the first date is
/// not empty.
pub proof fn lemma_nested_export_is_json_of_groups(rows: Seq<RowView>)
    requires
        counts_nonnegative(rows),
        rows.len() > 0 ==> rows[0].0 != Seq::<char>::empty(),
    ensures
        records_text(false, rows) == nested_json(nested_groups(rows)),
{
    lemma_nested_run_text(rows);
    let run = nested_run(rows);
    if rows.len() == 0 {
        assert(nested_groups(rows) =~= Seq::<NestedDayView>::empty());
        assert(nested_groups(rows).map_values(|d: NestedDayView| day_json(d)) =~= Seq::<Seq<char>>::empty());
        assert(records_text(false, rows) =~= nested_json(nested_groups(rows)));
    } else {
        assert(records_text(false, rows) =~= seq!['{'] + (run.0 + seq!['}']) + seq!['}']);
        assert(records_text(false, rows) =~= nested_json(nested_groups(rows)));
    }
}

} // verus!
