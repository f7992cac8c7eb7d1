//! The in-memory counts of the current day and how they are saved.
use vstd::prelude::*;
use crate::config::UpdateMode;
use crate::counts::{count_of, sum_counts, sums_fit, CountMap};
use crate::import::day_of;
use crate::database::ImportMode;
use crate::backend::WriteKind;

verus! {

/// What a save has to persist, as decided by `MonitorData::prepare_save`.
/// `delta` holds the counts gathered since the last save of the current
/// day; on a day rollover `is_rollover` is set, `delta` is empty and
/// `yesterday_snapshot` holds the previous day's counts, stored under `date`.
pub struct SaveResult {
    pub date: String,
    pub delta: CountMap,
    /// Snapshot of the previous day on rollover, otherwise empty.
    pub yesterday_snapshot: CountMap,
    pub is_rollover: bool,
}

/// The counts of the current day: `base_counts` as last loaded or saved,
/// plus `incremental_counts` gathered since.
pub struct MonitorData {
    pub base_counts: CountMap,
    pub incremental_counts: CountMap,
    pub today: String,
}

/// A write to the database that a save needs.
pub enum StoreWrite {
    /// Replace the stored counts of `date` by `counts`.
    Replace { date: String, counts: CountMap },
    /// Add `counts` to the stored counts of `date`.
    Merge { date: String, counts: CountMap },
}

/// The write that a `StoreWrite` hands to the database front: kind, date
/// and counts.
pub open spec fn write_target(w: StoreWrite) -> (WriteKind, Seq<char>, Map<Seq<char>, u64>) {
    match w {
        StoreWrite::Replace { date, counts } => (WriteKind::Upsert, date@, counts@),
        StoreWrite::Merge { date, counts } => (WriteKind::Merge, date@, counts@),
    }
}

/// The writes that a save from `before` to `after` hands to the database:
/// on a rollover the old day's base replaces its stored counts, and the new
/// day's base, when not empty, replaces its own; on the same day, nothing
/// when nothing was gathered, else the gathered counts are added to the
/// day (`Diff`) or the day's totals replace it (`Full`).
pub open spec fn save_requests(before: MonitorData, after: MonitorData, mode: UpdateMode) -> Seq<
    (WriteKind, Seq<char>, Map<Seq<char>, u64>),
> {
    if before.today@ != after.today@ {
        let first = seq![(WriteKind::Upsert, before.today@, before.base_counts@)];
        if after.base_counts@ == Map::<Seq<char>, u64>::empty() {
            first
        } else {
            first.push((WriteKind::Upsert, after.today@, after.base_counts@))
        }
    } else if before.incremental_counts@ == Map::<Seq<char>, u64>::empty() {
        Seq::empty()
    } else {
        match mode {
            UpdateMode::Diff => seq![(WriteKind::Merge, before.today@, before.incremental_counts@)],
            UpdateMode::Full => seq![(WriteKind::Upsert, before.today@, totals(before))],
        }
    }
}

/// The day's totals: base and incremental counts added key by key.
pub open spec fn totals(d: MonitorData) -> Map<Seq<char>, u64> {
    sum_counts(d.base_counts@, d.incremental_counts@)
}

/// The outcome of preparing a save of `before` on day `day`: the state
/// `after` and the result `r`.
pub open spec fn prepared(before: MonitorData, day: Seq<char>, after: MonitorData, r: Option<SaveResult>) -> bool {
    if before.today@ != day {
        // The day rolled over: the old base is yesterday's snapshot and the
        // counts gathered since become the new day's base.
        &&& after.today@ == day
        &&& after.base_counts@ == before.incremental_counts@
        &&& after.incremental_counts@ == Map::<Seq<char>, u64>::empty()
        &&& r matches Some(res)
        &&& res.is_rollover
        &&& res.date@ == before.today@
        &&& res.delta@ == Map::<Seq<char>, u64>::empty()
        &&& res.yesterday_snapshot@ == before.base_counts@
    } else if before.incremental_counts@ == Map::<Seq<char>, u64>::empty() {
        // Nothing new to save.
        &&& after.today@ == before.today@
        &&& after.base_counts@ == before.base_counts@
        &&& after.incremental_counts@ == before.incremental_counts@
        &&& r is None
    } else {
        // The counts gathered since the last save move into the base.
        &&& after.today@ == before.today@
        &&& after.base_counts@ == sum_counts(before.base_counts@, before.incremental_counts@)
        &&& after.incremental_counts@ == Map::<Seq<char>, u64>::empty()
        &&& r matches Some(res)
        &&& !res.is_rollover
        &&& res.date@ == before.today@
        &&& res.delta@ == before.incremental_counts@
        &&& res.yesterday_snapshot@ == Map::<Seq<char>, u64>::empty()
    }
}

impl MonitorData {
    /// Counts one more press of `key_name`.
    pub fn increase_count(&mut self, key_name: &str)
        requires
            count_of(old(self).incremental_counts@, key_name@) < u64::MAX,
        ensures
            final(self).incremental_counts@ == old(self).incremental_counts@.insert(
                key_name@,
                (count_of(old(self).incremental_counts@, key_name@) + 1) as u64,
            ),
            final(self).base_counts@ == old(self).base_counts@,
            final(self).today == old(self).today,
    {
        let k = key_name.to_owned();
        self.incremental_counts.add(&k, 1);
    }

    /// The day's totals: base plus incremental counts.
    pub fn get_key_counts(&self) -> (total: CountMap)
        requires
            sums_fit(self.base_counts@, self.incremental_counts@),
        ensures
            total@ == totals(*self),
    {
        let mut total = self.base_counts.duplicate();
        total.add_all(&self.incremental_counts);
        total
    }

    /// Takes imported counts for today into the base: they replace it in
    /// `Overwrite` mode and are added to it in `Merge` mode.
    pub fn import_today_data(&mut self, data: &CountMap, mode: ImportMode)
        requires
            mode == ImportMode::Merge ==> sums_fit(old(self).base_counts@, data@),
        ensures
            final(self).base_counts@ == (match mode {
                ImportMode::Overwrite => data@,
                ImportMode::Merge => sum_counts(old(self).base_counts@, data@),
            }),
            final(self).incremental_counts@ == old(self).incremental_counts@,
            final(self).today == old(self).today,
    {
        match mode {
            ImportMode::Overwrite => {
                self.base_counts = data.duplicate();
            },
            ImportMode::Merge => {
                self.base_counts.add_all(data);
            },
        }
    }

    /// Decides what a save on day `day` (today's local date, as the caller
    /// reads it from the clock) persists, and moves the counts gathered
    /// since the last save into the base.
    pub fn prepare_save(&mut self, day: String) -> (r: Option<SaveResult>)
        requires
            old(self).today@ == day@ ==> sums_fit(old(self).base_counts@, old(self).incremental_counts@),
        ensures
            prepared(*old(self), day@, *final(self), r),
    {
        if !crate::text::str_eq(self.today.as_str(), day.as_str()) {
            let mut yesterday_snapshot = CountMap::new();
            std::mem::swap(&mut yesterday_snapshot, &mut self.base_counts);
            let mut old_today = day;
            std::mem::swap(&mut old_today, &mut self.today);
            let mut gathered = CountMap::new();
            std::mem::swap(&mut gathered, &mut self.incremental_counts);
            proof {
                assert(sum_counts(self.base_counts@, gathered@) =~= gathered@);
            }
            self.base_counts.add_all(&gathered);
            return Some(SaveResult {
                date: old_today,
                delta: CountMap::new(),
                yesterday_snapshot,
                is_rollover: true,
            });
        }
        if self.incremental_counts.is_empty() {
            return None;
        }
        let mut delta = CountMap::new();
        std::mem::swap(&mut delta, &mut self.incremental_counts);
        self.base_counts.add_all(&delta);
        Some(SaveResult {
            date: self.today.clone(),
            delta,
            yesterday_snapshot: CountMap::new(),
            is_rollover: false,
        })
    }

    /// The database writes that persist a prepared save: on rollover the
    /// previous day's snapshot, then today's base if it is not empty; in
    /// `Diff` mode the delta is added to the stored day; in `Full` mode the
    /// day's totals replace it.
    pub fn store_writes(&self, result: SaveResult, mode: UpdateMode) -> (writes: Vec<StoreWrite>)
        requires
            sums_fit(self.base_counts@, self.incremental_counts@),
        ensures
            writes_for(*self, result, mode, writes@),
    {
        let mut writes: Vec<StoreWrite> = Vec::new();
        if result.is_rollover {
            writes.push(StoreWrite::Replace { date: result.date, counts: result.yesterday_snapshot });
            if !self.base_counts.is_empty() {
                writes.push(StoreWrite::Replace { date: self.today.clone(), counts: self.base_counts.duplicate() });
            }
        } else {
            match mode {
                UpdateMode::Diff => {
                    writes.push(StoreWrite::Merge { date: result.date, counts: result.delta });
                },
                UpdateMode::Full => {
                    writes.push(StoreWrite::Replace { date: result.date, counts: self.get_key_counts() });
                },
            }
        }
        writes
    }
}

impl MonitorData {
    /// The state at start-up on day `today`: the counts stored for that day
    /// as the base (what the database front answered), nothing gathered yet.
    pub fn new(today: String, base_counts: CountMap) -> (d: MonitorData)
        ensures
            d.today@ == today@,
            d.base_counts@ == base_counts@,
            d.incremental_counts@ == Map::<Seq<char>, u64>::empty(),
    {
        MonitorData { base_counts, incremental_counts: CountMap::new(), today }
    }

    /// Saves what is pending on day `today`: prepares the save and gives the
    /// writes that `store_writes` decides, in the order in which they are to
    /// be handed to the database. Afterwards nothing is pending, and on the
    /// same day the totals are unchanged.
    pub fn save_to_db(&mut self, update_mode: UpdateMode, today: String) -> (writes: Vec<StoreWrite>)
        requires
            old(self).today@ == today@ ==> sums_fit(old(self).base_counts@, old(self).incremental_counts@),
        ensures
            writes@.map_values(|w: StoreWrite| write_target(w)) == save_requests(*old(self), *final(self), update_mode),
            final(self).today@ == today@,
            final(self).incremental_counts@ == Map::<Seq<char>, u64>::empty(),
            old(self).today@ == today@ ==> totals(*final(self)) == totals(*old(self)),
            old(self).today@ != today@ ==> final(self).base_counts@ == old(self).incremental_counts@,
    {
        let ghost before = *self;
        let r = self.prepare_save(today);
        proof {
            if before.today@ == self.today@ {
                lemma_save_keeps_totals(before, self.today@, *self, r);
            }
        }
        match r {
            Some(result) => {
                let ghost res = result;
                proof {
                    if before.today@ == self.today@ {
                        assert(sums_fit(self.base_counts@, self.incremental_counts@));
                    } else {
                        assert(self.incremental_counts@ =~= Map::<Seq<char>, u64>::empty());
                        assert(sums_fit(self.base_counts@, self.incremental_counts@));
                    }
                }
                let writes = self.store_writes(result, update_mode);
                proof {
                    let want = save_requests(before, *self, update_mode);
                    let ts = writes@.map_values(|w: StoreWrite| write_target(w));
                    if before.today@ != self.today@ {
                        assert(res.is_rollover);
                    } else {
                        assert(!res.is_rollover);
                    }
                    assert(ts =~= want);
                }
                writes
            },
            None => {
                assert(save_requests(before, *self, update_mode) =~= Seq::empty());
                let writes: Vec<StoreWrite> = Vec::new();
                assert(writes@.map_values(|w: StoreWrite| write_target(w)) =~= Seq::empty());
                writes
            },
        }
    }
}

/// A write replaces the counts of `date` by `counts`.
pub open spec fn is_replace(w: StoreWrite, date: Seq<char>, counts: Map<Seq<char>, u64>) -> bool {
    w matches StoreWrite::Replace { date: d, counts: c } && d@ == date && c@ == counts
}

/// A write adds `counts` to the counts of `date`.
pub open spec fn is_merge(w: StoreWrite, date: Seq<char>, counts: Map<Seq<char>, u64>) -> bool {
    w matches StoreWrite::Merge { date: d, counts: c } && d@ == date && c@ == counts
}

/// The writes that persist the prepared save `r` of state `d`.
pub open spec fn writes_for(d: MonitorData, r: SaveResult, mode: UpdateMode, w: Seq<StoreWrite>) -> bool {
    if r.is_rollover {
        &&& w.len() == if d.base_counts@ == Map::<Seq<char>, u64>::empty() { 1int } else { 2int }
        &&& is_replace(w[0], r.date@, r.yesterday_snapshot@)
        &&& w.len() == 2 ==> is_replace(w[1], d.today@, d.base_counts@)
    } else {
        &&& w.len() == 1
        &&& match mode {
            UpdateMode::Diff => is_merge(w[0], r.date@, r.delta@),
            UpdateMode::Full => is_replace(w[0], r.date@, totals(d)),
        }
    }
}

/// Saving never loses a count: when a save on the same day moves the
/// gathered counts into the base, the day's totals are unchanged.
pub proof fn lemma_save_keeps_totals(before: MonitorData, day: Seq<char>, after: MonitorData, r: Option<SaveResult>)
    requires
        prepared(before, day, after, r),
        before.today@ == day,
    ensures
        totals(after) == totals(before),
{
    if before.incremental_counts@ != Map::<Seq<char>, u64>::empty() {
        assert(totals(after) =~= totals(before));
    } else {
        assert(totals(after) =~= totals(before));
    }
}

/// On a day rollover nothing is lost either: yesterday's snapshot is the
/// old base, and the new day's totals are the counts gathered since the
/// last save.
pub proof fn lemma_rollover_splits_totals(before: MonitorData, day: Seq<char>, after: MonitorData, r: Option<SaveResult>)
    requires
        prepared(before, day, after, r),
        before.today@ != day,
    ensures
        r matches Some(res) && res.yesterday_snapshot@ == before.base_counts@,
        totals(after) == before.incremental_counts@,
        sum_counts(before.base_counts@, totals(after)) == totals(before),
{
    assert(totals(after) =~= before.incremental_counts@);
}

/// After a save, nothing is left to save until the next key press: a second
/// save on the same day persists nothing.
pub proof fn lemma_second_save_is_empty(
    before: MonitorData,
    day: Seq<char>,
    mid: MonitorData,
    r1: Option<SaveResult>,
    after: MonitorData,
    r2: Option<SaveResult>,
)
    requires
        prepared(before, day, mid, r1),
        prepared(mid, day, after, r2),
    ensures
        r2 is None,
        totals(after) == totals(mid),
{
    assert(totals(after) =~= totals(mid));
}

/// The stored days after one write: a replace sets the day's counts, a
/// merge adds to them.
pub open spec fn apply_write(store: Map<Seq<char>, Map<Seq<char>, u64>>, w: StoreWrite) -> Map<Seq<char>, Map<Seq<char>, u64>> {
    match w {
        StoreWrite::Replace { date, counts } => store.insert(date@, counts@),
        StoreWrite::Merge { date, counts } => store.insert(date@, sum_counts(day_of(store, date@), counts@)),
    }
}

/// The stored days after the writes, in order.
pub open spec fn apply_writes(store: Map<Seq<char>, Map<Seq<char>, u64>>, ws: Seq<StoreWrite>) -> Map<Seq<char>, Map<Seq<char>, u64>>
    decreases ws.len(),
{
    if ws.len() == 0 {
        store
    } else {
        apply_write(apply_writes(store, ws.drop_last()), ws.last())
    }
}

/// Law: a save on the same day leaves the store holding the day's totals,
/// in both update modes, when the store held the base before.
pub proof fn lemma_save_stores_totals(
    before: MonitorData,
    day: Seq<char>,
    after: MonitorData,
    r: SaveResult,
    mode: UpdateMode,
    ws: Seq<StoreWrite>,
    store: Map<Seq<char>, Map<Seq<char>, u64>>,
)
    requires
        prepared(before, day, after, Some(r)),
        before.today@ == day,
        writes_for(after, r, mode, ws),
        day_of(store, day) == before.base_counts@,
    ensures
        day_of(apply_writes(store, ws), day) == totals(before),
{
    assert(ws.drop_last() =~= Seq::<StoreWrite>::empty());
    let w = ws[0];
    assert(ws.last() == w);
    assert(apply_writes(store, ws.drop_last()) == store);
    assert(apply_writes(store, ws) == apply_write(store, w));
    match mode {
        UpdateMode::Diff => {
            assert(day_of(apply_writes(store, ws), day) =~= totals(before));
        },
        UpdateMode::Full => {
            assert(totals(after) =~= after.base_counts@);
            assert(day_of(apply_writes(store, ws), day) =~= totals(before));
        },
    }
}

/// Law: a save across midnight stores the previous day's counts under the
/// previous day and, when keys were pressed since, those under the new day.
pub proof fn lemma_rollover_save_stores_both_days(
    before: MonitorData,
    day: Seq<char>,
    after: MonitorData,
    r: SaveResult,
    mode: UpdateMode,
    ws: Seq<StoreWrite>,
    store: Map<Seq<char>, Map<Seq<char>, u64>>,
)
    requires
        prepared(before, day, after, Some(r)),
        before.today@ != day,
        writes_for(after, r, mode, ws),
    ensures
        day_of(apply_writes(store, ws), before.today@) == before.base_counts@,
        before.incremental_counts@ != Map::<Seq<char>, u64>::empty() ==> day_of(apply_writes(store, ws), day)
            == before.incremental_counts@,
{
    if ws.len() == 1 {
        assert(ws.drop_last() =~= Seq::<StoreWrite>::empty());
        assert(apply_writes(store, ws.drop_last()) == store);
        assert(apply_writes(store, ws) == apply_write(store, ws[0]));
    } else {
        let w1 = ws.drop_last();
        assert(w1.drop_last() =~= Seq::<StoreWrite>::empty());
        assert(w1.last() == ws[0]);
        assert(apply_writes(store, w1.drop_last()) == store);
        assert(apply_writes(store, w1) == apply_write(store, ws[0]));
        assert(ws.last() == ws[1]);
        assert(apply_writes(store, ws) == apply_write(apply_write(store, ws[0]), ws[1]));
    }
}

} // verus!
