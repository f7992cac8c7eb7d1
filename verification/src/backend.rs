//! The database front: a primary backend with an optional local fallback
//! store, the rules by which writes and reads fall back and data is synced
//! back, and the checks on SQLite table names.
use vstd::prelude::*;
use crate::config::{DatabaseConfig, FallbackSyncMode, SqliteConfig};
use crate::database::backend_type_of;
use crate::text::{all_ascii, ascii_lowercase, lowercase};
use crate::counts::CountMap;
use crate::database::{BackendType, ImportMode};
use crate::export::ExportProgress;

verus! {

/// A storage backend: counts per day, stored and read back.
pub trait DatabaseBackend {
    fn get_stats_for_day(&self, date_str: &str) -> Result<CountMap, String>;

    fn get_stats_for_range(&self, start_date: &str, end_date: &str) -> Result<CountMap, String>;

    fn upsert_day_stats(&self, date_str: &str, data: &CountMap) -> Result<(), String>;

    fn merge_incremental_stats(&self, date_str: &str, data: &CountMap) -> Result<(), String>;

    fn export_to_json(
        &self,
        format: &str,
        start_date: Option<&str>,
        end_date: Option<&str>,
        progress: &ExportProgress,
    ) -> Result<String, String>;

    fn import_from_json(&mut self, json_str: &str, mode: ImportMode) -> Result<(), String>;

    fn try_ping(&self) -> Result<(), String>;

    fn backend_type(&self) -> BackendType;
}

/// A backend that can also serve as the local fallback store: it lists its
/// dates and can be emptied once synced.
pub trait FallbackStore: DatabaseBackend {
    fn get_dates(&self) -> Result<Vec<String>, String>;

    fn clear_all(&self) -> Result<(), String>;
}

/// What a read of counts gives, from the primary's answer and, when the
/// primary failed and there is a fallback, the fallback's.
pub fn read_choice(primary: Result<CountMap, String>, fallback: Option<Result<CountMap, String>>) -> (r: CountMap)
    ensures
        r@ == match primary {
            Ok(v) => v@,
            Err(_) => match fallback {
                Some(Ok(v)) => v@,
                _ => Map::<Seq<char>, u64>::empty(),
            },
        },
{
    match primary {
        Ok(v) => v,
        Err(_) => match fallback {
            Some(Ok(v)) => v,
            _ => CountMap::new(),
        },
    }
}

/// What an export gives, from the primary's answer and, when the primary
/// failed and there is a fallback, the fallback's; the empty text when
/// neither answers.
pub fn text_choice(primary: Result<String, String>, fallback: Option<Result<String, String>>) -> (r: String)
    ensures
        r@ == match primary {
            Ok(v) => v@,
            Err(_) => match fallback {
                Some(Ok(v)) => v@,
                _ => Seq::<char>::empty(),
            },
        },
{
    match primary {
        Ok(v) => v,
        Err(_) => match fallback {
            Some(Ok(v)) => v,
            _ => String::new(),
        },
    }
}

/// What follows a write to the primary.
pub struct WriteStep {
    /// The primary is marked disconnected.
    pub disconnected: bool,
    /// The write goes to the fallback store too.
    pub write_fallback: bool,
    /// The primary answers again after a failure: reconnect.
    pub reconnect: bool,
}

/// Decides what follows a write to the primary: a failure marks it
/// disconnected and sends the write to the fallback, when there is one; a
/// success while disconnected reconnects.
pub fn write_step(disconnected: bool, primary_ok: bool, has_fallback: bool) -> (s: WriteStep)
    ensures
        s.disconnected == !primary_ok,
        s.write_fallback == (!primary_ok && has_fallback),
        s.reconnect == (primary_ok && disconnected),
{
    if primary_ok {
        WriteStep { disconnected: false, write_fallback: false, reconnect: disconnected }
    } else {
        WriteStep { disconnected: true, write_fallback: has_fallback, reconnect: false }
    }
}

/// Which write a call makes.
#[derive(Debug, Clone, Copy, PartialEq, Eq, Structural)]
pub enum WriteKind {
    /// The day's counts are replaced.
    Upsert,
    /// Counts are added to the day's.
    Merge,
}

/// One of the front's stores.
#[derive(Debug, Clone, Copy, PartialEq, Eq, Structural)]
pub enum Store {
    Primary,
    Fallback,
}

/// A call that the front asks the program to make to one of its stores;
/// the program makes it and hands the answer back.
pub enum StoreCall {
    /// Replace (`Upsert`) or add to (`Merge`) the counts of `date`.
    Write { store: Store, kind: WriteKind, date: String, counts: CountMap },
    /// Read the counts of `date`.
    ReadDay { store: Store, date: String },
    /// Read the counts summed over the days from `start` to `end`.
    ReadRange { store: Store, start: String, end: String },
    /// Export the days within the bounds in `format`.
    Export { store: Store, format: String, start: Option<String>, end: Option<String> },
    /// Import a document into the primary.
    Import { text: String, mode: ImportMode },
    /// Ping the primary.
    Ping,
    /// List the days that the fallback store holds.
    FallbackDates,
    /// Empty the fallback store.
    ClearFallback,
}

/// The view of a present-or-absent string.
pub open spec fn opt_text(o: Option<String>) -> Option<Seq<char>> {
    match o {
        Some(s) => Some(s@),
        None => None,
    }
}

/// `c` writes `counts` on `date` to `store`, as `kind` says.
pub open spec fn is_write(c: StoreCall, store: Store, kind: WriteKind, date: Seq<char>, counts: Map<Seq<char>, u64>) -> bool {
    c matches StoreCall::Write { store: s, kind: k, date: d, counts: m } && s == store && k == kind && d@ == date
        && m@ == counts
}

/// `c` is a read (of a day, of a range, or an export) from `store`.
pub open spec fn is_read_from(c: StoreCall, store: Store) -> bool {
    match c {
        StoreCall::ReadDay { store: s, .. } => s == store,
        StoreCall::ReadRange { store: s, .. } => s == store,
        StoreCall::Export { store: s, .. } => s == store,
        _ => false,
    }
}

/// `d` is the read `c` made from `store` instead.
pub open spec fn same_read_from(c: StoreCall, d: StoreCall, store: Store) -> bool {
    match (c, d) {
        (StoreCall::ReadDay { date: a, .. }, StoreCall::ReadDay { store: s, date: b }) => s == store && a@ == b@,
        (StoreCall::ReadRange { start: a, end: e, .. }, StoreCall::ReadRange { store: s, start: b, end: f }) => s
            == store && a@ == b@ && e@ == f@,
        (
            StoreCall::Export { format: a, start: x, end: y, .. },
            StoreCall::Export { store: s, format: b, start: u, end: v },
        ) => s == store && a@ == b@ && opt_text(x) == opt_text(u) && opt_text(y) == opt_text(v),
        _ => false,
    }
}

/// What follows the primary's answer to a write.
pub struct WriteFollowUp {
    /// The same write to the fallback store, when it is to be made.
    pub fallback: Option<StoreCall>,
    /// The primary answered again after a failure and its fallback data is
    /// to be synced to it now.
    pub sync: bool,
}

/// What follows a ping of a disconnected primary.
pub struct ReconnectStep {
    /// The primary answered: it is connected again.
    pub connected: bool,
    /// The fallback data is synced to it now.
    pub sync: bool,
}

/// Decides what follows a ping: an answer connects the primary again, and
/// its fallback data is synced at once when there is a fallback store whose
/// sync mode is immediate.
pub fn reconnect_step(ping_ok: bool, has_fallback: bool, sync_mode: FallbackSyncMode) -> (s: ReconnectStep)
    ensures
        s.connected == ping_ok,
        s.sync == (ping_ok && has_fallback && sync_mode == FallbackSyncMode::Immediate),
{
    ReconnectStep { connected: ping_ok, sync: ping_ok && has_fallback && sync_mode == FallbackSyncMode::Immediate }
}

/// The answer of a reconnection: connected, and the sync succeeded when
/// one was due.
pub fn reconnect_answer(s: &ReconnectStep, sync_ok: bool) -> (r: bool)
    ensures
        r == (s.connected && (s.sync ==> sync_ok)),
{
    s.connected && (!s.sync || sync_ok)
}

/// The state of the database front: which primary it has, whether it has a
/// fallback store and when that store's data goes back, and whether the
/// primary failed its last write. The program makes the calls that the
/// front decides and hands it the answers.
pub struct Database {
    is_mongodb: bool,
    has_fallback: bool,
    sync_mode: FallbackSyncMode,
    disconnected: bool,
}

impl Database {
    /// Whether the primary is a MongoDB backend.
    pub closed spec fn spec_is_mongodb(&self) -> bool {
        self.is_mongodb
    }

    /// Whether a fallback store is configured.
    pub closed spec fn has_fallback(&self) -> bool {
        self.has_fallback
    }

    /// When fallback data goes back to the primary.
    pub closed spec fn spec_sync_mode(&self) -> FallbackSyncMode {
        self.sync_mode
    }

    /// Whether the last write to the primary failed.
    pub closed spec fn is_disconnected(&self) -> bool {
        self.disconnected
    }

    /// Whether a reconnection syncs the fallback data at once.
    pub open spec fn syncs_at_once(&self) -> bool {
        self.has_fallback() && self.spec_sync_mode() == FallbackSyncMode::Immediate
    }

    /// A front, connected, over a primary (MongoDB when `is_mongodb`) and,
    /// when `has_fallback`, a fallback store synced back as `sync_mode`
    /// says.
    pub fn with_primary(is_mongodb: bool, has_fallback: bool, sync_mode: FallbackSyncMode) -> (d: Self)
        ensures
            d.spec_is_mongodb() == is_mongodb,
            d.has_fallback() == has_fallback,
            d.spec_sync_mode() == sync_mode,
            !d.is_disconnected(),
    {
        Database { is_mongodb, has_fallback, sync_mode, disconnected: false }
    }

    /// The call that hands a write of `data` on `date` to the primary.
    pub fn write_call(kind: WriteKind, date: &str, data: &CountMap) -> (c: StoreCall)
        ensures
            is_write(c, Store::Primary, kind, date@, data@),
    {
        StoreCall::Write { store: Store::Primary, kind, date: date.to_owned(), counts: data.duplicate() }
    }

    /// Takes the primary's answer to the write `call`: a refusal marks the
    /// front disconnected and sends the same write to the fallback store,
    /// when there is one; an acceptance while disconnected reconnects, and
    /// the fallback data is then synced when its mode is immediate.
    pub fn after_write(&mut self, call: &StoreCall, primary_ok: bool) -> (f: WriteFollowUp)
        requires
            call matches StoreCall::Write { store, .. } && store == Store::Primary,
        ensures
            match *call {
                StoreCall::Write { kind, date, counts, .. } => match f.fallback {
                    Some(c) => !primary_ok && old(self).has_fallback() && is_write(
                        c,
                        Store::Fallback,
                        kind,
                        date@,
                        counts@,
                    ),
                    None => primary_ok || !old(self).has_fallback(),
                },
                _ => true,
            },
            f.sync == (primary_ok && old(self).is_disconnected() && old(self).syncs_at_once()),
            final(self).is_disconnected() == !primary_ok,
            final(self).spec_is_mongodb() == old(self).spec_is_mongodb(),
            final(self).has_fallback() == old(self).has_fallback(),
            final(self).spec_sync_mode() == old(self).spec_sync_mode(),
    {
        let s = write_step(self.disconnected, primary_ok, self.has_fallback);
        let sync = s.reconnect && self.has_fallback && self.sync_mode == FallbackSyncMode::Immediate;
        self.disconnected = s.disconnected;
        let fallback = if s.write_fallback {
            match call {
                StoreCall::Write { kind, date, counts, .. } => Some(
                    StoreCall::Write { store: Store::Fallback, kind: *kind, date: date.clone(), counts: counts.duplicate() },
                ),
                _ => None,
            }
        } else {
            None
        };
        WriteFollowUp { fallback, sync }
    }

    /// The call that reads the counts of `date` from the primary.
    pub fn read_day_call(date: &str) -> (c: StoreCall)
        ensures
            c matches StoreCall::ReadDay { store, date: d } && store == Store::Primary && d@ == date@,
    {
        StoreCall::ReadDay { store: Store::Primary, date: date.to_owned() }
    }

    /// The call that reads the counts summed from `start` to `end` from the
    /// primary.
    pub fn read_range_call(start: &str, end: &str) -> (c: StoreCall)
        ensures
            c matches StoreCall::ReadRange { store, start: s, end: e } && store == Store::Primary && s@ == start@
                && e@ == end@,
    {
        StoreCall::ReadRange { store: Store::Primary, start: start.to_owned(), end: end.to_owned() }
    }

    /// The call that exports the days within the bounds from the primary.
    pub fn export_call(format: &str, start: Option<&str>, end: Option<&str>) -> (c: StoreCall)
        ensures
            c matches StoreCall::Export { store, format: f, start: s, end: e } && store == Store::Primary && f@
                == format@ && opt_text(s) == (match start {
                Some(x) => Some(x@),
                None => None,
            }) && opt_text(e) == (match end {
                Some(x) => Some(x@),
                None => None,
            }),
    {
        let s = match start {
            Some(x) => Some(x.to_owned()),
            None => None,
        };
        let e = match end {
            Some(x) => Some(x.to_owned()),
            None => None,
        };
        StoreCall::Export { store: Store::Primary, format: format.to_owned(), start: s, end: e }
    }

    /// After the primary's answer to the read `call`: the same read from the
    /// fallback store, when the primary failed and there is one. What the
    /// read gives is then `read_choice` (or `text_choice`) of the answers.
    pub fn fallback_read(&self, call: &StoreCall, primary_ok: bool) -> (c: Option<StoreCall>)
        requires
            is_read_from(*call, Store::Primary),
        ensures
            c is Some == (!primary_ok && self.has_fallback()),
            c matches Some(d) ==> same_read_from(*call, d, Store::Fallback),
    {
        if primary_ok || !self.has_fallback {
            return None;
        }
        match call {
            StoreCall::ReadDay { date, .. } => Some(StoreCall::ReadDay { store: Store::Fallback, date: date.clone() }),
            StoreCall::ReadRange { start, end, .. } => Some(
                StoreCall::ReadRange { store: Store::Fallback, start: start.clone(), end: end.clone() },
            ),
            StoreCall::Export { format, start, end, .. } => {
                let s = match start {
                    Some(x) => Some(x.clone()),
                    None => None,
                };
                let e = match end {
                    Some(x) => Some(x.clone()),
                    None => None,
                };
                Some(StoreCall::Export { store: Store::Fallback, format: format.clone(), start: s, end: e })
            },
            _ => None,
        }
    }

    /// The call that imports `text` into the primary in `mode`; its answer
    /// is the import's answer.
    pub fn import_call(text: &str, mode: ImportMode) -> (c: StoreCall)
        ensures
            c matches StoreCall::Import { text: t, mode: m } && t@ == text@ && m == mode,
    {
        StoreCall::Import { text: text.to_owned(), mode }
    }

    /// Whether a reconnection pings the primary: only a disconnected MongoDB
    /// primary is pinged; any other is connected, and the reconnection
    /// succeeds at once.
    pub fn ping_due(&self) -> (b: bool)
        ensures
            b == (self.spec_is_mongodb() && self.is_disconnected()),
    {
        self.is_mongodb && self.disconnected
    }

    /// Takes the primary's answer to a ping, as `reconnect_step` decides:
    /// an answer connects it again.
    pub fn after_ping(&mut self, ping_ok: bool) -> (s: ReconnectStep)
        requires
            old(self).spec_is_mongodb() && old(self).is_disconnected(),
        ensures
            s.connected == ping_ok,
            s.sync == (ping_ok && old(self).syncs_at_once()),
            final(self).is_disconnected() == !ping_ok,
            final(self).spec_is_mongodb() == old(self).spec_is_mongodb(),
            final(self).has_fallback() == old(self).has_fallback(),
            final(self).spec_sync_mode() == old(self).spec_sync_mode(),
    {
        let s = reconnect_step(ping_ok, self.has_fallback, self.sync_mode);
        if s.connected {
            self.disconnected = false;
        }
        s
    }
}

/// The call that reads the counts of `date` from the fallback store during
/// a sync.
pub fn sync_read_call(date: &str) -> (c: StoreCall)
    ensures
        c matches StoreCall::ReadDay { store, date: d } && store == Store::Fallback && d@ == date@,
{
    StoreCall::ReadDay { store: Store::Fallback, date: date.to_owned() }
}

/// The write that a sync makes of a fallback day, from the fallback's
/// answer: the day's counts replace the primary's when they could be read
/// and are not empty; otherwise the day is passed over.
pub fn sync_write(date: &str, answer: Result<CountMap, String>) -> (c: Option<StoreCall>)
    ensures
        match answer {
            Ok(m) => if m@ == Map::<Seq<char>, u64>::empty() {
                c is None
            } else {
                c matches Some(w) && is_write(w, Store::Primary, WriteKind::Upsert, date@, m@)
            },
            Err(_) => c is None,
        },
{
    match answer {
        Ok(m) => {
            if m.is_empty() {
                None
            } else {
                Some(StoreCall::Write { store: Store::Primary, kind: WriteKind::Upsert, date: date.to_owned(), counts: m })
            }
        },
        Err(_) => None,
    }
}

/// How a sync ends: the fallback store is emptied when its days could be
/// listed and the primary took every one of them; the sync succeeded then
/// and only then, and otherwise the store is left as it is.
pub fn sync_end(dates_listed: bool, all_taken: bool) -> (r: (bool, Option<StoreCall>))
    ensures
        r.0 == (dates_listed && all_taken),
        r.1 is Some == r.0,
        r.1 matches Some(c) ==> c is ClearFallback,
{
    if dates_listed && all_taken {
        (true, Some(StoreCall::ClearFallback))
    } else {
        (false, None)
    }
}

/// How to connect to the configured database.
pub struct ConnectPlan {
    pub backend: BackendType,
    /// The fallback store of a MongoDB backend, when one is enabled.
    pub fallback: Option<SqliteConfig>,
    pub sync_mode: FallbackSyncMode,
}

/// Decides how to connect: the backend that the configuration names; for
/// MongoDB, an enabled fallback store's path and table, and its sync mode
/// (immediate when there is none).
pub fn connect_plan(cfg: &DatabaseConfig) -> (p: ConnectPlan)
    ensures
        p.backend == backend_type_of(lowercase(cfg.backend@)),
        all_ascii(cfg.backend@) ==> p.backend == backend_type_of(ascii_lowercase(cfg.backend@)),
        p.backend == BackendType::Sqlite ==> p.fallback is None && p.sync_mode == FallbackSyncMode::Immediate,
        p.backend == BackendType::MongoDb ==> match cfg.mongodb.fallback {
            Some(f) => if f.enable {
                p.fallback matches Some(s) && s.path@ == f.path@ && s.table@ == f.table@ && p.sync_mode == f.sync_mode
            } else {
                p.fallback is None && p.sync_mode == FallbackSyncMode::Immediate
            },
            None => p.fallback is None && p.sync_mode == FallbackSyncMode::Immediate,
        },
{
    let backend = BackendType::from_str(cfg.backend.as_str());
    match backend {
        BackendType::Sqlite => ConnectPlan { backend, fallback: None, sync_mode: FallbackSyncMode::Immediate },
        BackendType::MongoDb => match &cfg.mongodb.fallback {
            Some(f) => {
                if f.enable {
                    ConnectPlan {
                        backend,
                        fallback: Some(SqliteConfig { path: f.path.clone(), table: f.table.clone() }),
                        sync_mode: f.sync_mode,
                    }
                } else {
                    ConnectPlan { backend, fallback: None, sync_mode: FallbackSyncMode::Immediate }
                }
            },
            None => ConnectPlan { backend, fallback: None, sync_mode: FallbackSyncMode::Immediate },
        },
    }
}

/// The settings of an SQLite file opened by path alone: the default table.
pub fn sqlite_file_config(db_file: &str) -> (c: SqliteConfig)
    ensures
        c.path@ == db_file@,
        c.table@ == "daily_stats"@,
{
    SqliteConfig { path: db_file.to_owned(), table: "daily_stats".to_owned() }
}

} // verus!
