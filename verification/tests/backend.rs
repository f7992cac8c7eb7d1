use std::cell::{Cell, RefCell};
use std::rc::Rc;
use std::collections::BTreeMap;

use keymouse_monitor::backend::{
    connect_plan, read_choice, reconnect_answer, sqlite_file_config, sync_end, sync_read_call, sync_write, text_choice,
    write_step, Database, DatabaseBackend, FallbackStore, Store, StoreCall, WriteKind,
};
use keymouse_monitor::config::{DatabaseConfig, FallbackConfig, FallbackSyncMode};
use keymouse_monitor::counts::CountMap;
use keymouse_monitor::database::{BackendType, ImportMode};
use keymouse_monitor::export::ExportProgress;

struct Memory {
    up: Cell<bool>,
    writable: Cell<bool>,
    days: RefCell<BTreeMap<String, Vec<(String, u64)>>>,
}

impl Memory {
    fn new(up: bool) -> Self {
        Memory { up: Cell::new(up), writable: Cell::new(true), days: RefCell::new(BTreeMap::new()) }
    }
    fn check_write(&self) -> Result<(), String> {
        self.check()?;
        if self.writable.get() { Ok(()) } else { Err("read only".to_string()) }
    }
    fn check(&self) -> Result<(), String> {
        if self.up.get() { Ok(()) } else { Err("down".to_string()) }
    }
    fn day(&self, d: &str) -> CountMap {
        let mut m = CountMap::new();
        if let Some(v) = self.days.borrow().get(d) {
            for (k, c) in v {
                m.insert(k.clone(), *c);
            }
        }
        m
    }
    fn store(&self, d: &str, data: &CountMap, add: bool) {
        let mut all = self.days.borrow_mut();
        let entry = all.entry(d.to_string()).or_default();
        if !add {
            entry.clear();
        }
        for i in 0..data.entry_count() {
            let (k, c) = data.entry_at(i);
            if let Some(e) = entry.iter_mut().find(|(x, _)| x == k) {
                e.1 += c;
            } else {
                entry.push((k.clone(), c));
            }
        }
    }
}

impl DatabaseBackend for Memory {
    fn get_stats_for_day(&self, date_str: &str) -> Result<CountMap, String> {
        self.check()?;
        Ok(self.day(date_str))
    }
    fn get_stats_for_range(&self, start_date: &str, _end_date: &str) -> Result<CountMap, String> {
        self.check()?;
        Ok(self.day(start_date))
    }
    fn upsert_day_stats(&self, date_str: &str, data: &CountMap) -> Result<(), String> {
        self.check_write()?;
        self.store(date_str, data, false);
        Ok(())
    }
    fn merge_incremental_stats(&self, date_str: &str, data: &CountMap) -> Result<(), String> {
        self.check_write()?;
        self.store(date_str, data, true);
        Ok(())
    }
    fn export_to_json(&self, _f: &str, _s: Option<&str>, _e: Option<&str>, _p: &ExportProgress) -> Result<String, String> {
        self.check()?;
        Ok("{}".to_string())
    }
    fn import_from_json(&mut self, _json: &str, _mode: ImportMode) -> Result<(), String> {
        self.check()
    }
    fn try_ping(&self) -> Result<(), String> {
        self.check()
    }
    fn backend_type(&self) -> BackendType {
        BackendType::Sqlite
    }
}

impl FallbackStore for Memory {
    fn get_dates(&self) -> Result<Vec<String>, String> {
        Ok(self.days.borrow().keys().cloned().collect())
    }
    fn clear_all(&self) -> Result<(), String> {
        self.days.borrow_mut().clear();
        Ok(())
    }
}

/// A primary whose state the test keeps a handle on.
struct Remote(Rc<Memory>);

impl DatabaseBackend for Remote {
    fn get_stats_for_day(&self, date_str: &str) -> Result<CountMap, String> {
        self.0.get_stats_for_day(date_str)
    }
    fn get_stats_for_range(&self, start_date: &str, end_date: &str) -> Result<CountMap, String> {
        self.0.get_stats_for_range(start_date, end_date)
    }
    fn upsert_day_stats(&self, date_str: &str, data: &CountMap) -> Result<(), String> {
        self.0.upsert_day_stats(date_str, data)
    }
    fn merge_incremental_stats(&self, date_str: &str, data: &CountMap) -> Result<(), String> {
        self.0.merge_incremental_stats(date_str, data)
    }
    fn export_to_json(&self, f: &str, s: Option<&str>, e: Option<&str>, p: &ExportProgress) -> Result<String, String> {
        self.0.export_to_json(f, s, e, p)
    }
    fn import_from_json(&mut self, _json: &str, _mode: ImportMode) -> Result<(), String> {
        self.0.check()
    }
    fn try_ping(&self) -> Result<(), String> {
        self.0.check()
    }
    fn backend_type(&self) -> BackendType {
        BackendType::MongoDb
    }
}

/// Makes the calls that the front decides, on a primary and a fallback.
struct Front<P: DatabaseBackend, F: FallbackStore> {
    state: Database,
    primary: P,
    fallback: Option<F>,
}

impl<P: DatabaseBackend, F: FallbackStore> Front<P, F> {
    fn new(primary: P, is_mongodb: bool, fallback: Option<F>, mode: FallbackSyncMode) -> Self {
        Front { state: Database::with_primary(is_mongodb, fallback.is_some(), mode), primary, fallback }
    }
    fn store(&self, s: Store) -> &dyn DatabaseBackend {
        match s {
            Store::Primary => &self.primary,
            Store::Fallback => self.fallback.as_ref().unwrap(),
        }
    }
    fn write_to(&self, c: &StoreCall) -> bool {
        match c {
            StoreCall::Write { store, kind: WriteKind::Upsert, date, counts } => self.store(*store).upsert_day_stats(date, counts).is_ok(),
            StoreCall::Write { store, kind: WriteKind::Merge, date, counts } => {
                self.store(*store).merge_incremental_stats(date, counts).is_ok()
            }
            _ => unreachable!(),
        }
    }
    fn counts_of(&self, c: &StoreCall) -> Result<CountMap, String> {
        match c {
            StoreCall::ReadDay { store, date } => self.store(*store).get_stats_for_day(date),
            StoreCall::ReadRange { store, start, end } => self.store(*store).get_stats_for_range(start, end),
            _ => unreachable!(),
        }
    }
    fn sync(&mut self) -> bool {
        let fb = self.fallback.as_ref().unwrap();
        let (listed, mut taken) = match fb.get_dates() {
            Ok(dates) => {
                let mut taken = true;
                for d in &dates {
                    let answer = self.counts_of(&sync_read_call(d));
                    if let Some(w) = sync_write(d, answer) {
                        if !self.write_to(&w) {
                            taken = false;
                            break;
                        }
                    }
                }
                (true, taken)
            }
            Err(_) => (false, true),
        };
        if !listed {
            taken = false;
        }
        let (ok, clear) = sync_end(listed, taken);
        if clear.is_some() {
            let _ = self.fallback.as_ref().unwrap().clear_all();
        }
        ok
    }
    fn write(&mut self, kind: WriteKind, date: &str, data: &CountMap) {
        let call = Database::write_call(kind, date, data);
        let ok = self.write_to(&call);
        let f = self.state.after_write(&call, ok);
        if let Some(c) = f.fallback {
            let _ = self.write_to(&c);
        }
        if f.sync {
            let _ = self.sync();
        }
    }
    fn upsert_day_stats(&mut self, date: &str, data: &CountMap) {
        self.write(WriteKind::Upsert, date, data)
    }
    fn merge_incremental_stats(&mut self, date: &str, data: &CountMap) {
        self.write(WriteKind::Merge, date, data)
    }
    fn get_stats_for_day(&self, date: &str) -> CountMap {
        let call = Database::read_day_call(date);
        let primary = self.counts_of(&call);
        let fallback = self.state.fallback_read(&call, primary.is_ok()).map(|c| self.counts_of(&c));
        read_choice(primary, fallback)
    }
    fn try_reconnect(&mut self) -> bool {
        if !self.state.ping_due() {
            return true;
        }
        let ok = self.primary.try_ping().is_ok();
        let step = self.state.after_ping(ok);
        let sync_ok = if step.sync { self.sync() } else { true };
        reconnect_answer(&step, sync_ok)
    }
}

fn counts(v: &[(&str, u64)]) -> CountMap {
    let mut m = CountMap::new();
    for (k, c) in v {
        m.insert(k.to_string(), *c);
    }
    m
}

#[test]
fn write_steps() {
    let s = write_step(false, false, true);
    assert!(s.disconnected && s.write_fallback && !s.reconnect);
    let s = write_step(true, true, true);
    assert!(!s.disconnected && !s.write_fallback && s.reconnect);
    let s = write_step(false, false, false);
    assert!(s.disconnected && !s.write_fallback);
}

#[test]
fn read_choices() {
    let r = read_choice(Err("x".to_string()), Some(Ok(counts(&[("a", 1)]))));
    assert_eq!(r.get("a"), Some(&1));
    assert!(read_choice(Err("x".to_string()), None).is_empty());
    assert_eq!(read_choice(Ok(counts(&[("b", 2)])), None).get("b"), Some(&2));
    assert_eq!(text_choice(Err("x".to_string()), Some(Err("y".to_string()))), "");
}

#[test]
fn failed_writes_go_to_the_fallback_and_sync_back() {
    let mut db = Front::new(Memory::new(false), true, Some(Memory::new(true)), FallbackSyncMode::Immediate);
    db.upsert_day_stats("2026-06-22", &counts(&[("a", 3)]));
    assert_eq!(db.get_stats_for_day("2026-06-22").get("a"), Some(&3));
    assert!(!db.try_reconnect());
    db.merge_incremental_stats("2026-06-22", &counts(&[("a", 1)]));
    assert_eq!(db.get_stats_for_day("2026-06-22").get("a"), Some(&4));
}

#[test]
fn reconnect_when_not_mongodb_or_connected() {
    let mut db: Front<Memory, Memory> = Front::new(Memory::new(false), false, None, FallbackSyncMode::Immediate);
    assert!(db.try_reconnect());
    let mut db2: Front<Memory, Memory> = Front::new(Memory::new(true), true, None, FallbackSyncMode::Immediate);
    assert!(db2.try_reconnect());
}

#[test]
fn connect_plans() {
    let mut cfg = DatabaseConfig::default();
    let p = connect_plan(&cfg);
    assert_eq!(p.backend, BackendType::Sqlite);
    assert!(p.fallback.is_none());
    cfg.backend = "Mongo".to_string();
    cfg.mongodb.fallback = Some(FallbackConfig {
        enable: true,
        path: "fb.sqlite".to_string(),
        table: "t".to_string(),
        sync_mode: FallbackSyncMode::Deferred,
    });
    let p = connect_plan(&cfg);
    assert_eq!(p.backend, BackendType::MongoDb);
    let fb = p.fallback.unwrap();
    assert_eq!((fb.path.as_str(), fb.table.as_str()), ("fb.sqlite", "t"));
    assert_eq!(p.sync_mode, FallbackSyncMode::Deferred);
    let c = sqlite_file_config(":memory:");
    assert_eq!((c.path.as_str(), c.table.as_str()), (":memory:", "daily_stats"));
}

#[test]
fn backend_and_mode_names_ignore_case() {
    assert_eq!(BackendType::from_str("MongoDB"), BackendType::MongoDb);
    assert_eq!(BackendType::from_str("MONGO"), BackendType::MongoDb);
    assert_eq!(BackendType::from_str("SQLite"), BackendType::Sqlite);
    assert_eq!(BackendType::from_str("postgres"), BackendType::Sqlite);
    assert_eq!(ImportMode::from_str("Merge"), ImportMode::Merge);
    assert_eq!(ImportMode::from_str("\u{53e0}\u{52a0}"), ImportMode::Merge);
    assert_eq!(ImportMode::from_str("OVERWRITE"), ImportMode::Overwrite);
    assert_eq!(ImportMode::from_str(""), ImportMode::Overwrite);
}

#[test]
fn reconnect_syncs_the_fallback_back() {
    let remote = Rc::new(Memory::new(false));
    let mut db = Front::new(Remote(remote.clone()), true, Some(Memory::new(true)), FallbackSyncMode::Immediate);
    db.upsert_day_stats("2026-06-22", &counts(&[("a", 3)]));
    assert!(!db.try_reconnect());
    remote.up.set(true);
    assert!(db.try_reconnect());
    assert_eq!(remote.day("2026-06-22").get("a"), Some(&3));
    assert!(db.try_reconnect());
}

#[test]
fn reconnect_answers_no_when_the_sync_fails() {
    let remote = Rc::new(Memory::new(false));
    let mut db = Front::new(Remote(remote.clone()), true, Some(Memory::new(true)), FallbackSyncMode::Immediate);
    db.upsert_day_stats("2026-06-22", &counts(&[("a", 3)]));
    remote.up.set(true);
    remote.writable.set(false);
    assert!(!db.try_reconnect());
    assert!(remote.day("2026-06-22").is_empty());
    remote.writable.set(true);
    db.merge_incremental_stats("2026-06-23", &counts(&[("b", 1)]));
    assert_eq!(db.get_stats_for_day("2026-06-23").get("b"), Some(&1));
}

#[test]
fn deferred_sync_reconnects_without_syncing() {
    let remote = Rc::new(Memory::new(false));
    let mut db = Front::new(Remote(remote.clone()), true, Some(Memory::new(true)), FallbackSyncMode::Deferred);
    db.upsert_day_stats("2026-06-22", &counts(&[("a", 3)]));
    remote.up.set(true);
    assert!(db.try_reconnect());
    assert!(remote.day("2026-06-22").is_empty());
}

#[test]
fn the_front_decides_the_calls() {
    let data = counts(&[("a", 1)]);
    let call = Database::write_call(WriteKind::Merge, "2026-06-22", &data);
    let mut db = Database::with_primary(true, true, FallbackSyncMode::Immediate);
    let f = db.after_write(&call, false);
    match f.fallback {
        Some(StoreCall::Write { store: Store::Fallback, kind: WriteKind::Merge, date, counts }) => {
            assert_eq!(date, "2026-06-22");
            assert_eq!(counts.get("a"), Some(&1));
        }
        _ => panic!("expected the same write to the fallback"),
    }
    assert!(!f.sync && db.ping_due());
    let f = db.after_write(&call, true);
    assert!(f.fallback.is_none() && f.sync && !db.ping_due());
    let read = Database::read_day_call("2026-06-22");
    assert!(db.fallback_read(&read, true).is_none());
    match db.fallback_read(&read, false) {
        Some(StoreCall::ReadDay { store: Store::Fallback, date }) => assert_eq!(date, "2026-06-22"),
        _ => panic!("expected a fallback read"),
    }
    match Database::export_call("flat", Some("2026-06-01"), None) {
        StoreCall::Export { store: Store::Primary, format, start, end } => {
            assert_eq!((format.as_str(), start.as_deref(), end), ("flat", Some("2026-06-01"), None));
        }
        _ => panic!("expected an export"),
    }
    assert!(sync_write("d", Ok(CountMap::new())).is_none());
    assert!(sync_write("d", Err("x".to_string())).is_none());
    assert!(matches!(sync_end(true, true), (true, Some(StoreCall::ClearFallback))));
    assert!(matches!(sync_end(false, true), (false, None)));
}
