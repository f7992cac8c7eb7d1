//! Configuration values and their defaults.
use vstd::prelude::*;

verus! {

/// Settings of the SQLite backend.
#[derive(Debug, Clone)]
pub struct SqliteConfig {
    pub path: String,
    pub table: String,
}

/// Settings of the MongoDB backend.
#[derive(Debug, Clone)]
pub struct MongoConfig {
    pub protocol: String,
    pub database: String,
    pub username: Option<String>,
    pub password: Option<String>,
    pub auth_source: String,
    pub ssl: bool,
    pub replica_set: Option<String>,
    pub app_name: Option<String>,
    pub hosts: Option<Vec<String>>,
    pub connect_timeout_ms: u64,
    pub server_selection_timeout_ms: u64,
    pub collection: String,
    /// The local SQLite store that takes the writes while MongoDB fails.
    pub fallback: Option<FallbackConfig>,
}

/// When data written to the fallback store goes back to the primary.
#[derive(Debug, Clone, Copy, PartialEq, Eq, Structural)]
pub enum FallbackSyncMode {
    /// As soon as the primary answers again.
    Immediate,
    /// Not by itself.
    Deferred,
}

/// Settings of the fallback store of the MongoDB backend.
#[derive(Debug, Clone)]
pub struct FallbackConfig {
    pub enable: bool,
    pub path: String,
    pub table: String,
    pub sync_mode: FallbackSyncMode,
}

/// Which backend to use, and the settings of each.
#[derive(Debug, Clone)]
pub struct DatabaseConfig {
    pub backend: String,
    pub sqlite: SqliteConfig,
    pub mongodb: MongoConfig,
    pub use_server_aggregation: bool,
}

/// How periodic saves write to the database.
#[derive(Debug, Clone, Copy, PartialEq, Eq, Structural)]
pub enum UpdateMode {
    /// Only the counts gathered since the last save are added.
    Diff,
    /// The whole day's snapshot replaces the stored day.
    Full,
}

/// Logging settings.
#[derive(Debug, Clone)]
pub struct LogConfig {
    pub level: String,
    pub file: String,
    pub rotation: String,
    pub console: bool,
}

/// The whole configuration.
#[derive(Debug, Clone)]
pub struct Config {
    pub database: DatabaseConfig,
    pub port: u16,
    pub listener: String,
    pub save_interval_secs: u64,
    pub log: LogConfig,
    pub update_mode: UpdateMode,
}

fn default_sqlite_table() -> (s: String)
    ensures
        s@ == "daily_stats"@,
{
    "daily_stats".to_owned()
}

fn default_mongo_collection() -> (s: String)
    ensures
        s@ == "daily_stats"@,
{
    "daily_stats".to_owned()
}

fn default_mongo_protocol() -> (s: String)
    ensures
        s@ == "mongodb"@,
{
    "mongodb".to_owned()
}

fn default_auth_source() -> (s: String)
    ensures
        s@ == "admin"@,
{
    "admin".to_owned()
}

fn default_ssl() -> (b: bool)
    ensures
        b,
{
    true
}

fn default_connect_timeout_ms() -> (ms: u64)
    ensures
        ms == 15000,
{
    15000
}

fn default_server_selection_timeout_ms() -> (ms: u64)
    ensures
        ms == 30000,
{
    30000
}

fn default_server_aggregation() -> (b: bool)
    ensures
        b,
{
    true
}

fn default_log_level() -> (s: String)
    ensures
        s@ == "info"@,
{
    "info".to_owned()
}

fn default_log_file() -> (s: String)
    ensures
        s@ == "logs/monitor.log"@,
{
    "logs/monitor.log".to_owned()
}

fn default_log_rotation() -> (s: String)
    ensures
        s@ == "daily"@,
{
    "daily".to_owned()
}

fn default_log_console() -> (b: bool)
    ensures
        b,
{
    true
}

fn default_save_interval() -> (secs: u64)
    ensures
        secs == 60,
{
    60
}

/// The default SQLite settings.
pub open spec fn is_default_sqlite(c: SqliteConfig) -> bool {
    &&& c.path@ == "monitor.sqlite"@
    &&& c.table@ == "daily_stats"@
}

/// The default MongoDB settings.
pub open spec fn is_default_mongo(c: MongoConfig) -> bool {
    &&& c.protocol@ == "mongodb"@
    &&& c.database@ == "keymouse_monitor"@
    &&& c.username is None
    &&& c.password is None
    &&& c.auth_source@ == "admin"@
    &&& c.ssl
    &&& c.replica_set is None
    &&& c.app_name is None
    &&& c.hosts is None
    &&& c.connect_timeout_ms == 15000
    &&& c.server_selection_timeout_ms == 30000
    &&& c.collection@ == "daily_stats"@
    &&& c.fallback is None
}

/// The default database settings.
pub open spec fn is_default_database(c: DatabaseConfig) -> bool {
    &&& c.backend@ == "sqlite"@
    &&& is_default_sqlite(c.sqlite)
    &&& is_default_mongo(c.mongodb)
    &&& c.use_server_aggregation
}

/// The default logging settings.
pub open spec fn is_default_log(c: LogConfig) -> bool {
    &&& c.level@ == "info"@
    &&& c.file@ == "logs/monitor.log"@
    &&& c.rotation@ == "daily"@
    &&& c.console
}

impl Default for SqliteConfig {
    fn default() -> (c: SqliteConfig)
        ensures
            is_default_sqlite(c),
    {
        SqliteConfig { path: "monitor.sqlite".to_owned(), table: default_sqlite_table() }
    }
}

impl Default for MongoConfig {
    fn default() -> (c: MongoConfig)
        ensures
            is_default_mongo(c),
    {
        MongoConfig {
            protocol: default_mongo_protocol(),
            database: "keymouse_monitor".to_owned(),
            username: None,
            password: None,
            auth_source: default_auth_source(),
            ssl: default_ssl(),
            replica_set: None,
            app_name: None,
            hosts: None,
            connect_timeout_ms: default_connect_timeout_ms(),
            server_selection_timeout_ms: default_server_selection_timeout_ms(),
            collection: default_mongo_collection(),
            fallback: None,
        }
    }
}

impl Default for DatabaseConfig {
    fn default() -> (c: DatabaseConfig)
        ensures
            is_default_database(c),
    {
        DatabaseConfig {
            backend: "sqlite".to_owned(),
            sqlite: SqliteConfig::default(),
            mongodb: MongoConfig::default(),
            use_server_aggregation: default_server_aggregation(),
        }
    }
}

impl Default for FallbackSyncMode {
    fn default() -> (m: FallbackSyncMode)
        ensures
            m == FallbackSyncMode::Immediate,
    {
        FallbackSyncMode::Immediate
    }
}

impl Default for UpdateMode {
    fn default() -> (m: UpdateMode)
        ensures
            m == UpdateMode::Diff,
    {
        UpdateMode::Diff
    }
}

impl Default for LogConfig {
    fn default() -> (c: LogConfig)
        ensures
            is_default_log(c),
    {
        LogConfig {
            level: default_log_level(),
            file: default_log_file(),
            rotation: default_log_rotation(),
            console: default_log_console(),
        }
    }
}

impl Config {
    /// The default configuration with the given input listener; the default
    /// listener depends on the platform, which the caller knows.
    pub fn defaults_with_listener(listener: String) -> (c: Config)
        ensures
            is_default_database(c.database),
            c.port == 5000,
            c.listener == listener,
            c.save_interval_secs == 60,
            is_default_log(c.log),
            c.update_mode == UpdateMode::Diff,
    {
        Config {
            database: DatabaseConfig::default(),
            port: 5000,
            listener,
            save_interval_secs: default_save_interval(),
            log: LogConfig::default(),
            update_mode: UpdateMode::default(),
        }
    }
}

} // verus!
