pub mod clock;
pub mod config;
pub mod counts;
pub mod data;
pub mod database;
pub mod export;
pub mod import;
pub mod listener;
pub mod logging;
pub mod maps;
pub mod schema;
pub mod text;
pub mod uri;
pub mod api;
pub mod backend;
pub mod changelog;
