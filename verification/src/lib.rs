//! Core of a static mock of a web game's backend: a cursor-paginated fetch
//! client turned into a lazy version stream, a bounded least-recently-used
//! snapshot cache, and a byte-range-aware static asset source backed by an
//! in-memory archive and the filesystem.

pub mod api;
pub mod archive;
pub mod cache;
pub mod chronicler;
pub mod config;
pub mod media;
pub mod request;
pub mod text;
pub mod time;
