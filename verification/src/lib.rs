//! Verified core of the FLTS library: device-roster CRDT, sync reconciliation,
//! translation-stream bookkeeping, model catalog rules, lyrics parsing and the
//! text utilities they rest on.

pub mod book_cache;
pub mod book_files;
pub mod book_state;
pub mod books;
pub mod catalog;
pub mod control;
pub mod engine;
pub mod gemini_cache;
pub mod idmap;
pub mod lock_trace;
pub mod lrclib;
pub mod lyrics;
pub mod lyrics_cache;
pub mod lyrics_translation;
pub mod prompt;
pub mod reconcile;
pub mod retry;
pub mod roster;
pub mod select;
pub mod summary;
pub mod text;
pub mod trace_names;
pub mod translator;
pub mod vclock;
pub mod watch;
