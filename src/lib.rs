//! Download orchestration for a game launcher, verified with Verus.
//!
//! A torrent engine registers sources and reports statistics; this library
//! keeps the record of every download (`manager`, `record`), decides what each
//! download's watcher does (`monitor`), which archives an extraction run
//! processes and where their entries go (`extraction`, `paths`), and what a
//! progress listing shows (`progress`). `laws` states and proves the
//! properties that hold across these operations. The remaining modules hold
//! the catalogue and settings logic of the launcher: title normalisation and
//! page scripts (`text`, `mirror`), the Steam catalogue (`steam`, `index`),
//! cached store details (`details`), settings (`config`) and installed games
//! (`installed`).
//!
//! Engine calls, timers, locks and file access are the caller's: every
//! operation here takes what they produced as plain values.

pub mod config;
pub mod details;
pub mod extraction;
pub mod index;
pub mod installed;
pub mod laws;
pub mod manager;
pub mod mirror;
pub mod monitor;
pub mod names;
pub mod paths;
pub mod progress;
pub mod record;
pub mod steam;
pub mod text;
