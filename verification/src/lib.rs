//! Core of a song-recommendation service: an association-rule index that is
//! reloaded while the service runs, the subset-lookup query over it, and the
//! decision logic of the actors that keep the index fresh.

pub mod text;
pub mod canonical;
pub mod combos;
pub mod index;
pub mod query;
pub mod fields;
pub mod decimal;
pub mod paths;
pub mod checkpoint;
pub mod snapshot;
pub mod server;
pub mod actor;
pub mod watcher;
pub mod serve;
pub mod dataset;
