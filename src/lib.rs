//! Achievement tracking for a game library: the store of games and
//! achievements, the merge of freshly fetched data into it, the derived
//! statistics, and the sync flows that drive all of it.
pub mod auth;
pub mod cloud;
pub mod error;
pub mod freshness;
pub mod icons;
pub mod log;
pub mod merge;
pub mod messages;
pub mod models;
pub mod order;
pub mod stats;
pub mod store;
pub mod sync;
pub mod text;
pub mod ui;
