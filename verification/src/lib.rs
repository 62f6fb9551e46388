//! A log of scores: exact decimal values, each with the time it was logged
//! and any number of free-text tags, kept in an SQLite database.
//!
//! `db` is the store: it creates the two relations, stores scores and tags
//! and reads them back. `query` is the query engine: it attaches the tags
//! to their scores, keeps the scores that a `filter` admits, decodes their
//! values and orders them by time. `chart` groups scores by day. `value`,
//! `time` and `names` hold the plain data that all of them work on, and
//! `command` the statements that the store runs.

pub mod chart;
pub mod command;
pub mod db;
pub mod error;
pub mod filter;
pub mod names;
pub mod query;
pub mod time;
pub mod value;
