//! A personal habit tracker: named habits, each with a start date and the
//! set of dates on which it was completed, kept as one JSON document.
//!
//! - [`date`]: calendar dates and their ISO 8601 text;
//! - [`habit`]: a habit, and the store of habits;
//! - [`document`]: the JSON form of habits and stores;
//! - [`command`]: the commands of the tracker and one run of it;
//! - [`json`]: JSON values, as `serde_json` parses and prints them;
//! - [`listing`]: the ascending listing of a set of dates.

pub mod command;
pub mod date;
pub mod document;
pub mod habit;
pub mod json;
mod keys;
pub mod listing;
