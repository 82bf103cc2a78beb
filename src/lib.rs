//! A personal, append-only log: short tagged entries with a timestamp, stored
//! in a relational store and retrieved by tag and by date range.
//!
//! The log is made of `tags` (tag lists and their text form), `timestamp`
//! (local instants and their canonical text), `range` (date ranges of a
//! query), `repository` (entries, stored rows and queries), `report` (what
//! is printed or exported) and `error`. Beside it stand a few small programs'
//! rules: `stack`, `linked_list`, `tictactoe` and `http_client`.

pub mod error;
pub mod http_client;
pub mod linked_list;
pub mod range;
pub mod report;
pub mod stack;
pub mod repository;
pub mod tags;
pub mod tictactoe;
pub mod timestamp;
