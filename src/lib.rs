//! Extraction of per-song score rows from rhythm-game save documents,
//! grouping of those rows by canonical song name, and the tabular layout
//! in which each song's rows are exported.

pub mod aggregate;
pub mod canonical;
pub mod catalog;
pub mod decimal;
pub mod order;
pub mod save;
pub mod table;
