//! Turns a stacked, section-delimited election result sheet into one table
//! of vote counts per ballot symbol and polling center.

pub mod text;
pub mod record;
pub mod pattern;
pub mod classify;
pub mod text_map;
pub mod errors;
pub mod names;
pub mod symbols;
pub mod aggregate;
pub mod aggregator;
pub mod laws;
