//! An embedded log-structured store of "who / what / when / where / why"
//! records: an append-only journal compacted into checkpoint files, with a
//! case-insensitive substring query over the records held in memory.
//!
//! The engine (`db`) decides; its host performs the file reads, journal
//! writes and compaction steps that it asks for and reports back.

pub mod codec;
pub mod db;
pub mod entry;
pub mod layout;
pub mod models;
pub mod text;
