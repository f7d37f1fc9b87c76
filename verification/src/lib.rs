//! In-memory aggregation core for a live feed of raid-boss sightings.
//!
//! Sighting events flow in from an upstream collaborator; the aggregation
//! table keeps, per boss identifier, the boss's metadata, the timestamp of
//! the latest sighting, and a bounded ring of the most recent sightings.
//! Queries are answered from that table; the asynchronous plumbing (mailbox,
//! reply channels, stream merging) lives in the embedding layer.

pub mod circular_buffer;
pub mod laws;
pub mod petronel;
pub mod raid;
