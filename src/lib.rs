//! Local-first activity recorder core.
//!
//! Point-in-time events from the collectors are validated and filtered on ingest, then
//! attributed to timeline segments and to fixed-length review blocks; the library also
//! selects the block due for review, reduces the recent events to a "Now" snapshot, and
//! writes the CSV and Markdown exports.
pub mod text;
pub mod clock;
pub mod settings;
pub mod events;
pub mod attribution;
pub mod blocks;
pub mod review;
pub mod privacy;
pub mod tracking;
pub mod ingest;
pub mod now;
pub mod export;
pub mod reports;
pub mod summary;
pub mod deletion;
pub mod collector;
