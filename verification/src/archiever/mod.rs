//! The archiver: records that it moves from the trade queue to storage.
pub mod state;
