//! A timeline plugin for short text notes.
//!
//! Notes are stored with a time position or a time range. When a window of
//! the timeline is requested, the stored notes that overlap it are listed,
//! followed by a gapless series of fixed-width "write a note here" slots that
//! cover the window.
//!
//! Instants are counted in milliseconds since the Unix epoch.

pub mod timing;
pub mod buckets;
pub mod events;
pub mod requests;
pub mod plugin;
