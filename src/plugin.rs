use vstd::prelude::*;
use crate::buckets::{buckets_fit, fits};
use crate::events::{compress, compressed, item_views, note_views, DisplayItem, Note};
use crate::requests::{plugin_name, plugin_type};
use crate::timing::TimeRange;

verus! {

/// One hour, in milliseconds: the width of the slots the plugin offers.
pub const HOUR_MS: i64 = 3_600_000;

/// The text-note plugin of the timeline.
pub struct Plugin {
    /// The width of each "write a note here" slot, in milliseconds.
    pub bucket_width: i64,
}

impl Plugin {
    /// Slots have a positive width.
    pub open spec fn wf(&self) -> bool {
        self.bucket_width > 0
    }

    /// The plugin as the timeline uses it: slots one hour wide.
    pub fn new() -> (r: Plugin)
        ensures
            r.wf(),
            r.bucket_width == HOUR_MS,
    {
        Plugin { bucket_width: HOUR_MS }
    }

    /// A plugin whose slots are `width` milliseconds wide.
    pub fn with_bucket_width(width: i64) -> (r: Plugin)
        requires
            width > 0,
        ensures
            r.wf(),
            r.bucket_width == width,
    {
        Plugin { bucket_width: width }
    }

    /// The category under which the plugin's notes are stored.
    pub fn get_type() -> (r: String)
        ensures
            r@ == plugin_name(),
    {
        plugin_type()
    }

    /// Whether every slot over `query` ends at a representable instant, so
    /// that `get_compressed_events` may be asked for it.
    pub fn can_answer(&self, query: &TimeRange) -> (r: bool)
        requires
            self.wf(),
            query.wf(),
        ensures
            r == buckets_fit(*query, self.bucket_width as int),
    {
        fits(query, self.bucket_width)
    }

    /// The answer to a timeline query over `query`, given the stored notes
    /// that overlap it: those notes in the order given, then one slot per
    /// bucket of the plugin's width, in time order.
    pub fn get_compressed_events(&self, query: &TimeRange, stored: &Vec<Note>) -> (r: Vec<
        DisplayItem,
    >)
        requires
            self.wf(),
            query.wf(),
            buckets_fit(*query, self.bucket_width as int),
        ensures
            item_views(r@) == compressed(*query, note_views(stored@), self.bucket_width as int),
    {
        compress(query, stored, self.bucket_width)
    }
}

} // verus!
