use vstd::prelude::*;
use crate::buckets::{bucket_bounds, bucketize, buckets_fit, spans};
use crate::timing::{TimeRange, Timing};

verus! {

/// A stored text note.
#[derive(Clone, Debug)]
pub struct Note {
    pub id: String,
    pub text: String,
    pub timing: Timing,
}

/// What a note is, with its strings as character sequences.
pub struct NoteView {
    pub id: Seq<char>,
    pub text: Seq<char>,
    pub timing: Timing,
}

impl View for Note {
    type V = NoteView;

    open spec fn view(&self) -> NoteView {
        NoteView { id: self.id@, text: self.text@, timing: self.timing }
    }
}

/// One entry of the answer to a timeline query: a stored note to show, or
/// an empty slot that invites writing a note over its time range.
#[derive(Clone, Debug)]
pub enum DisplayItem {
    Existing { text: String, id: String, timing: Timing },
    Placeholder { timing: Timing },
}

/// What a display item is, with its strings as character sequences.
pub enum ItemView {
    Existing { text: Seq<char>, id: Seq<char>, timing: Timing },
    Placeholder { timing: Timing },
}

impl View for DisplayItem {
    type V = ItemView;

    open spec fn view(&self) -> ItemView {
        match self {
            DisplayItem::Existing { text, id, timing } => ItemView::Existing {
                text: text@,
                id: id@,
                timing: *timing,
            },
            DisplayItem::Placeholder { timing } => ItemView::Placeholder { timing: *timing },
        }
    }
}

/// The label that tells a stored note from an invitation to write one.
pub open spec fn title_of(item: ItemView) -> Seq<char> {
    match item {
        ItemView::Existing { .. } => "Text"@,
        ItemView::Placeholder { .. } => "Write Text"@,
    }
}

impl DisplayItem {
    /// The item's category label: "Text" for a stored note, "Write Text"
    /// for a slot.
    pub fn title(&self) -> (r: String)
        ensures
            r@ == title_of(self@),
    {
        broadcast use vstd::string::to_string_from_display_ensures_for_str;

        match self {
            DisplayItem::Existing { .. } => "Text".to_string(),
            DisplayItem::Placeholder { .. } => "Write Text".to_string(),
        }
    }

    /// The time position or range the item is shown at.
    pub fn timing(&self) -> (r: Timing)
        ensures
            r == match self@ {
                ItemView::Existing { timing, .. } => timing,
                ItemView::Placeholder { timing } => timing,
            },
    {
        match self {
            DisplayItem::Existing { timing, .. } => *timing,
            DisplayItem::Placeholder { timing } => *timing,
        }
    }
}

/// A stored note shown as it is.
pub open spec fn existing_of(n: NoteView) -> ItemView {
    ItemView::Existing { text: n.text, id: n.id, timing: n.timing }
}

/// A slot over the bucket with bounds `b`.
pub open spec fn placeholder_of(b: (int, int)) -> ItemView {
    ItemView::Placeholder { timing: Timing::Range(TimeRange { start: b.0 as i64, end: b.1 as i64 }) }
}

pub open spec fn note_views(v: Seq<Note>) -> Seq<NoteView> {
    v.map_values(|n: Note| n@)
}

pub open spec fn item_views(v: Seq<DisplayItem>) -> Seq<ItemView> {
    v.map_values(|d: DisplayItem| d@)
}

/// The notes, in their order, that a query over `query` hands back.
pub open spec fn overlapping(notes: Seq<NoteView>, query: TimeRange) -> Seq<NoteView> {
    notes.filter(|n: NoteView| n.timing.overlaps_spec(query))
}

/// The answer to a query: every stored note given, in the order given,
/// then one slot per bucket of `width` over the query, in time order. The
/// two parts are neither merged nor deduplicated.
pub open spec fn compressed(query: TimeRange, stored: Seq<NoteView>, width: int) -> Seq<ItemView> {
    stored.map_values(|n: NoteView| existing_of(n)) + bucket_bounds(
        query.start as int,
        query.end as int,
        width,
    ).map_values(|b: (int, int)| placeholder_of(b))
}

/// Keeps the notes whose timing overlaps `query`, in their order.
pub fn filter_overlapping(notes: &Vec<Note>, query: &TimeRange) -> (r: Vec<Note>)
    ensures
        note_views(r@) == overlapping(note_views(notes@), *query),
{
    let ghost all = note_views(notes@);
    let mut out: Vec<Note> = Vec::new();
    let mut i: usize = 0;
    while i < notes.len()
        invariant
            i <= notes@.len(),
            all == note_views(notes@),
            note_views(out@) == overlapping(all.subrange(0, i as int), *query),
        decreases notes@.len() - i,
    {
        let ghost before = out@;
        let n = &notes[i];
        if n.timing.overlaps(*query) {
            out.push(Note { id: n.id.clone(), text: n.text.clone(), timing: n.timing });
        }
        proof {
            let f = |n: NoteView| n.timing.overlaps_spec(*query);
            assert(all.subrange(0, i + 1) =~= all.subrange(0, i as int).push(all[i as int]));
            all.subrange(0, i as int).lemma_filter_push(all[i as int], f);
            assert(note_views(out@) =~= if f(all[i as int]) {
                note_views(before).push(all[i as int])
            } else {
                note_views(before)
            });
            assert(note_views(out@) =~= overlapping(all.subrange(0, i + 1), *query));
        }
        i = i + 1;
    }
    assert(all.subrange(0, notes@.len() as int) =~= all);
    out
}

/// Lists the stored notes given, then a slot for each bucket of `width`
/// over `query`.
pub fn compress(query: &TimeRange, stored: &Vec<Note>, width: i64) -> (r: Vec<DisplayItem>)
    requires
        width > 0,
        query.wf(),
        buckets_fit(*query, width as int),
    ensures
        item_views(r@) == compressed(*query, note_views(stored@), width as int),
{
    let ghost bounds = bucket_bounds(query.start as int, query.end as int, width as int);
    let mut out: Vec<DisplayItem> = Vec::new();
    let mut i: usize = 0;
    while i < stored.len()
        invariant
            i <= stored@.len(),
            out@.len() == i,
            forall|k: int| 0 <= k < i ==> #[trigger] out@[k]@ == existing_of(stored@[k]@),
        decreases stored@.len() - i,
    {
        let n = &stored[i];
        out.push(DisplayItem::Existing { text: n.text.clone(), id: n.id.clone(), timing: n.timing });
        i = i + 1;
    }
    let slots = bucketize(query, width);
    let mut j: usize = 0;
    while j < slots.len()
        invariant
            j <= slots@.len(),
            slots@.len() == bounds.len(),
            forall|k: int| 0 <= k < slots@.len() ==> spans(#[trigger] slots@[k], bounds[k]),
            out@.len() == stored@.len() + j,
            forall|k: int| 0 <= k < stored@.len() ==> #[trigger] out@[k]@ == existing_of(stored@[k]@),
            forall|k: int|
                0 <= k < j ==> #[trigger] out@[stored@.len() + k]@ == placeholder_of(bounds[k]),
        decreases slots@.len() - j,
    {
        out.push(DisplayItem::Placeholder { timing: Timing::Range(slots[j]) });
        proof {
            assert(spans(slots@[j as int], bounds[j as int]));
            assert(out@[stored@.len() + j]@ == placeholder_of(bounds[j as int]));
        }
        j = j + 1;
    }
    assert(item_views(out@) =~= compressed(*query, note_views(stored@), width as int)) by {
        let c = compressed(*query, note_views(stored@), width as int);
        assert forall|k: int| 0 <= k < out@.len() implies #[trigger] item_views(out@)[k] == c[k] by {
            if k >= stored@.len() {
                assert(out@[stored@.len() + (k - stored@.len())]@ == placeholder_of(
                    bounds[k - stored@.len()],
                ));
            }
        }
    }
    out
}

} // verus!
