use timeline_plugin_text::buckets::{bucketize, fits};
use timeline_plugin_text::events::{compress, filter_overlapping, DisplayItem, Note};
use timeline_plugin_text::plugin::{Plugin, HOUR_MS};
use timeline_plugin_text::timing::{TimeRange, Timing};

const MINUTE: i64 = 60_000;

fn note(id: &str, text: &str, timing: Timing) -> Note {
    Note { id: id.to_string(), text: text.to_string(), timing }
}

fn placeholder_range(item: &DisplayItem) -> TimeRange {
    match item {
        DisplayItem::Placeholder { timing: Timing::Range(r) } => *r,
        other => panic!("expected a placeholder over a range, got {:?}", other),
    }
}

#[test]
fn empty_range_gives_no_buckets() {
    assert!(bucketize(&TimeRange::new(0, 0), HOUR_MS).is_empty());
    assert!(bucketize(&TimeRange::new(1_700_000_000_000, 1_700_000_000_000), 1).is_empty());
    assert!(bucketize(&TimeRange::new(-5, -5), 7).is_empty());
}

#[test]
fn last_bucket_runs_past_the_range_end() {
    let b = bucketize(&TimeRange::new(0, 90 * MINUTE), 60 * MINUTE);
    assert_eq!(b, vec![TimeRange::new(0, 60 * MINUTE), TimeRange::new(60 * MINUTE, 120 * MINUTE)]);
}

#[test]
fn buckets_chain_from_the_range_start() {
    let range = TimeRange::new(1_000, 1_000 + 10 * 7);
    let b = bucketize(&range, 7);
    assert_eq!(b.len(), 10);
    assert_eq!(b[0].start, 1_000);
    for i in 1..b.len() {
        assert_eq!(b[i].start, b[i - 1].end);
    }
    for r in &b {
        assert_eq!(r.end - r.start, 7);
        assert!(r.start < range.end);
    }
    assert!(b[b.len() - 1].end >= range.end);
}

#[test]
fn one_millisecond_range_gets_one_bucket() {
    let b = bucketize(&TimeRange::new(5, 6), HOUR_MS);
    assert_eq!(b, vec![TimeRange::new(5, 5 + HOUR_MS)]);
}

#[test]
fn fits_detects_overflow_near_the_largest_instant() {
    assert!(fits(&TimeRange::new(0, 90 * MINUTE), HOUR_MS));
    assert!(fits(&TimeRange::new(i64::MAX, i64::MAX), HOUR_MS));
    assert!(!fits(&TimeRange::new(i64::MAX - 10, i64::MAX - 5), HOUR_MS));
    assert!(fits(&TimeRange::new(i64::MAX - 10, i64::MAX), 10));
    assert!(!fits(&TimeRange::new(i64::MIN, i64::MAX), i64::MAX));
    assert!(fits(&TimeRange::new(i64::MIN, 0), i64::MAX));
}

#[test]
fn compress_without_notes_gives_three_hourly_slots() {
    let query = TimeRange::new(0, 3 * HOUR_MS);
    let out = compress(&query, &vec![], 60 * MINUTE);
    assert_eq!(out.len(), 3);
    assert!(out.iter().all(|d| matches!(d, DisplayItem::Placeholder { .. })));
    let ranges: Vec<TimeRange> = out.iter().map(placeholder_range).collect();
    assert_eq!(
        ranges,
        vec![
            TimeRange::new(0, HOUR_MS),
            TimeRange::new(HOUR_MS, 2 * HOUR_MS),
            TimeRange::new(2 * HOUR_MS, 3 * HOUR_MS),
        ]
    );
    for d in &out {
        assert_eq!(d.title(), "Write Text");
    }
}

#[test]
fn compress_keeps_slots_under_an_overlapping_note() {
    let query = TimeRange::new(0, 3 * HOUR_MS);
    let a = note("a", "Note A", Timing::Range(TimeRange::new(30 * MINUTE, 90 * MINUTE)));
    let out = compress(&query, &vec![a], HOUR_MS);
    assert_eq!(out.len(), 4);
    match &out[0] {
        DisplayItem::Existing { text, id, timing } => {
            assert_eq!(text, "Note A");
            assert_eq!(id, "a");
            assert_eq!(*timing, Timing::Range(TimeRange::new(30 * MINUTE, 90 * MINUTE)));
        }
        other => panic!("expected the stored note first, got {:?}", other),
    }
    assert_eq!(out[0].title(), "Text");
    assert_eq!(placeholder_range(&out[1]), TimeRange::new(0, HOUR_MS));
    assert_eq!(placeholder_range(&out[2]), TimeRange::new(HOUR_MS, 2 * HOUR_MS));
    assert_eq!(placeholder_range(&out[3]), TimeRange::new(2 * HOUR_MS, 3 * HOUR_MS));
}

#[test]
fn compress_keeps_store_order() {
    let query = TimeRange::new(0, 10);
    let notes = vec![
        note("2", "later", Timing::Point(7)),
        note("1", "earlier", Timing::Point(3)),
    ];
    let out = compress(&query, &notes, 10);
    assert_eq!(out.len(), 3);
    assert!(matches!(&out[0], DisplayItem::Existing { id, .. } if id == "2"));
    assert!(matches!(&out[1], DisplayItem::Existing { id, .. } if id == "1"));
    assert_eq!(out[1].timing(), Timing::Point(3));
    assert_eq!(placeholder_range(&out[2]), TimeRange::new(0, 10));
}

#[test]
fn compress_over_an_empty_query_lists_only_notes() {
    let query = TimeRange::new(50, 50);
    let out = compress(&query, &vec![note("x", "", Timing::Point(50))], 5);
    assert_eq!(out.len(), 1);
    assert!(matches!(&out[0], DisplayItem::Existing { .. }));
}

#[test]
fn overlap_rules_for_points_and_ranges() {
    let q = TimeRange::new(10, 20);
    assert!(Timing::Point(10).overlaps(q));
    assert!(Timing::Point(19).overlaps(q));
    assert!(!Timing::Point(20).overlaps(q));
    assert!(!Timing::Point(9).overlaps(q));
    assert!(Timing::Range(TimeRange::new(0, 11)).overlaps(q));
    assert!(!Timing::Range(TimeRange::new(0, 10)).overlaps(q));
    assert!(Timing::Range(TimeRange::new(19, 30)).overlaps(q));
    assert!(!Timing::Range(TimeRange::new(20, 30)).overlaps(q));
    assert!(Timing::Range(TimeRange::new(0, 100)).overlaps(q));
}

#[test]
fn filter_keeps_overlapping_notes_in_order() {
    let q = TimeRange::new(10, 20);
    let notes = vec![
        note("a", "in", Timing::Point(15)),
        note("b", "out", Timing::Point(25)),
        note("c", "across", Timing::Range(TimeRange::new(5, 12))),
        note("d", "touching", Timing::Range(TimeRange::new(20, 22))),
    ];
    let kept = filter_overlapping(&notes, &q);
    let ids: Vec<&str> = kept.iter().map(|n| n.id.as_str()).collect();
    assert_eq!(ids, vec!["a", "c"]);
}

#[test]
fn plugin_uses_hourly_slots() {
    let plugin = Plugin::new();
    assert_eq!(plugin.bucket_width, 3_600_000);
    let query = TimeRange::new(0, 3 * HOUR_MS);
    assert!(plugin.can_answer(&query));
    let out = plugin.get_compressed_events(&query, &vec![]);
    assert_eq!(out.len(), 3);
    assert_eq!(Plugin::get_type(), "timeline_plugin_text");
    let narrow = Plugin::with_bucket_width(30 * MINUTE);
    assert_eq!(narrow.get_compressed_events(&query, &vec![]).len(), 6);
    assert!(!narrow.can_answer(&TimeRange::new(i64::MAX - 1, i64::MAX)));
}
