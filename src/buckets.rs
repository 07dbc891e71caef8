use vstd::prelude::*;
use crate::timing::TimeRange;

verus! {

/// Number of buckets of `width` that start inside `[start, end)`, the first
/// one starting at `start`: the least `k` with `start + k * width >= end`.
pub open spec fn bucket_count(start: int, end: int, width: int) -> nat {
    if end <= start || width <= 0 {
        0
    } else {
        ((end - start - 1) / width + 1) as nat
    }
}

/// The bounds of the buckets that cover `[start, end)`. Bucket `i` is
/// `[start + i * width, start + (i + 1) * width)`; the last one may reach
/// past `end`, since only a bucket's start is held to the range.
pub open spec fn bucket_bounds(start: int, end: int, width: int) -> Seq<(int, int)> {
    Seq::new(
        bucket_count(start, end, width),
        |i: int| (start + i * width, start + (i + 1) * width),
    )
}

/// The end of the last bucket is representable, so no bucket overflows.
pub open spec fn buckets_fit(range: TimeRange, width: int) -> bool {
    range.start + bucket_count(range.start as int, range.end as int, width) * width <= i64::MAX
}

/// Whether an exec range has the given bounds.
pub open spec fn spans(r: TimeRange, b: (int, int)) -> bool {
    r.start == b.0 && r.end == b.1
}

/// `k` buckets start before `end` exactly when `k` is under the count.
proof fn lemma_count_threshold(d: int, w: int, k: int)
    requires
        d > 0,
        w > 0,
        k >= 0,
    ensures
        (k * w < d) <==> (k < (d - 1) / w + 1),
{
    let q = (d - 1) / w;
    let r = (d - 1) % w;
    vstd::arithmetic::div_mod::lemma_fundamental_div_mod(d - 1, w);
    vstd::arithmetic::div_mod::lemma_mod_bound(d - 1, w);
    if k <= q {
        assert(k * w <= q * w) by (nonlinear_arith)
            requires k <= q, w > 0;
        assert(w * q == q * w) by (nonlinear_arith);
    } else {
        assert(k * w >= (q + 1) * w) by (nonlinear_arith)
            requires k >= q + 1, w > 0;
        assert((q + 1) * w == q * w + w) by (nonlinear_arith);
        assert(w * q == q * w) by (nonlinear_arith);
    }
}

/// Whether every bucket of `range` at `width` ends at a representable
/// instant.
pub fn fits(range: &TimeRange, width: i64) -> (r: bool)
    requires
        width > 0,
        range.wf(),
    ensures
        r == buckets_fit(*range, width as int),
{
    if range.start == range.end {
        assert(bucket_count(range.start as int, range.end as int, width as int) == 0);
        return true;
    }
    let d: i128 = range.end as i128 - range.start as i128;
    let w: i128 = width as i128;
    let count: i128 = (d - 1) / w + 1;
    proof {
        let di = d as int;
        let wi = w as int;
        vstd::arithmetic::div_mod::lemma_div_pos_is_pos(di - 1, wi);
        vstd::arithmetic::div_mod::lemma_fundamental_div_mod(di - 1, wi);
        vstd::arithmetic::div_mod::lemma_mod_bound(di - 1, wi);
        let q = (di - 1) / wi;
        assert((q + 1) * wi == wi * q + wi) by (nonlinear_arith);
        assert((q + 1) * wi >= 0) by (nonlinear_arith)
            requires q >= 0, wi > 0;
        assert(count == q + 1);
    }
    let last_end: i128 = range.start as i128 + count * w;
    last_end <= i64::MAX as i128
}

/// Splits `range` into consecutive buckets of `width`, starting at
/// `range.start` and stopping once a bucket would start at or after
/// `range.end`. The last bucket is not clipped to the range.
pub fn bucketize(range: &TimeRange, width: i64) -> (r: Vec<TimeRange>)
    requires
        width > 0,
        range.wf(),
        buckets_fit(*range, width as int),
    ensures
        r@.len() == bucket_count(range.start as int, range.end as int, width as int),
        forall|i: int|
            0 <= i < r@.len() ==> spans(
                #[trigger] r@[i],
                bucket_bounds(range.start as int, range.end as int, width as int)[i],
            ),
        r@.len() == 0 <==> range.start == range.end,
{
    let ghost s = range.start as int;
    let ghost e = range.end as int;
    let ghost w = width as int;
    let ghost n = bucket_count(s, e, w);
    let mut out: Vec<TimeRange> = Vec::new();
    let mut current: i64 = range.start;
    while current < range.end
        invariant
            w > 0,
            s <= e,
            s + n * w <= i64::MAX,
            n == bucket_count(s, e, w),
            s == range.start,
            e == range.end,
            w == width,
            out@.len() <= n,
            current == s + out@.len() * w,
            forall|i: int|
                0 <= i < out@.len() ==> spans(#[trigger] out@[i], bucket_bounds(s, e, w)[i]),
        decreases n - out@.len(),
    {
        let ghost k = out@.len() as int;
        proof {
            lemma_count_threshold(e - s, w, k);
            assert(k + 1 <= n);
            assert((k + 1) * w <= n * w) by (nonlinear_arith)
                requires k + 1 <= n, w > 0;
            assert((k + 1) * w == k * w + w) by (nonlinear_arith);
        }
        let next: i64 = current + width;
        out.push(TimeRange { start: current, end: next });
        current = next;
        proof {
            assert(spans(out@[k], bucket_bounds(s, e, w)[k]));
        }
    }
    proof {
        let k = out@.len() as int;
        if s < e {
            lemma_count_threshold(e - s, w, k);
            assert(k * w >= 0) by (nonlinear_arith)
                requires k >= 0, w > 0;
        }
    }
    out
}

/// An empty range has no buckets.
pub proof fn lemma_empty_range_has_no_buckets(start: int, width: int)
    ensures
        bucket_bounds(start, start, width).len() == 0,
{
}

/// Over a non-empty range the buckets form a chain: the first starts at the
/// range's start, each is `width` long, each starts where the one before
/// ended, every one starts inside the range, and the last one ends at or
/// past the range's end, so no further bucket would start inside it.
pub proof fn lemma_buckets_chain(start: int, end: int, width: int)
    requires
        width > 0,
        end > start,
    ensures
        ({
            let b = bucket_bounds(start, end, width);
            &&& b.len() > 0
            &&& b[0].0 == start
            &&& forall|i: int| 0 <= i < b.len() ==> #[trigger] b[i].1 == b[i].0 + width
            &&& forall|i: int| 1 <= i < b.len() ==> #[trigger] b[i].0 == b[i - 1].1
            &&& forall|i: int| 0 <= i < b.len() ==> #[trigger] b[i].0 < end
            &&& b[b.len() - 1].1 >= end
        }),
{
    let b = bucket_bounds(start, end, width);
    let n = bucket_count(start, end, width) as int;
    vstd::arithmetic::div_mod::lemma_div_pos_is_pos(end - start - 1, width);
    assert(b.len() > 0);
    assert(b[0].0 == start);
    assert forall|i: int| 0 <= i < b.len() implies #[trigger] b[i].1 == b[i].0 + width by {
        assert((i + 1) * width == i * width + width) by (nonlinear_arith);
    }
    assert forall|i: int| 1 <= i < b.len() implies #[trigger] b[i].0 == b[i - 1].1 by {
        assert(((i - 1) + 1) * width == i * width) by (nonlinear_arith);
    }
    assert forall|i: int| 0 <= i < b.len() implies #[trigger] b[i].0 < end by {
        lemma_count_threshold(end - start, width, i);
    }
    lemma_count_threshold(end - start, width, n);
    assert(b[n - 1].1 == start + n * width);
}

} // verus!
