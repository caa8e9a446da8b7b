//! Segmented transfers: work-unit planning, durable coverage of completed
//! ranges, layout validation for resumption, dynamic splitting of active
//! ranges, speculative tail hedging decisions, and the retry backoff.
use vstd::prelude::*;
use crate::error::RavynError;
use crate::text::{dec, chars_of, decimal_string, push_decimal, chars_eq_ignore_ascii_case, eq_ignore_ascii_case};
use sha2::Digest;
use crate::planner::{max_usize, min_usize};

verus! {

/// Work units are never planned smaller than this.
pub const MIN_WORK_UNIT_BYTES: u64 = 8 * 1024 * 1024;
pub const WORK_UNITS_PER_WORKER: usize = 4;
pub const MAX_VERIFIED_PIECE_BYTES: u64 = 64 * 1024 * 1024;
/// An active range is split only while at least this many bytes remain.
pub const SPLIT_MIN_REMAINING_BYTES: u64 = 2 * MIN_WORK_UNIT_BYTES;
/// Hard ceiling for the bytes one speculative duplicate may buffer in memory.
pub const MAX_SPECULATIVE_BYTES: u64 = 64 * 1024 * 1024;
/// A speculative duplicate is not worth its connection below this remainder.
pub const HEDGE_MIN_REMAINING_BYTES: u64 = 1024 * 1024;

/// An inclusive byte range.
#[derive(Debug, Clone, Copy, PartialEq, Eq, Structural)]
pub struct SegmentPlan {
    pub start: u64,
    pub end: u64,
}

pub open spec fn div_ceil(a: nat, b: nat) -> nat {
    if b == 0 {
        0
    } else {
        ((a + b - 1) / b as int) as nat
    }
}

pub open spec fn plan_count(total: u64, requested: usize) -> nat {
    let r: nat = if requested >= 1 { requested as nat } else { 1 };
    let t: nat = if total >= 1 { total as nat } else { 1 };
    if r <= t { r } else { t }
}

pub open spec fn plan_size(total: u64, requested: usize) -> nat {
    div_ceil(total as nat, plan_count(total, requested))
}

/// The inputs on which planning stays within `u64` arithmetic.
pub open spec fn plan_fits(total: u64, requested: usize) -> bool {
    plan_count(total, requested) * plan_size(total, requested) <= u64::MAX
}

pub open spec fn plan_item(total: u64, size: nat, i: int) -> SegmentPlan {
    let start = i * size;
    let last = start + size - 1;
    SegmentPlan {
        start: start as u64,
        end: (if last <= total - 1 { last } else { total - 1 }) as u64,
    }
}

/// `min(requested, total)` (at least one) consecutive ranges of
/// `ceil(total / count)` bytes, the last one cut at the end of the object.
pub open spec fn plan_spec(total: u64, requested: usize) -> Seq<SegmentPlan> {
    let size = plan_size(total, requested);
    Seq::new(div_ceil(total as nat, size), |i: int| plan_item(total, size, i))
}

/// The ranges cover `[0, total)` exactly once, in order.
pub open spec fn tiles(items: Seq<SegmentPlan>, total: nat) -> bool {
    &&& items.len() > 0
    &&& items[0].start == 0
    &&& items.last().end + 1 == total
    &&& forall|i: int| 0 <= i < items.len() ==> (#[trigger] items[i]).start <= items[i].end
    &&& forall|i: int| 0 <= i < items.len() - 1 ==> #[trigger] items[i].end + 1 == items[i + 1].start
}

proof fn lemma_plan_arith(total: nat, count: nat, size: nat)
    requires
        total >= 1,
        count >= 1,
        count <= total,
        size == div_ceil(total, count),
    ensures
        size >= 1,
        count * size >= total,
        div_ceil(total, size) <= count,
        div_ceil(total, size) >= 1,
        (div_ceil(total, size) - 1) * size < total,
        div_ceil(total, size) * size >= total,
{
    let q = div_ceil(total, size);
    assert(size >= 1) by (nonlinear_arith)
        requires
            size == (total + count - 1) / count as int,
            count >= 1,
            count <= total,
    ;
    assert(count * size >= total) by (nonlinear_arith)
        requires
            size == (total + count - 1) / count as int,
            count >= 1,
    ;
    assert(q * size >= total && (q - 1) * size < total) by (nonlinear_arith)
        requires
            q == (total + size - 1) / size as int,
            size >= 1,
    ;
    assert(q <= count) by (nonlinear_arith)
        requires
            q * size >= total,
            (q - 1) * size < total,
            count * size >= total,
            size >= 1,
    ;
    assert(q >= 1) by (nonlinear_arith)
        requires
            q * size >= total,
            total >= 1,
    ;
}

/// `u64::div_ceil`.
pub fn div_ceil_u64(a: u64, b: u64) -> (q: u64)
    requires
        b > 0,
    ensures
        q == div_ceil(a as nat, b as nat),
{
    let q = a / b;
    let r = a % b;
    proof {
        assert(div_ceil(a as nat, b as nat) == q + if r != 0 { 1int } else { 0 }) by (nonlinear_arith)
            requires
                q == a as int / b as int,
                r == a as int % b as int,
                b > 0,
        ;
        assert(q + 1 <= u64::MAX || r == 0) by (nonlinear_arith)
            requires
                q == a as int / b as int,
                r == a as int % b as int,
                b > 0,
                a <= u64::MAX,
        ;
    }
    if r != 0 {
        q + 1
    } else {
        q
    }
}

/// Divides `[0, total)` into at most `requested` (at least one) equal
/// ranges, the last one possibly shorter.
pub fn plan(total: u64, requested: usize) -> (items: Vec<SegmentPlan>)
    requires
        plan_fits(total, requested),
    ensures
        items@ == plan_spec(total, requested),
        total == 0 ==> items@.len() == 0,
{
    if total == 0 {
        let none: Vec<SegmentPlan> = Vec::new();
        proof {
            assert(none@ =~= plan_spec(total, requested));
        }
        return none;
    }
    let r = requested.max(1);
    // `min(r, max(total, 1))`, computed without narrowing `total`.
    let count: usize = if (r as u64) <= total.max(1) {
        r
    } else {
        total.max(1) as usize
    };
    let size: u64 = div_ceil_u64(total, count as u64);
    let ghost sz = plan_size(total, requested);
    proof {
        assert(count as nat == plan_count(total, requested));
        assert(size as nat == sz);
        lemma_plan_arith(total as nat, count as nat, sz);
    }
    let ghost n = div_ceil(total as nat, sz);
    let mut items: Vec<SegmentPlan> = Vec::new();
    let mut index: usize = 0;
    while index < count
        invariant
            index <= count,
            count as nat == plan_count(total, requested),
            size as nat == sz,
            sz == plan_size(total, requested),
            n == div_ceil(total as nat, sz),
            total >= 1,
            sz >= 1,
            count * sz <= u64::MAX,
            n <= count,
            (n - 1) * sz < total,
            n * sz >= total,
            items@.len() == if index <= n { index as nat } else { n },
            forall|i: int| 0 <= i < items@.len() ==> #[trigger] items@[i] == plan_item(total, sz, i),
        decreases count - index,
    {
        proof {
            assert((index as int) * sz + sz <= u64::MAX) by (nonlinear_arith)
                requires
                    index < count,
                    count * sz <= u64::MAX,
                    sz >= 1,
            ;
        }
        let start = index as u64 * size;
        let last = start + size - 1;
        if start < total {
            let end = if last <= total - 1 {
                last
            } else {
                total - 1
            };
            proof {
                assert(index < n) by (nonlinear_arith)
                    requires
                        (index as int) * sz < total,
                        n * sz >= total,
                        sz >= 1,
                ;
            }
            items.push(SegmentPlan { start, end });
        } else {
            proof {
                if index < n {
                    assert((index as int) * sz <= (n - 1) * sz) by (nonlinear_arith)
                        requires
                            index <= n - 1,
                            sz >= 1,
                    ;
                }
            }
        }
        index = index + 1;
    }
    proof {
        assert(items@ =~= plan_spec(total, requested));
    }
    items
}

/// A plan covers the object exactly once, in order.
pub proof fn lemma_plan_tiles(total: u64, requested: usize)
    requires
        total >= 1,
        plan_fits(total, requested),
    ensures
        tiles(plan_spec(total, requested), total as nat),
        1 <= plan_spec(total, requested).len() <= plan_count(total, requested),
{
    let count = plan_count(total, requested);
    let sz = plan_size(total, requested);
    lemma_plan_arith(total as nat, count, sz);
    let items = plan_spec(total, requested);
    let n = items.len();
    assert(items[0].start == 0);
    let lastx = items[n - 1];
    assert((n - 1) * sz + sz - 1 >= total - 1) by (nonlinear_arith)
        requires
            n * sz >= total,
    ;
    assert(lastx.end == total - 1);
    assert forall|i: int| 0 <= i < n implies (#[trigger] items[i]).start <= items[i].end by {
        assert(i * sz <= (n - 1) * sz) by (nonlinear_arith)
            requires
                0 <= i <= n - 1,
                sz >= 1,
        ;
    }
    assert forall|i: int| 0 <= i < n - 1 implies #[trigger] items[i].end + 1 == items[i + 1].start by {
        assert(i * sz + sz == (i + 1) * sz) by (nonlinear_arith);
        assert((i + 1) * sz <= (n - 1) * sz) by (nonlinear_arith)
            requires
                0 <= i < n - 1,
                sz >= 1,
        ;
    }
}

pub open spec fn work_unit_request(total: u64, workers: usize) -> usize {
    let w: int = if workers >= 1 { workers as int } else { 1 };
    let maximum: int = if w * 4 <= usize::MAX { w * 4 } else { usize::MAX as int };
    let useful0 = div_ceil(total as nat, MIN_WORK_UNIT_BYTES as nat);
    let useful1: int = if useful0 >= 1 { useful0 as int } else { 1 };
    let useful: int = if useful1 <= usize::MAX { useful1 } else { usize::MAX as int };
    let a = if maximum <= useful { maximum } else { useful };
    let b = if w <= useful { w } else { useful };
    (if a >= b { a } else { b }) as usize
}

/// Produces more durable work units than active workers (up to four per
/// worker, none smaller than the minimum unit size), so that workers pull
/// the next incomplete unit from a shared queue and one slow tail segment
/// does not decide the completion time of the whole download.
pub fn plan_work_units(total: u64, workers: usize) -> (items: Vec<SegmentPlan>)
    requires
        plan_fits(total, work_unit_request(total, workers)),
    ensures
        items@ == plan_spec(total, work_unit_request(total, workers)),
        total == 0 ==> items@.len() == 0,
{
    let workers = workers.max(1);
    let maximum_units: usize = if workers > usize::MAX / WORK_UNITS_PER_WORKER {
        usize::MAX
    } else {
        workers * WORK_UNITS_PER_WORKER
    };
    let useful64 = div_ceil_u64(total, MIN_WORK_UNIT_BYTES).max(1);
    let useful_units: usize = if useful64 <= usize::MAX as u64 {
        useful64 as usize
    } else {
        usize::MAX
    };
    plan(total, maximum_units.min(useful_units).max(workers.min(useful_units)))
}

/// The text of a `Content-Range` header for `[start, end]` of `total` bytes.
pub open spec fn content_range_text(start: u64, end: u64, total: u64) -> Seq<char> {
    "bytes "@ + dec(start as nat) + "-"@ + dec(end as nat) + "/"@ + dec(total as nat)
}

fn content_range_string(start: u64, end: u64, total: u64) -> (s: String)
    ensures
        s@ == content_range_text(start, end, total),
{
    let mut s = String::from_str("bytes ");
    let a = decimal_string(start);
    s.append(a.as_str());
    s.append("-");
    let b = decimal_string(end);
    s.append(b.as_str());
    s.append("/");
    let c = decimal_string(total);
    s.append(c.as_str());
    s
}

/// Accepts a ranged response only when its `Content-Range` is exactly
/// `bytes start-end/total`.
pub fn validate_content_range(value: Option<&str>, start: u64, end: u64, total: u64) -> (r: Result<(), RavynError>)
    ensures
        match value {
            None => r matches Err(RavynError::Protocol(m)) && m@ == "missing Content-Range"@,
            Some(v) => if v@ == content_range_text(start, end, total) {
                r is Ok
            } else {
                r matches Err(RavynError::Protocol(m)) && m@ == "unexpected Content-Range: "@ + v@
                    + "; expected "@ + content_range_text(start, end, total)
            },
        },
{
    let value = match value {
        Some(v) => v,
        None => return Err(RavynError::Protocol(String::from_str("missing Content-Range"))),
    };
    let expected = content_range_string(start, end, total);
    let given = String::from_str(value);
    if given != expected {
        let mut m = String::from_str("unexpected Content-Range: ");
        m.append(value);
        m.append("; expected ");
        m.append(expected.as_str());
        return Err(RavynError::Protocol(m));
    }
    Ok(())
}


// ---------------------------------------------------------------------------
// Durable coverage
// ---------------------------------------------------------------------------

pub open spec fn within(lo: int, x: int, hi: int) -> bool {
    lo <= x <= hi
}

pub open spec fn in_ranges(ranges: Seq<(u64, u64)>, x: int) -> bool {
    exists|i: int| 0 <= i < ranges.len() && (#[trigger] ranges[i]).0 <= x <= ranges[i].1
}

/// Sorted, non-empty, and separated by at least one uncovered byte: the
/// unique decomposition of a set of bytes into maximal ranges.
pub open spec fn canonical(ranges: Seq<(u64, u64)>) -> bool {
    &&& forall|i: int| 0 <= i < ranges.len() ==> (#[trigger] ranges[i]).0 <= ranges[i].1
    &&& forall|i: int, j: int| 0 <= i < j < ranges.len() ==> ranges[i].1 + 1 < ranges[j].0
}

/// Byte ranges that have reached durable completion. The incremental
/// whole-file hasher consumes the contiguous prefix as it grows.
pub struct DurableCoverage {
    ranges: Vec<(u64, u64)>,
}

impl DurableCoverage {
    pub closed spec fn spec_ranges(&self) -> Seq<(u64, u64)> {
        self.ranges@
    }

    /// Whether byte `x` lies in a completed range.
    pub open spec fn covers(&self, x: int) -> bool {
        in_ranges(self.spec_ranges(), x)
    }

    #[verifier::type_invariant]
    spec fn well_formed(&self) -> bool {
        canonical(self.ranges@)
    }

    pub fn new() -> (c: Self)
        ensures
            forall|x: int| !c.covers(x),
            c.spec_ranges().len() == 0,
    {
        DurableCoverage { ranges: Vec::new() }
    }

    /// Records `[start, end]` as durable, merging it with overlapping and
    /// adjacent ranges.
    pub fn mark(&mut self, start: u64, end: u64)
        requires
            start <= end,
        ensures
            forall|x: int| #[trigger] final(self).covers(x) <==> (old(self).covers(x) || start <= x <= end),
            canonical(final(self).spec_ranges()),
    {
        proof {
            use_type_invariant(&*self);
        }
        let ghost old_ranges = self.ranges@;
        let n = self.ranges.len();
        let mut out: Vec<(u64, u64)> = Vec::new();
        let mut i: usize = 0;
        // Ranges that end more than one byte before `start` stay as they are.
        while i < n && (self.ranges[i].1 < start && start - self.ranges[i].1 > 1)
            invariant
                n == old_ranges.len(),
                self.ranges@ == old_ranges,
                canonical(old_ranges),
                i <= n,
                out@ == old_ranges.subrange(0, i as int),
                forall|k: int| 0 <= k < i ==> old_ranges[k].1 + 1 < start,
            decreases n - i,
        {
            out.push(self.ranges[i]);
            proof {
                assert(old_ranges.subrange(0, i as int + 1) =~= old_ranges.subrange(0, i as int).push(old_ranges[i as int]));
            }
            i = i + 1;
        }
        let first_merged = i;
        let mut lo = start;
        let mut hi = end;
        // Ranges that overlap or touch the growing `[lo, hi]` are absorbed.
        while i < n && (self.ranges[i].0 <= hi || self.ranges[i].0 - hi == 1)
            invariant
                n == old_ranges.len(),
                self.ranges@ == old_ranges,
                canonical(old_ranges),
                first_merged <= i <= n,
                lo <= start <= end <= hi,
                lo as int <= hi as int,
                forall|k: int| 0 <= k < first_merged ==> old_ranges[k].1 + 1 < start,
                first_merged < n ==> !(old_ranges[first_merged as int].1 + 1 < start),
                first_merged == n || i > first_merged ==> true,
                i > first_merged ==> lo as int == if old_ranges[first_merged as int].0 < start {
                    old_ranges[first_merged as int].0 as int
                } else {
                    start as int
                },
                i == first_merged ==> lo == start,
                forall|x: int| #[trigger] within(lo as int, x, hi as int) <==> ((start <= x <= end) || exists|k: int|
                    first_merged <= k < i && #[trigger] old_ranges[k].0 <= x <= old_ranges[k].1),
                i > first_merged ==> hi as int >= old_ranges[i - 1].1,
            decreases n - i,
        {
            let r = self.ranges[i];
            let ghost nlo: int = if r.0 < lo { r.0 as int } else { lo as int };
            let ghost nhi: int = if r.1 > hi { r.1 as int } else { hi as int };
            proof {
                assert forall|x: int|
                    #[trigger] within(nlo, x, nhi) <==> ((start
                        <= x <= end) || exists|k: int|
                        first_merged <= k < i + 1 && #[trigger] old_ranges[k].0 <= x <= old_ranges[k].1) by {
                    if within(nlo, x, nhi) {
                        if !within(lo as int, x, hi as int) && !(r.0 <= x <= r.1) {
                            // x lies strictly between two touching intervals: impossible.
                            assert(false);
                        }
                        if r.0 <= x <= r.1 {
                            assert(old_ranges[i as int].0 <= x <= old_ranges[i as int].1);
                        }
                    }
                    if exists|k: int| first_merged <= k < i + 1 && #[trigger] old_ranges[k].0 <= x <= old_ranges[k].1 {
                        let k = choose|k: int| first_merged <= k < i + 1 && #[trigger] old_ranges[k].0 <= x <= old_ranges[k].1;
                        if k < i {
                            assert(within(lo as int, x, hi as int));
                        }
                    }
                }
            }
            if r.0 < lo {
                lo = r.0;
            }
            if r.1 > hi {
                hi = r.1;
            }
            i = i + 1;
        }
        let merged_end = i;
        proof {
            assert forall|k: int| 0 <= k < first_merged implies #[trigger] out@[k] == old_ranges[k] by {
                assert(old_ranges.subrange(0, first_merged as int)[k] == old_ranges[k]);
            }
        }
        out.push((lo, hi));
        let ghost prefix_len = out@.len();
        while i < n
            invariant
                n == old_ranges.len(),
                self.ranges@ == old_ranges,
                canonical(old_ranges),
                first_merged <= merged_end <= i <= n,
                lo <= start <= end <= hi,
                prefix_len == first_merged + 1,
                out@.len() == prefix_len + (i - merged_end),
                forall|k: int| 0 <= k < first_merged ==> #[trigger] out@[k] == old_ranges[k],
                out@[first_merged as int] == (lo, hi),
                forall|j: int| prefix_len <= j < out@.len() ==> #[trigger] out@[j] == old_ranges[j - prefix_len + merged_end],
                forall|k: int| 0 <= k < first_merged ==> old_ranges[k].1 + 1 < start,
                first_merged < n ==> !(old_ranges[first_merged as int].1 + 1 < start),
                merged_end > first_merged ==> lo as int == if old_ranges[first_merged as int].0 < start {
                    old_ranges[first_merged as int].0 as int
                } else {
                    start as int
                },
                merged_end == first_merged ==> lo == start,
                forall|x: int| #[trigger] within(lo as int, x, hi as int) <==> ((start <= x <= end) || exists|k: int|
                    first_merged <= k < merged_end && #[trigger] old_ranges[k].0 <= x <= old_ranges[k].1),
                merged_end > first_merged ==> hi as int >= old_ranges[merged_end - 1].1,
                merged_end < n ==> !(old_ranges[merged_end as int].0 <= hi || old_ranges[merged_end as int].0 - hi == 1),
            decreases n - i,
        {
            out.push(self.ranges[i]);
            i = i + 1;
        }
        proof {
            let o = out@;
            assert forall|k: int| 0 <= k < o.len() implies (#[trigger] o[k]).0 <= o[k].1 by {
                if k > first_merged {
                    assert(o[k] == old_ranges[k - first_merged - 1 + merged_end]);
                }
            }
            assert forall|a: int, b: int| 0 <= a < b < o.len() implies o[a].1 + 1 < o[b].0 by {
                if b < first_merged {
                } else if b == first_merged {
                    // every earlier range ends more than one byte before start, and lo is start or a later range start
                    if merged_end > first_merged {
                        assert(old_ranges[a].1 + 1 < old_ranges[first_merged as int].0 || a >= first_merged);
                    }
                } else {
                    let bb = b - first_merged - 1 + merged_end;
                    assert(o[b] == old_ranges[bb]);
                    if a < first_merged {
                        if merged_end > first_merged {
                            assert(old_ranges[a].1 + 1 < old_ranges[bb].0);
                        } else {
                            assert(old_ranges[a].1 + 1 < old_ranges[bb].0);
                        }
                    } else if a == first_merged {
                        if bb > merged_end {
                            assert(old_ranges[merged_end as int].1 + 1 < old_ranges[bb].0);
                        }
                    } else {
                        let aa = a - first_merged - 1 + merged_end;
                        assert(o[a] == old_ranges[aa]);
                    }
                }
            }
            assert forall|x: int| in_ranges(o, x) <==> (in_ranges(old_ranges, x) || start <= x <= end) by {
                if in_ranges(o, x) {
                    let k = choose|k: int| 0 <= k < o.len() && (#[trigger] o[k]).0 <= x <= o[k].1;
                    if k < first_merged {
                        assert(old_ranges[k].0 <= x <= old_ranges[k].1);
                    } else if k == first_merged {
                        assert(within(lo as int, x, hi as int));
                        if !(start <= x <= end) {
                            let kk = choose|kk: int| first_merged <= kk < merged_end && #[trigger] old_ranges[kk].0 <= x <= old_ranges[kk].1;
                            assert(old_ranges[kk].0 <= x <= old_ranges[kk].1);
                        }
                    } else {
                        let kk = k - first_merged - 1 + merged_end;
                        assert(o[k] == old_ranges[kk]);
                    }
                }
                if start <= x <= end {
                    assert(within(lo as int, x, hi as int));
                    assert(o[first_merged as int].0 <= x <= o[first_merged as int].1);
                }
                if in_ranges(old_ranges, x) {
                    let k = choose|k: int| 0 <= k < old_ranges.len() && (#[trigger] old_ranges[k]).0 <= x <= old_ranges[k].1;
                    if k < first_merged {
                        assert(o[k].0 <= x <= o[k].1);
                    } else if k < merged_end {
                        assert(within(lo as int, x, hi as int));
                        assert(o[first_merged as int].0 <= x <= o[first_merged as int].1);
                    } else {
                        let kk = prefix_len + k - merged_end;
                        assert(o[kk] == old_ranges[k]);
                        assert(o[kk].0 <= x <= o[kk].1);
                    }
                }
            }
        }
        self.ranges = out;
    }

    /// Exclusive end of the durable range that starts at byte zero.
    pub fn contiguous_prefix_end(&self) -> (p: u64)
        ensures
            forall|x: int| 0 <= x < p ==> self.covers(x),
            p < u64::MAX ==> !self.covers(p as int),
    {
        proof {
            use_type_invariant(self);
        }
        if self.ranges.len() > 0 && self.ranges[0].0 == 0 {
            let e = self.ranges[0].1;
            let p = if e == u64::MAX {
                e
            } else {
                e + 1
            };
            proof {
                assert forall|x: int| 0 <= x < p implies self.covers(x) by {
                    assert(self.ranges@[0].0 <= x <= self.ranges@[0].1);
                }
                if p < u64::MAX && self.covers(p as int) {
                    let k = choose|k: int| 0 <= k < self.ranges@.len() && (#[trigger] self.ranges@[k]).0 <= p <= self.ranges@[k].1;
                    if k > 0 {
                        assert(self.ranges@[0].1 + 1 < self.ranges@[k].0);
                    }
                }
            }
            p
        } else {
            proof {
                if self.covers(0) {
                    let k = choose|k: int| 0 <= k < self.ranges@.len() && (#[trigger] self.ranges@[k]).0 <= 0 <= self.ranges@[k].1;
                    if k > 0 {
                        assert(self.ranges@[0].0 <= self.ranges@[0].1);
                        assert(self.ranges@[0].1 + 1 < self.ranges@[k].0);
                    }
                }
            }
            0
        }
    }

    /// Number of maximal completed ranges.
    pub fn range_count(&self) -> (n: usize)
        ensures
            n == self.spec_ranges().len(),
    {
        self.ranges.len()
    }
}


// ---------------------------------------------------------------------------
// Persisted layouts
// ---------------------------------------------------------------------------

/// One persisted work unit.
#[derive(Debug, Clone, Copy, PartialEq, Eq, Structural)]
pub struct SegmentRecord {
    pub index: usize,
    pub start: u64,
    pub end: u64,
    pub downloaded: u64,
    pub completed: bool,
}

/// A record lies inside `[0, total)`, its progress does not exceed its length,
/// and it is flagged complete only with all of its bytes. (Full progress
/// without the flag is accepted: a crash may persist it before the flag.)
pub open spec fn record_valid(r: SegmentRecord, total: u64) -> bool {
    &&& r.start <= r.end < total
    &&& r.downloaded <= r.end - r.start + 1
    &&& !(r.completed && r.downloaded != r.end - r.start + 1)
}

pub open spec fn records_disjoint(rs: Seq<SegmentRecord>) -> bool {
    forall|i: int, j: int|
        0 <= i < rs.len() && 0 <= j < rs.len() && i != j ==> (#[trigger] rs[i]).end < (#[trigger] rs[j]).start
            || rs[j].end < rs[i].start
}

pub open spec fn records_length(rs: Seq<SegmentRecord>, k: int) -> nat
    decreases k,
{
    if k <= 0 {
        0
    } else {
        records_length(rs, k - 1) + (rs[k - 1].end - rs[k - 1].start + 1) as nat
    }
}

/// The records tile `[0, total)` exactly: every record is valid, no two
/// overlap, and together they hold exactly `total` bytes.
pub open spec fn layout_tiles(rs: Seq<SegmentRecord>, total: u64) -> bool {
    &&& forall|i: int| 0 <= i < rs.len() ==> record_valid(#[trigger] rs[i], total)
    &&& records_disjoint(rs)
    &&& records_length(rs, rs.len() as int) == total
}

proof fn lemma_records_length_bound(rs: Seq<SegmentRecord>, k: int, total: u64)
    requires
        0 <= k <= rs.len(),
        forall|t: int| 0 <= t < rs.len() ==> record_valid(#[trigger] rs[t], total),
    ensures
        records_length(rs, k) <= k * (u64::MAX as int),
    decreases k,
{
    if k > 0 {
        lemma_records_length_bound(rs, k - 1, total);
        assert(record_valid(rs[k - 1], total));
    }
}

/// Accepts any exact tiling of the object so that ranges split at runtime
/// resume without losing progress.
pub fn layout_tiles_exactly(records: &[SegmentRecord], total: u64) -> (ok: bool)
    ensures
        ok == layout_tiles(records@, total),
{
    let n = records.len();
    let mut i: usize = 0;
    while i < n
        invariant
            n == records@.len(),
            i <= n,
            forall|k: int| 0 <= k < i ==> record_valid(#[trigger] records@[k], total),
        decreases n - i,
    {
        let r = records[i];
        if r.end < r.start || r.end >= total {
            return false;
        }
        let length = r.end - r.start + 1;
        if r.downloaded > length || (r.completed && r.downloaded != length) {
            return false;
        }
        i = i + 1;
    }
    let mut a: usize = 0;
    while a < n
        invariant
            n == records@.len(),
            a <= n,
            forall|x: int, y: int|
                0 <= x < a && 0 <= y < n && x != y ==> (#[trigger] records@[x]).end < (#[trigger] records@[y]).start
                    || records@[y].end < records@[x].start,
        decreases n - a,
    {
        let mut b: usize = 0;
        while b < n
            invariant
                n == records@.len(),
                a < n,
                b <= n,
                forall|x: int, y: int|
                    0 <= x < a && 0 <= y < n && x != y ==> (#[trigger] records@[x]).end < (#[trigger] records@[y]).start
                        || records@[y].end < records@[x].start,
                forall|y: int|
                    0 <= y < b && a != y ==> records@[a as int].end < (#[trigger] records@[y]).start
                        || records@[y].end < records@[a as int].start,
            decreases n - b,
        {
            if a != b && !(records[a].end < records[b].start || records[b].end < records[a].start) {
                return false;
            }
            b = b + 1;
        }
        a = a + 1;
    }
    let mut sum: u128 = 0;
    let mut k: usize = 0;
    while k < n
        invariant
            n == records@.len(),
            k <= n,
            forall|t: int| 0 <= t < n ==> record_valid(#[trigger] records@[t], total),
            sum == records_length(records@, k as int),
        decreases n - k,
    {
        proof {
            lemma_records_length_bound(records@, k as int + 1, total);
            assert((k as int + 1) * (u64::MAX as int) < 0x1_0000_0000_0000_0000_0000_0000_0000_0000int) by (nonlinear_arith)
                requires k < 0x1_0000_0000_0000_0000int;
            assert(records@[k as int].start <= records@[k as int].end);
        }
        sum = sum + (records[k].end - records[k].start) as u128 + 1;
        k = k + 1;
    }
    sum == total as u128
}

/// The strict check for piece-verified layouts: the persisted records match
/// the expected plan position by position, with consistent progress.
pub open spec fn layout_matches_plan(existing: Seq<SegmentRecord>, expected: Seq<SegmentPlan>) -> bool {
    &&& existing.len() == expected.len()
    &&& forall|i: int|
        0 <= i < existing.len() ==> {
            let a = #[trigger] existing[i];
            let b = expected[i];
            let length = b.end - b.start + 1;
            &&& a.start == b.start
            &&& a.end == b.end
            &&& a.downloaded <= length
            &&& a.completed == (a.downloaded == length)
        }
}

/// Whether persisted progress can be resumed: the partial file has the
/// object's length, some records exist, and they match the plan (strict,
/// piece-verified layouts) or tile the object exactly.
pub open spec fn spec_layout_is_resumable(
    physical_len: Option<u64>,
    total: u64,
    existing: Seq<SegmentRecord>,
    expected: Seq<SegmentPlan>,
    strict: bool,
) -> bool {
    physical_len == Some(total) && existing.len() > 0 && if strict {
        layout_matches_plan(existing, expected)
    } else {
        layout_tiles(existing, total)
    }
}

pub fn layout_is_resumable(
    physical_len: Option<u64>,
    total: u64,
    existing: &[SegmentRecord],
    expected: &[SegmentPlan],
    strict: bool,
) -> (ok: bool)
    requires
        forall|i: int| 0 <= i < expected@.len() ==> (#[trigger] expected@[i]).start <= expected@[i].end,
    ensures
        ok == spec_layout_is_resumable(physical_len, total, existing@, expected@, strict),
{
    let len_matches = match physical_len {
        Some(l) => l == total,
        None => false,
    };
    if !len_matches || existing.len() == 0 {
        return false;
    }
    if !strict {
        return layout_tiles_exactly(existing, total);
    }
    if existing.len() != expected.len() {
        return false;
    }
    let mut i: usize = 0;
    while i < existing.len()
        invariant
            existing@.len() == expected@.len(),
            strict,
            physical_len == Some(total),
            existing@.len() > 0,
            i <= existing@.len(),
            forall|k: int| 0 <= k < expected@.len() ==> (#[trigger] expected@[k]).start <= expected@[k].end,
            forall|k: int|
                0 <= k < i ==> {
                    let a = #[trigger] existing@[k];
                    let b = expected@[k];
                    let length = b.end - b.start + 1;
                    &&& a.start == b.start
                    &&& a.end == b.end
                    &&& a.downloaded <= length
                    &&& a.completed == (a.downloaded == length)
                },
        decreases existing@.len() - i,
    {
        let a = existing[i];
        let b = expected[i];
        let length: u128 = (b.end - b.start) as u128 + 1;
        if !(a.start == b.start && a.end == b.end && (a.downloaded as u128) <= length && a.completed
            == ((a.downloaded as u128) == length)) {
            proof {
                assert(existing@[i as int] == a);
                assert(!layout_matches_plan(existing@, expected@));
            }
            return false;
        }
        i = i + 1;
    }
    true
}

/// The records written for a fresh layout: one incomplete record per planned range.
pub fn fresh_records(expected: &[SegmentPlan]) -> (records: Vec<SegmentRecord>)
    ensures
        records@.len() == expected@.len(),
        forall|i: int|
            0 <= i < records@.len() ==> #[trigger] records@[i] == (SegmentRecord {
                index: i as usize,
                start: expected@[i].start,
                end: expected@[i].end,
                downloaded: 0,
                completed: false,
            }),
{
    let mut records: Vec<SegmentRecord> = Vec::new();
    let mut i: usize = 0;
    while i < expected.len()
        invariant
            i <= expected@.len(),
            records@.len() == i,
            forall|k: int|
                0 <= k < i ==> #[trigger] records@[k] == (SegmentRecord {
                    index: k as usize,
                    start: expected@[k].start,
                    end: expected@[k].end,
                    downloaded: 0,
                    completed: false,
                }),
        decreases expected@.len() - i,
    {
        records.push(SegmentRecord {
            index: i,
            start: expected[i].start,
            end: expected[i].end,
            downloaded: 0,
            completed: false,
        });
        i = i + 1;
    }
    records
}


// ---------------------------------------------------------------------------
// Verified piece layouts
// ---------------------------------------------------------------------------

/// Ranges of `length` bytes covering `[0, total)`, the last one cut at the end.
pub open spec fn piece_plan(total: u64, length: u64) -> Seq<SegmentPlan> {
    Seq::new(div_ceil(total as nat, length as nat), |i: int| plan_item(total, length as nat, i))
}

/// The inputs on which the piece layout stays within `u64` arithmetic.
pub open spec fn piece_layout_fits(total: u64, length: u64) -> bool {
    length == 0 || length > MAX_VERIFIED_PIECE_BYTES || div_ceil(total as nat, length as nat) * length <= u64::MAX
}

/// Checks a piece-checksum layout against the object and returns its ranges.
pub fn piece_layout(total: u64, length: u64, hash_count: usize) -> (r: Result<Vec<SegmentPlan>, RavynError>)
    requires
        piece_layout_fits(total, length),
    ensures
        (length == 0 || length > MAX_VERIFIED_PIECE_BYTES) ==> (r matches Err(RavynError::Invalid(m))
            && m@ == "verified piece length must be between 1 and "@ + dec(MAX_VERIFIED_PIECE_BYTES as nat) + " bytes"@),
        !(length == 0 || length > MAX_VERIFIED_PIECE_BYTES) && div_ceil(total as nat, length as nat) > usize::MAX
            ==> (r matches Err(RavynError::Invalid(m)) && m@ == "piece count exceeds platform limits"@),
        !(length == 0 || length > MAX_VERIFIED_PIECE_BYTES) && div_ceil(total as nat, length as nat) <= usize::MAX
            && div_ceil(total as nat, length as nat) != hash_count
            ==> (r matches Err(RavynError::Invalid(m)) && m@ == "piece checksum layout does not cover the object exactly"@),
        !(length == 0 || length > MAX_VERIFIED_PIECE_BYTES) && div_ceil(total as nat, length as nat) <= usize::MAX
            && div_ceil(total as nat, length as nat) == hash_count
            ==> (r matches Ok(items) && items@ == piece_plan(total, length)),
{
    if length == 0 || length > MAX_VERIFIED_PIECE_BYTES {
        let mut m = String::from_str("verified piece length must be between 1 and ");
        let n = decimal_string(MAX_VERIFIED_PIECE_BYTES);
        m.append(n.as_str());
        m.append(" bytes");
        return Err(RavynError::Invalid(m));
    }
    let count64 = div_ceil_u64(total, length);
    if count64 > usize::MAX as u64 {
        return Err(RavynError::Invalid(String::from_str("piece count exceeds platform limits")));
    }
    let count = count64 as usize;
    let ghost n = div_ceil(total as nat, length as nat);
    let mut items: Vec<SegmentPlan> = Vec::new();
    let mut index: usize = 0;
    while index < count
        invariant
            count as nat == n,
            n == div_ceil(total as nat, length as nat),
            n * length <= u64::MAX,
            1 <= length,
            index <= count,
            items@.len() == index,
            forall|i: int| 0 <= i < index ==> #[trigger] items@[i] == plan_item(total, length as nat, i),
            index > 0 ==> total >= 1,
        decreases count - index,
    {
        proof {
            assert((index as int) * length + length <= u64::MAX) by (nonlinear_arith)
                requires
                    index < n,
                    n * length <= u64::MAX,
            ;
            assert(total >= 1) by (nonlinear_arith)
                requires
                    index < n,
                    n == (total + length - 1) / length as int,
                    length >= 1,
            ;
        }
        let start = index as u64 * length;
        let last = start + length - 1;
        let end = if last <= total - 1 {
            last
        } else {
            total - 1
        };
        items.push(SegmentPlan { start, end });
        index = index + 1;
    }
    // Every range starts where its index says; kept as the layout's own check.
    let mut misplaced = false;
    let mut k: usize = 0;
    while k < items.len()
        invariant
            k <= items@.len(),
            forall|i: int| 0 <= i < items@.len() ==> #[trigger] items@[i] == plan_item(total, length as nat, i),
            items@.len() * length <= u64::MAX,
            !misplaced,
        decreases items@.len() - k,
    {
        proof {
            assert((k as int) * length <= u64::MAX) by (nonlinear_arith)
                requires
                    k < items@.len(),
                    items@.len() * length <= u64::MAX,
            ;
        }
        if items[k].start != k as u64 * length {
            misplaced = true;
            break;
        }
        k = k + 1;
    }
    if items.len() != hash_count || misplaced {
        return Err(RavynError::Invalid(String::from_str("piece checksum layout does not cover the object exactly")));
    }
    proof {
        assert(items@ =~= piece_plan(total, length));
    }
    Ok(items)
}

// ---------------------------------------------------------------------------
// Live work units: completion, splitting and hedging decisions
// ---------------------------------------------------------------------------

/// Progress of a unit after the completion check: bytes that raced past a
/// split boundary are clamped off (and taken back from the transfer's
/// progress), and the unit is complete once its whole range is written.
pub struct Completion {
    pub downloaded: u64,
    pub excess: u64,
    pub complete: bool,
}

pub fn completion_step(start: u64, end: u64, downloaded: u64) -> (c: Completion)
    requires
        start <= end,
    ensures
        ({
            let expected = end - start + 1;
            &&& downloaded > expected ==> c.downloaded == expected && c.excess == downloaded - expected
            &&& downloaded <= expected ==> c.downloaded == downloaded && c.excess == 0
            &&& c.complete == (c.downloaded == expected)
        }),
{
    let expected: u128 = (end - start) as u128 + 1;
    if (downloaded as u128) > expected {
        Completion { downloaded: expected as u64, excess: downloaded - expected as u64, complete: true }
    } else {
        Completion { downloaded, excess: 0, complete: (downloaded as u128) == expected }
    }
}

/// How many bytes of an incoming chunk may be written: never past the unit's
/// current (possibly shrunk) boundary.
pub fn write_allowance(unit_start: u64, dynamic_end: u64, downloaded: u64, chunk_len: u64) -> (n: u64)
    requires
        unit_start <= dynamic_end,
        dynamic_end - unit_start + 1 <= u64::MAX,
    ensures
        ({
            let limit = dynamic_end - unit_start + 1;
            let allowed = if limit >= downloaded { limit - downloaded } else { 0 };
            n == if chunk_len <= allowed { chunk_len as int } else { allowed }
        }),
{
    let limit = dynamic_end - unit_start + 1;
    let allowed = if limit >= downloaded {
        limit - downloaded
    } else {
        0
    };
    if chunk_len <= allowed {
        chunk_len
    } else {
        allowed
    }
}

/// Where an active unit is split: half of its un-downloaded tail becomes a
/// new unit, when at least two minimum-sized units' worth of bytes remain.
pub open spec fn spec_split_point(start: u64, position: u64, end: u64) -> Option<u64> {
    let p = if position >= start { position } else { start };
    if p > end {
        None
    } else {
        let remaining = end - p + 1;
        if remaining < SPLIT_MIN_REMAINING_BYTES {
            None
        } else {
            Some((p + remaining / 2) as u64)
        }
    }
}

pub fn split_point(start: u64, position: u64, end: u64) -> (r: Option<u64>)
    ensures
        r == spec_split_point(start, position, end),
        // A split keeps both halves non-empty and at least one minimum unit long:
        // the owner keeps [start, r - 1], the new unit takes [r, end].
        r matches Some(ns) ==> start < ns <= end && ns - (if position >= start { position } else { start })
            >= MIN_WORK_UNIT_BYTES && end - ns + 1 >= MIN_WORK_UNIT_BYTES,
{
    let p = if position >= start {
        position
    } else {
        start
    };
    if p > end {
        return None;
    }
    let remaining: u128 = (end - p) as u128 + 1;
    if remaining < SPLIT_MIN_REMAINING_BYTES as u128 {
        return None;
    }
    let ns = (p as u128 + remaining / 2) as u64;
    Some(ns)
}

/// A split happens exactly when at least `SPLIT_MIN_REMAINING_BYTES` are
/// left from the resume point `p = max(position, start)` to `end`, and it
/// halves that tail: the owner keeps `[p, ns)`, the new unit takes
/// `[ns, end]`, and the two differ in length by at most one byte (the new
/// unit taking the odd one).
pub proof fn lemma_split_halves_the_tail(start: u64, position: u64, end: u64)
    ensures
        ({
            let p: int = if position >= start { position as int } else { start as int };
            &&& spec_split_point(start, position, end) is Some <==> (p <= end && end - p + 1
                >= SPLIT_MIN_REMAINING_BYTES)
            &&& spec_split_point(start, position, end) matches Some(ns) ==> {
                let kept = ns - p;
                let taken = end - ns + 1;
                &&& kept <= taken <= kept + 1
                &&& kept + taken == end - p + 1
            }
        }),
{
}

/// A live work unit as an idle worker observes it.
#[derive(Debug, Clone, Copy)]
pub struct UnitSnapshot {
    pub start: u64,
    pub dynamic_end: u64,
    pub position: u64,
    pub synced: u64,
    pub done: bool,
    pub hedged: bool,
}

pub open spec fn unit_remaining(u: UnitSnapshot) -> int {
    u.dynamic_end - u.position + 1
}

pub open spec fn split_eligible(u: UnitSnapshot) -> bool {
    !u.done && !u.hedged && u.position <= u.dynamic_end && unit_remaining(u) >= SPLIT_MIN_REMAINING_BYTES
}

pub open spec fn hedge_span(u: UnitSnapshot) -> int {
    let from = if u.synced <= u.position { u.synced } else { u.position };
    (if u.dynamic_end >= from { u.dynamic_end - from } else { 0 }) + 1
}

pub open spec fn hedge_eligible(u: UnitSnapshot) -> bool {
    !u.done && !u.hedged && u.position <= u.dynamic_end && unit_remaining(u) >= HEDGE_MIN_REMAINING_BYTES
        && hedge_span(u) <= MAX_SPECULATIVE_BYTES
}

/// Split eligibility (`splitting`) or hedge eligibility (otherwise).
pub open spec fn assist_eligible(u: UnitSnapshot, splitting: bool) -> bool {
    if splitting {
        split_eligible(u)
    } else {
        hedge_eligible(u)
    }
}

/// `choice` is the first unit with the largest remainder among the eligible
/// ones, or none is eligible.
pub open spec fn best_by_remaining(units: Seq<UnitSnapshot>, choice: Option<usize>, splitting: bool) -> bool {
    match choice {
        Some(i) => {
            &&& i < units.len()
            &&& assist_eligible(units[i as int], splitting)
            &&& forall|j: int| 0 <= j < units.len() && assist_eligible(#[trigger] units[j], splitting) ==> unit_remaining(units[j]) <= unit_remaining(units[i as int])
            &&& forall|j: int| 0 <= j < i && assist_eligible(#[trigger] units[j], splitting) ==> unit_remaining(units[j]) < unit_remaining(units[i as int])
        },
        None => forall|j: int| 0 <= j < units.len() ==> !assist_eligible(#[trigger] units[j], splitting),
    }
}

/// What an idle worker with an empty queue does next.
#[derive(Debug, Clone, Copy, PartialEq, Eq, Structural)]
pub enum IdleAction {
    /// No queued or active work remains.
    Finished,
    /// New work is queued.
    Continue,
    /// Split the tail of the unit at this position.
    Split(usize),
    /// Run one speculative duplicate of the unit at this position.
    Hedge(usize),
    /// Nothing to help with right now; wait for movement.
    Wait,
}

/// Chooses how an idle worker helps: split the active unit with the largest
/// splittable remainder, otherwise hedge the one with the largest hedgeable
/// remainder, otherwise wait; with no active unit the transfer is finished
/// once the queue is empty.
pub fn idle_action(units: &[UnitSnapshot], queue_empty: bool) -> (a: IdleAction)
    ensures
        units@.len() == 0 ==> a == if queue_empty { IdleAction::Finished } else { IdleAction::Continue },
        units@.len() > 0 ==> {
            let s = choose_split(units@);
            let h = choose_hedge(units@);
            a == match s {
                Some(i) => IdleAction::Split(i),
                None => match h {
                    Some(j) => IdleAction::Hedge(j),
                    None => IdleAction::Wait,
                },
            }
        },
{
    if units.len() == 0 {
        return if queue_empty {
            IdleAction::Finished
        } else {
            IdleAction::Continue
        };
    }
    let (s, h) = assist_candidates(units);
    match s {
        Some(i) => IdleAction::Split(i),
        None => match h {
            Some(j) => IdleAction::Hedge(j),
            None => IdleAction::Wait,
        },
    }
}

pub closed spec fn choose_split(units: Seq<UnitSnapshot>) -> Option<usize> {
    choose|c: Option<usize>| #[trigger] best_by_remaining(units, c, true)
}

pub closed spec fn choose_hedge(units: Seq<UnitSnapshot>) -> Option<usize> {
    choose|c: Option<usize>| #[trigger] best_by_remaining(units, c, false)
}

proof fn lemma_best_unique(units: Seq<UnitSnapshot>, a: Option<usize>, b: Option<usize>, p: bool)
    requires
        best_by_remaining(units, a, p),
        best_by_remaining(units, b, p),
    ensures
        a == b,
{
    match (a, b) {
        (Some(i), Some(j)) => {
            if i < j {
                assert(unit_remaining(units[i as int]) < unit_remaining(units[j as int]));
                assert(unit_remaining(units[i as int]) <= unit_remaining(units[j as int]));
            } else if j < i {
                assert(unit_remaining(units[j as int]) < unit_remaining(units[i as int]));
            }
        },
        (Some(i), None) => {
            assert(assist_eligible(units[i as int], p));
        },
        (None, Some(j)) => {
            assert(assist_eligible(units[j as int], p));
        },
        (None, None) => {},
    }
}

/// The split and hedge candidates, each the first unit with the largest
/// eligible remainder.
pub fn assist_candidates(units: &[UnitSnapshot]) -> (r: (Option<usize>, Option<usize>))
    ensures
        r.0 == choose_split(units@),
        r.1 == choose_hedge(units@),
        best_by_remaining(units@, r.0, true),
        best_by_remaining(units@, r.1, false),
{
    let mut best_split: Option<usize> = None;
    let mut best_split_remaining: u128 = 0;
    let mut best_hedge: Option<usize> = None;
    let mut best_hedge_remaining: u128 = 0;
    let mut i: usize = 0;
    while i < units.len()
        invariant
            i <= units@.len(),
            best_by_remaining(units@.subrange(0, i as int), best_split, true),
            best_by_remaining(units@.subrange(0, i as int), best_hedge, false),
            best_split matches Some(k) ==> best_split_remaining == unit_remaining(units@[k as int]),
            best_split is None ==> best_split_remaining == 0,
            best_hedge matches Some(k) ==> best_hedge_remaining == unit_remaining(units@[k as int]),
            best_hedge is None ==> best_hedge_remaining == 0,
        decreases units@.len() - i,
    {
        let u = units[i];
        let ghost prev = units@.subrange(0, i as int);
        let ghost next = units@.subrange(0, i as int + 1);
        proof {
            assert forall|j: int| 0 <= j < i implies next[j] == prev[j] by {}
            assert(next[i as int] == u);
        }
        if !u.done && !u.hedged && u.position <= u.dynamic_end {
            let remaining: u128 = (u.dynamic_end - u.position) as u128 + 1;
            if remaining >= SPLIT_MIN_REMAINING_BYTES as u128 && remaining > best_split_remaining {
                best_split_remaining = remaining;
                best_split = Some(i);
            }
            let from = if u.synced <= u.position {
                u.synced
            } else {
                u.position
            };
            let span: u128 = (if u.dynamic_end >= from {
                u.dynamic_end - from
            } else {
                0
            }) as u128 + 1;
            if remaining >= HEDGE_MIN_REMAINING_BYTES as u128 && span <= MAX_SPECULATIVE_BYTES as u128
                && remaining > best_hedge_remaining {
                best_hedge_remaining = remaining;
                best_hedge = Some(i);
            }
        }
        i = i + 1;
    }
    proof {
        assert(units@.subrange(0, units@.len() as int) =~= units@);
        let sp = true;
        let hp = false;
        assert(best_by_remaining(units@, choose_split(units@), sp));
        lemma_best_unique(units@, best_split, choose_split(units@), sp);
        assert(best_by_remaining(units@, choose_hedge(units@), hp));
        lemma_best_unique(units@, best_hedge, choose_hedge(units@), hp);
    }
    (best_split, best_hedge)
}

/// The verdict of the slow-tail observation window.
#[derive(Debug, Clone, Copy, PartialEq, Eq, Structural)]
pub enum HedgeVerdict {
    /// The owner already wrote past the unit's end.
    Finished,
    /// The unit keeps up; the hedge claim is surrendered.
    NotSlow,
    /// The unit is stalled, or far from done and well below the transfer's pace.
    Slow,
}

/// Rates are measured over a half-second window (hence the doubling).
pub open spec fn spec_hedge_verdict(position_before: u64, position_after: u64, job_before: u64, job_after: u64, end: u64) -> HedgeVerdict {
    let unit_rate: int = (if position_after >= position_before { position_after - position_before } else { 0 }) * 2;
    let job_rate: int = (if job_after >= job_before { job_after - job_before } else { 0 }) * 2;
    if position_after > end {
        HedgeVerdict::Finished
    } else {
        let remaining = end - position_after + 1;
        let projected = remaining / (if unit_rate >= 1 { unit_rate } else { 1 });
        let doubled = if unit_rate * 2 <= u64::MAX { unit_rate * 2 } else { u64::MAX as int };
        if unit_rate == 0 || (projected > 5 && doubled < job_rate) {
            HedgeVerdict::Slow
        } else {
            HedgeVerdict::NotSlow
        }
    }
}

pub fn hedge_verdict(position_before: u64, position_after: u64, job_before: u64, job_after: u64, end: u64) -> (v: HedgeVerdict)
    requires
        (if position_after >= position_before { position_after - position_before } else { 0 }) * 2 <= u64::MAX,
        (if job_after >= job_before { job_after - job_before } else { 0 }) * 2 <= u64::MAX,
    ensures
        v == spec_hedge_verdict(position_before, position_after, job_before, job_after, end),
{
    let unit_rate = (if position_after >= position_before {
        position_after - position_before
    } else {
        0
    }) * 2;
    let job_rate = (if job_after >= job_before {
        job_after - job_before
    } else {
        0
    }) * 2;
    if position_after > end {
        return HedgeVerdict::Finished;
    }
    let remaining: u128 = (end - position_after) as u128 + 1;
    let projected = remaining / (if unit_rate >= 1 {
        unit_rate
    } else {
        1
    }) as u128;
    let doubled = if unit_rate <= u64::MAX / 2 {
        unit_rate * 2
    } else {
        u64::MAX
    };
    if unit_rate == 0 || (projected > 5 && doubled < job_rate) {
        HedgeVerdict::Slow
    } else {
        HedgeVerdict::NotSlow
    }
}

/// Where a speculative duplicate starts: at the owner's durable offset, so the
/// duplicate never relies on bytes that are not yet synced.
pub fn hedge_start(synced: u64, position: u64) -> (s: u64)
    ensures
        s == if synced <= position { synced } else { position },
{
    if synced <= position {
        synced
    } else {
        position
    }
}

// ---------------------------------------------------------------------------
// Sources and retries
// ---------------------------------------------------------------------------

pub open spec fn rotation(start: usize, n: usize, quarantined: Seq<bool>, k: int) -> Seq<usize>
    decreases k,
{
    if k <= 0 {
        Seq::empty()
    } else {
        let idx = ((start + (k - 1)) % (n as int)) as usize;
        let prev = rotation(start, n, quarantined, k - 1);
        if quarantined[idx as int] {
            prev
        } else {
            prev.push(idx)
        }
    }
}

/// Admitted sources to try, in rotation from `start`, skipping quarantined
/// mirrors, at most `limit` of them.
pub fn available_sources(quarantined: &[bool], start: usize, limit: usize) -> (r: Vec<usize>)
    requires
        start + quarantined@.len() <= usize::MAX,
    ensures
        ({
            let all = rotation(start, quarantined@.len() as usize, quarantined@, quarantined@.len() as int);
            r@ == all.take(if limit <= all.len() { limit as int } else { all.len() as int })
        }),
{
    let n = quarantined.len();
    let mut r: Vec<usize> = Vec::new();
    let mut all_len: usize = 0;
    let mut offset: usize = 0;
    while offset < n
        invariant
            n == quarantined@.len(),
            start + n <= usize::MAX,
            offset <= n,
            all_len == rotation(start, n, quarantined@, offset as int).len(),
            all_len <= offset,
            r@ == rotation(start, n, quarantined@, offset as int).take(
                if limit <= all_len { limit as int } else { all_len as int },
            ),
        decreases n - offset,
    {
        let idx = (start + offset) % n;
        let ghost prev = rotation(start, n, quarantined@, offset as int);
        proof {
            assert(rotation(start, n, quarantined@, offset as int + 1) == if quarantined@[idx as int] {
                prev
            } else {
                prev.push(idx)
            });
        }
        if !quarantined[idx] {
            if r.len() < limit {
                r.push(idx);
            }
            all_len = all_len + 1;
            proof {
                let cur = prev.push(idx);
                let t = if limit <= all_len { limit as int } else { all_len as int };
                assert(r@ =~= cur.take(t));
            }
        }
        offset = offset + 1;
    }
    r
}

/// The wait before retrying a work unit: the server's `Retry-After` when it
/// sent one, otherwise 250 ms doubled per attempt (at most six doublings).
pub open spec fn spec_unit_backoff_millis(attempt: u32, retry_after_secs: Option<u64>) -> int {
    match retry_after_secs {
        Some(s) => s * 1000,
        None => (250 * vstd::arithmetic::power2::pow2((if attempt <= 6 { attempt } else { 6 }) as nat)) as int,
    }
}

pub fn unit_backoff_millis(attempt: u32, retry_after_secs: Option<u64>) -> (ms: u128)
    ensures
        ms == spec_unit_backoff_millis(attempt, retry_after_secs),
{
    match retry_after_secs {
        Some(s) => s as u128 * 1000,
        None => {
            let e = if attempt <= 6 {
                attempt
            } else {
                6
            };
            let mut f: u128 = 1;
            let mut k: u32 = 0;
            proof {
                vstd::arithmetic::power2::lemma2_to64();
            }
            while k < e
                invariant
                    k <= e <= 6,
                    f <= 64,
                    f == vstd::arithmetic::power2::pow2(k as nat),
                decreases e - k,
            {
                proof {
                    vstd::arithmetic::power2::lemma2_to64();
                }
                f = f * 2;
                k = k + 1;
            }
            250 * f
        },
    }
}

// ---------------------------------------------------------------------------
// Verified pieces
// ---------------------------------------------------------------------------

/// The piece layout and digests a Metalink description fixes for an object.
#[derive(Debug, Clone)]
pub struct PieceChecksums {
    pub length: u64,
    pub sha256: Vec<String>,
}

/// The SHA-256 digest `sha2` computes for the bytes.
pub uninterp spec fn sha256_of(bytes: Seq<u8>) -> Seq<u8>;

/// `sha2::Sha256::digest`. The contract names the digest and states its
/// length, 32 bytes; the hashing itself is the crate's.
#[verifier::external_body]
fn sha256_digest(bytes: &[u8]) -> (d: Vec<u8>)
    ensures
        d@ == sha256_of(bytes@),
        d@.len() == 32,
{
    sha2::Sha256::digest(bytes).to_vec()
}

pub open spec fn hex_digit(n: u8) -> char {
    if n < 10 {
        (48 + n) as char
    } else {
        (87 + n) as char
    }
}

/// Lower-case hexadecimal, two digits per byte, high nibble first.
pub open spec fn lower_hex(bytes: Seq<u8>) -> Seq<char>
    decreases bytes.len(),
{
    if bytes.len() == 0 {
        Seq::empty()
    } else {
        lower_hex(bytes.drop_last()) + seq![hex_digit(bytes.last() / 16), hex_digit(bytes.last() % 16)]
    }
}

/// `hex::encode`: each byte as two lower-case hexadecimal digits, which is
/// what the crate's source does (a table of `0-9a-f`, high nibble first).
#[verifier::external_body]
fn hex_encode(bytes: &[u8]) -> (s: String)
    ensures
        s@ == lower_hex(bytes@),
{
    hex::encode(bytes)
}

/// The lower-case hexadecimal SHA-256 of some bytes.
pub fn sha256_hex(bytes: &[u8]) -> (s: String)
    ensures
        s@ == lower_hex(sha256_of(bytes@)),
{
    let digest = sha256_digest(bytes);
    hex_encode(digest.as_slice())
}

/// A piece body may not grow past its piece's length.
pub fn piece_body_fits(buffered: usize, chunk: usize, capacity: usize) -> (r: Result<(), RavynError>)
    ensures
        buffered + chunk > capacity ==> (r matches Err(RavynError::Protocol(x)) && x@
            == "verified range body exceeded its piece boundary"@),
        buffered + chunk <= capacity ==> r is Ok,
{
    if buffered > capacity || chunk > capacity - buffered {
        return Err(RavynError::Protocol(String::from_str("verified range body exceeded its piece boundary")));
    }
    Ok(())
}

/// Accepts a downloaded piece when it has exactly the piece's length and
/// its SHA-256 matches the expected digest (ignoring ASCII case).
pub fn verify_piece(bytes: &[u8], capacity: usize, expected: &str, index: u64) -> (r: Result<(), RavynError>)
    ensures
        bytes@.len() != capacity ==> (r matches Err(RavynError::Protocol(x)) && x@
            == "short verified range body: expected "@ + dec(capacity as nat) + ", received "@ + dec(bytes@.len())),
        bytes@.len() == capacity && !eq_ignore_ascii_case(lower_hex(sha256_of(bytes@)), expected@) ==> (r matches Err(
            RavynError::Protocol(x),
        ) && x@ == "mirror returned corrupt piece "@ + dec(index as nat)),
        bytes@.len() == capacity && eq_ignore_ascii_case(lower_hex(sha256_of(bytes@)), expected@) ==> r is Ok,
{
    if bytes.len() != capacity {
        let mut m = String::from_str("short verified range body: expected ");
        push_decimal(&mut m, capacity as u64);
        m.append(", received ");
        push_decimal(&mut m, bytes.len() as u64);
        return Err(RavynError::Protocol(m));
    }
    let actual = sha256_hex(bytes);
    let a = chars_of(actual.as_str());
    let e = chars_of(expected);
    if !chars_eq_ignore_ascii_case(a.as_slice(), e.as_slice()) {
        let mut m = String::from_str("mirror returned corrupt piece ");
        push_decimal(&mut m, index);
        return Err(RavynError::Protocol(m));
    }
    Ok(())
}

// ---------------------------------------------------------------------------
// Resuming a segmented transfer
// ---------------------------------------------------------------------------

pub open spec fn downloaded_sum(records: Seq<SegmentRecord>) -> nat
    decreases records.len(),
{
    if records.len() == 0 {
        0
    } else {
        downloaded_sum(records.drop_last()) + records.last().downloaded as nat
    }
}

/// Bytes a resumed transfer already holds: the progress of every unit.
pub fn resumed_bytes(records: &[SegmentRecord]) -> (n: u128)
    ensures
        n == downloaded_sum(records@),
{
    let mut n: u128 = 0;
    let mut i: usize = 0;
    while i < records.len()
        invariant
            i <= records@.len(),
            n == downloaded_sum(records@.subrange(0, i as int)),
            n <= i * 0x1_0000_0000_0000_0000,
        decreases records@.len() - i,
    {
        proof {
            assert(records@.subrange(0, i as int + 1).drop_last() =~= records@.subrange(0, i as int));
        }
        n = n + records[i].downloaded as u128;
        i = i + 1;
    }
    proof {
        assert(records@.subrange(0, records@.len() as int) =~= records@);
    }
    n
}

/// The index a unit created by a later split receives: one past the largest in use.
pub open spec fn next_unit_index(records: Seq<SegmentRecord>) -> int
    decreases records.len(),
{
    if records.len() == 0 {
        0
    } else {
        let rest = next_unit_index(records.drop_last());
        let mine = records.last().index + 1;
        if mine > rest { mine } else { rest }
    }
}

pub fn next_index(records: &[SegmentRecord]) -> (n: usize)
    requires
        forall|i: int| 0 <= i < records@.len() ==> (#[trigger] records@[i]).index < usize::MAX,
    ensures
        n == next_unit_index(records@),
{
    let mut n: usize = 0;
    let mut i: usize = 0;
    while i < records.len()
        invariant
            i <= records@.len(),
            forall|j: int| 0 <= j < records@.len() ==> (#[trigger] records@[j]).index < usize::MAX,
            n == next_unit_index(records@.subrange(0, i as int)),
        decreases records@.len() - i,
    {
        proof {
            assert(records@.subrange(0, i as int + 1).drop_last() =~= records@.subrange(0, i as int));
        }
        let mine = records[i].index + 1;
        if mine > n {
            n = mine;
        }
        i = i + 1;
    }
    proof {
        assert(records@.subrange(0, records@.len() as int) =~= records@);
    }
    n
}

/// The units still to download, in order.
pub open spec fn pending_units(records: Seq<SegmentRecord>) -> Seq<SegmentRecord> {
    records.filter(|r: SegmentRecord| !r.completed)
}

pub fn pending(records: &[SegmentRecord]) -> (p: Vec<SegmentRecord>)
    ensures
        p@ == pending_units(records@),
{
    let mut p: Vec<SegmentRecord> = Vec::new();
    let mut i: usize = 0;
    while i < records.len()
        invariant
            i <= records@.len(),
            p@ == records@.subrange(0, i as int).filter(|r: SegmentRecord| !r.completed),
        decreases records@.len() - i,
    {
        proof {
            let next = records@.subrange(0, i as int + 1);
            assert(next.drop_last() =~= records@.subrange(0, i as int));
            reveal(Seq::filter);
        }
        if !records[i].completed {
            p.push(records[i]);
        }
        i = i + 1;
    }
    proof {
        assert(records@.subrange(0, records@.len() as int) =~= records@);
    }
    p
}

/// The durable coverage a resumed transfer starts from: its completed units.
pub fn completed_coverage(records: &[SegmentRecord]) -> (c: DurableCoverage)
    requires
        forall|i: int| 0 <= i < records@.len() ==> (#[trigger] records@[i]).start <= records@[i].end,
    ensures
        forall|x: int|
            #[trigger] c.covers(x) <==> exists|i: int|
                0 <= i < records@.len() && records@[i].completed && records@[i].start <= x <= records@[i].end,
{
    let mut c = DurableCoverage::new();
    let mut i: usize = 0;
    while i < records.len()
        invariant
            i <= records@.len(),
            forall|j: int| 0 <= j < records@.len() ==> (#[trigger] records@[j]).start <= records@[j].end,
            forall|x: int|
                #[trigger] c.covers(x) <==> exists|j: int|
                    0 <= j < i && records@[j].completed && records@[j].start <= x <= records@[j].end,
        decreases records@.len() - i,
    {
        let r = records[i];
        if r.completed {
            c.mark(r.start, r.end);
        }
        proof {
            assert forall|x: int| #[trigger] c.covers(x) <==> exists|j: int|
                0 <= j < i + 1 && records@[j].completed && records@[j].start <= x <= records@[j].end by {
                if c.covers(x) && !(exists|j: int|
                    0 <= j < i && records@[j].completed && records@[j].start <= x <= records@[j].end) {
                    assert(records@[i as int].completed && records@[i as int].start <= x <= records@[i as int].end);
                }
            }
        }
        i = i + 1;
    }
    c
}

/// How many workers run: as many as asked (at least one), but no more
/// than there are pending units (at least one).
pub fn active_workers(worker_count: usize, pending: usize) -> (n: usize)
    ensures
        n == min_usize(max_usize(worker_count, 1), max_usize(pending, 1)),
        n >= 1,
{
    worker_count.max(1).min(pending.max(1))
}

/// The outcome label of a finished work unit.
pub fn work_unit_outcome(result: &Result<(), RavynError>) -> (s: &'static str)
    ensures
        match result {
            Ok(_) => s@ == "success"@,
            Err(RavynError::Cancelled) => s@ == "cancelled"@,
            Err(_) => s@ == "failure"@,
        },
{
    match result {
        Ok(()) => "success",
        Err(RavynError::Cancelled) => "cancelled",
        Err(_) => "failure",
    }
}

/// Every unit must have reached durable completion before the file is final.
pub fn check_all_completed(records: &[SegmentRecord]) -> (r: Result<(), RavynError>)
    ensures
        (forall|i: int| 0 <= i < records@.len() ==> (#[trigger] records@[i]).completed) ==> r is Ok,
        !(forall|i: int| 0 <= i < records@.len() ==> (#[trigger] records@[i]).completed) ==> (r matches Err(
            RavynError::Protocol(x),
        ) && x@ == "not every work unit reached durable completion"@),
{
    let mut i: usize = 0;
    while i < records.len()
        invariant
            i <= records@.len(),
            forall|j: int| 0 <= j < i ==> (#[trigger] records@[j]).completed,
        decreases records@.len() - i,
    {
        if !records[i].completed {
            return Err(RavynError::Protocol(String::from_str("not every work unit reached durable completion")));
        }
        i = i + 1;
    }
    Ok(())
}

/// The whole-file digest a segmented transfer computed must match.
pub fn check_segmented_digest(expected: &str, actual: &str) -> (r: Result<(), RavynError>)
    ensures
        eq_ignore_ascii_case(actual@, expected@) ==> r is Ok,
        !eq_ignore_ascii_case(actual@, expected@) ==> (r matches Err(RavynError::Invalid(x)) && x@
            == "segmented SHA-256 mismatch: expected "@ + expected@ + ", got "@ + actual@),
{
    let a = chars_of(actual);
    let e = chars_of(expected);
    if chars_eq_ignore_ascii_case(a.as_slice(), e.as_slice()) {
        return Ok(());
    }
    let mut m = String::from_str("segmented SHA-256 mismatch: expected ");
    m.append(expected);
    m.append(", got ");
    m.append(actual);
    Err(RavynError::Invalid(m))
}

/// The slow-tail verdict, over every observation: a unit whose owner wrote
/// past its end is finished; otherwise a unit that made no progress in the
/// window is slow, and one at least half as fast as the whole transfer is
/// not.
pub proof fn lemma_hedge_verdict(position_before: u64, position_after: u64, job_before: u64, job_after: u64, end: u64)
    ensures
        ({
            let v = spec_hedge_verdict(position_before, position_after, job_before, job_after, end);
            let unit_progress: int = if position_after >= position_before { position_after - position_before } else { 0 };
            let job_progress: int = if job_after >= job_before { job_after - job_before } else { 0 };
            &&& (v == HedgeVerdict::Finished) <==> position_after > end
            &&& position_after <= end && unit_progress == 0 ==> v == HedgeVerdict::Slow
            &&& position_after <= end && unit_progress > 0 && 2 * unit_progress >= job_progress && 4 * unit_progress
                <= u64::MAX ==> v == HedgeVerdict::NotSlow
        }),
{
}

/// A unit's retry waits what the server asked for, in milliseconds, when it
/// asked; otherwise 250 ms at the first retry, doubling with each attempt up
/// to the sixth and staying there (16 s).
pub proof fn lemma_unit_backoff_doubles(attempt: u32, retry_after_secs: Option<u64>)
    ensures
        retry_after_secs matches Some(s) ==> spec_unit_backoff_millis(attempt, retry_after_secs) == s * 1000,
        spec_unit_backoff_millis(0, None) == 250,
        attempt < 6 ==> spec_unit_backoff_millis((attempt + 1) as u32, None) == 2 * spec_unit_backoff_millis(
            attempt,
            None,
        ),
        attempt >= 6 ==> spec_unit_backoff_millis(attempt, None) == 16_000,
{
    vstd::arithmetic::power2::lemma2_to64();
}

/// The next unit index lies above every recorded index, and is the
/// smallest such: zero with no records, otherwise one past some record's.
pub proof fn lemma_next_index_is_fresh(records: Seq<SegmentRecord>)
    ensures
        forall|i: int| 0 <= i < records.len() ==> (#[trigger] records[i]).index < next_unit_index(records),
        records.len() == 0 ==> next_unit_index(records) == 0,
        records.len() > 0 ==> exists|i: int| 0 <= i < records.len() && next_unit_index(records) == #[trigger] records[i].index + 1,
    decreases records.len(),
{
    if records.len() > 0 {
        let rest = records.drop_last();
        lemma_next_index_is_fresh(rest);
        assert forall|i: int| 0 <= i < records.len() implies (#[trigger] records[i]).index < next_unit_index(records) by {
            if i < records.len() - 1 {
                assert(records[i] == rest[i]);
            }
        }
        if rest.len() > 0 && next_unit_index(records) == next_unit_index(rest) {
            let j = choose|j: int| 0 <= j < rest.len() && next_unit_index(rest) == #[trigger] rest[j].index + 1;
            assert(records[j] == rest[j]);
        } else {
            assert(next_unit_index(records) == records[records.len() - 1].index + 1);
        }
    }
}

/// The pending units are exactly the incomplete records: none of them is
/// complete, and every incomplete record is among them.
pub proof fn lemma_pending_is_the_incomplete_units(records: Seq<SegmentRecord>)
    ensures
        forall|i: int| 0 <= i < pending_units(records).len() ==> !(#[trigger] pending_units(records)[i]).completed,
        forall|i: int| 0 <= i < records.len() && !(#[trigger] records[i]).completed ==> pending_units(records).contains(records[i]),
        pending_units(records).len() <= records.len(),
{
    let pred = |r: SegmentRecord| !r.completed;
    records.lemma_filter_len(pred);
    assert forall|i: int| 0 <= i < pending_units(records).len() implies !(#[trigger] pending_units(records)[i]).completed by {
        records.lemma_filter_pred(pred, i);
    }
    assert forall|i: int| 0 <= i < records.len() && !(#[trigger] records[i]).completed implies pending_units(records).contains(records[i]) by {
        records.lemma_filter_contains(pred, i);
    }
}

} // verus!
