//! Metric labels and counters in the OpenMetrics text format. Every label
//! value comes from a fixed vocabulary, never from request data or error
//! text; counters are kept in label order, as they are exported.
use vstd::prelude::*;
use crate::error::FailureClass;
use crate::models::JobKind;
use crate::text::{chars_of, dec, push_decimal};

verus! {

pub open spec fn spec_engine(kind: JobKind) -> Seq<char> {
    match kind {
        JobKind::Http => "http"@,
        JobKind::Media => "media"@,
        JobKind::Torrent => "torrent"@,
    }
}

/// The engine label of a job kind.
pub fn engine(kind: JobKind) -> (s: &'static str)
    ensures
        s@ == spec_engine(kind),
{
    match kind {
        JobKind::Http => "http",
        JobKind::Media => "media",
        JobKind::Torrent => "torrent",
    }
}

/// The outcome label of an operation.
pub fn outcome(success: bool) -> (s: &'static str)
    ensures
        s@ == if success { "success"@ } else { "failure"@ },
{
    if success {
        "success"
    } else {
        "failure"
    }
}

pub open spec fn spec_failure_label(failure: FailureClass) -> Seq<char> {
    match failure {
        FailureClass::PermanentClient => "permanent_client"@,
        FailureClass::RetryableHttp => "retryable_http"@,
        FailureClass::Timeout => "timeout"@,
        FailureClass::DnsOrConnect => "dns_or_connect"@,
        FailureClass::ConnectionReset => "connection_reset"@,
        FailureClass::MalformedRange => "malformed_range"@,
        FailureClass::DiskFull => "disk_full"@,
        FailureClass::Permission => "permission"@,
        FailureClass::ChecksumMismatch => "checksum_mismatch"@,
        FailureClass::ExternalTool => "external_tool"@,
        FailureClass::Cancellation => "cancellation"@,
        FailureClass::Internal => "internal"@,
    }
}

/// The label a failure class is counted under.
pub fn failure_label(failure: FailureClass) -> (s: &'static str)
    ensures
        s@ == spec_failure_label(failure),
{
    match failure {
        FailureClass::PermanentClient => "permanent_client",
        FailureClass::RetryableHttp => "retryable_http",
        FailureClass::Timeout => "timeout",
        FailureClass::DnsOrConnect => "dns_or_connect",
        FailureClass::ConnectionReset => "connection_reset",
        FailureClass::MalformedRange => "malformed_range",
        FailureClass::DiskFull => "disk_full",
        FailureClass::Permission => "permission",
        FailureClass::ChecksumMismatch => "checksum_mismatch",
        FailureClass::ExternalTool => "external_tool",
        FailureClass::Cancellation => "cancellation",
        FailureClass::Internal => "internal",
    }
}

/// The reasons a torrent's seeding stop is counted under; anything else is `other`.
pub open spec fn spec_seeding_stop_reason(reason: Seq<char>) -> Seq<char> {
    if reason == "ratio_limit"@ || reason == "time_limit"@ || reason == "engine_missing"@ || reason == "removed"@
        || reason == "cancelled"@ {
        reason
    } else {
        "other"@
    }
}

pub fn seeding_stop_reason(reason: &str) -> (s: &'static str)
    ensures
        s@ == spec_seeding_stop_reason(reason@),
{
    let r = chars_of(reason);
    let a = chars_of("ratio_limit");
    let b = chars_of("time_limit");
    let c = chars_of("engine_missing");
    let d = chars_of("removed");
    let e = chars_of("cancelled");
    if crate::text::chars_equal(r.as_slice(), a.as_slice()) {
        return "ratio_limit";
    }
    if crate::text::chars_equal(r.as_slice(), b.as_slice()) {
        return "time_limit";
    }
    if crate::text::chars_equal(r.as_slice(), c.as_slice()) {
        return "engine_missing";
    }
    if crate::text::chars_equal(r.as_slice(), d.as_slice()) {
        return "removed";
    }
    if crate::text::chars_equal(r.as_slice(), e.as_slice()) {
        return "cancelled";
    }
    "other"
}

/// A seeding stop is counted under one of six fixed reasons, whatever text
/// the caller passed.
pub proof fn lemma_seeding_reasons_are_bounded(reason: Seq<char>)
    ensures
        ({
            let r = spec_seeding_stop_reason(reason);
            r == "ratio_limit"@ || r == "time_limit"@ || r == "engine_missing"@ || r == "removed"@ || r
                == "cancelled"@ || r == "other"@
        }),
{
}

// ---------------------------------------------------------------------------
// Counters
// ---------------------------------------------------------------------------

/// One label, `name="value"`.
pub open spec fn spec_label(name: Seq<char>, value: Seq<char>) -> Seq<char> {
    name + "=\""@ + value + "\""@
}

pub fn label(name: &str, value: &str) -> (s: String)
    ensures
        s@ == spec_label(name@, value@),
{
    let mut s = String::from_str(name);
    s.append("=\"");
    s.append(value);
    s.append("\"");
    s
}

/// The `# HELP` and `# TYPE` header of a metric family.
pub open spec fn family_header(name: Seq<char>, help: Seq<char>, kind: Seq<char>) -> Seq<char> {
    "# HELP "@ + name + " "@ + help + "\n# TYPE "@ + name + " "@ + kind + "\n"@
}

/// One sample line: the metric, its labels in braces (none when empty) and its value.
pub open spec fn sample_line(name: Seq<char>, labels: Seq<char>, value: u64) -> Seq<char> {
    if labels.len() == 0 {
        name + " "@ + dec(value as nat) + "\n"@
    } else {
        name + "{"@ + labels + "} "@ + dec(value as nat) + "\n"@
    }
}

pub open spec fn sample_lines(name: Seq<char>, samples: Seq<(Seq<char>, u64)>) -> Seq<char>
    decreases samples.len(),
{
    if samples.len() == 0 {
        Seq::empty()
    } else {
        sample_lines(name, samples.drop_last()) + sample_line(name, samples.last().0, samples.last().1)
    }
}

pub open spec fn sample_views(v: Seq<(String, u64)>) -> Seq<(Seq<char>, u64)> {
    v.map_values(|e: (String, u64)| (e.0@, e.1))
}

/// Appends a metric family in the OpenMetrics text format: its header, then
/// one line per sample, in the order given.
pub fn encode_family(body: &mut String, name: &str, help: &str, kind: &str, samples: &[(String, u64)])
    ensures
        final(body)@ == old(body)@ + family_header(name@, help@, kind@) + sample_lines(name@, sample_views(samples@)),
{
    let ghost start = body@;
    body.append("# HELP ");
    body.append(name);
    body.append(" ");
    body.append(help);
    body.append("\n# TYPE ");
    body.append(name);
    body.append(" ");
    body.append(kind);
    body.append("\n");
    proof {
        assert(body@ =~= start + family_header(name@, help@, kind@));
    }
    let ghost head = body@;
    let mut i: usize = 0;
    while i < samples.len()
        invariant
            i <= samples@.len(),
            head == start + family_header(name@, help@, kind@),
            body@ == head + sample_lines(name@, sample_views(samples@).subrange(0, i as int)),
        decreases samples@.len() - i,
    {
        let ghost before = body@;
        body.append(name);
        if samples[i].0.as_str().is_empty() {
            body.append(" ");
        } else {
            body.append("{");
            body.append(samples[i].0.as_str());
            body.append("} ");
        }
        push_decimal(body, samples[i].1);
        body.append("\n");
        proof {
            let sv = sample_views(samples@);
            assert(sv.subrange(0, i as int + 1).drop_last() =~= sv.subrange(0, i as int));
            assert(sv[i as int] == (samples@[i as int].0@, samples@[i as int].1));
            assert(body@ =~= before + sample_line(name@, sv[i as int].0, sv[i as int].1));
        }
        i = i + 1;
    }
    proof {
        assert(sample_views(samples@).subrange(0, samples@.len() as int) =~= sample_views(samples@));
    }
}

// ---------------------------------------------------------------------------
// Temporary files
// ---------------------------------------------------------------------------

/// The temporary-file scan stops below this depth.
pub const TEMP_SCAN_MAX_DEPTH: usize = 6;
/// The temporary-file scan stops after this many directory entries.
pub const TEMP_SCAN_MAX_ENTRIES: usize = 10_000;

/// What the scan for Ravyn's temporary files does with one directory entry.
#[derive(Debug, Clone, Copy, PartialEq, Eq, Structural)]
pub enum TemporaryEntry {
    /// Its size is added.
    Count,
    /// The directory is scanned; within a staging directory every file counts.
    Descend { count_all: bool },
    Ignore,
}

/// Partial downloads (`*.ravyn.part`) count, and everything inside an
/// extraction staging directory (`.ravyn-extract-*`).
pub open spec fn spec_temporary_entry(name: Seq<char>, is_file: bool, is_dir: bool, count_all: bool) -> TemporaryEntry {
    if is_file {
        if count_all || crate::text::has_suffix(name, ".ravyn.part"@) {
            TemporaryEntry::Count
        } else {
            TemporaryEntry::Ignore
        }
    } else if is_dir {
        TemporaryEntry::Descend { count_all: count_all || crate::text::has_prefix(name, ".ravyn-extract-"@) }
    } else {
        TemporaryEntry::Ignore
    }
}

pub fn temporary_entry(name: &str, is_file: bool, is_dir: bool, count_all: bool) -> (e: TemporaryEntry)
    ensures
        e == spec_temporary_entry(name@, is_file, is_dir, count_all),
{
    let chars = chars_of(name);
    if is_file {
        let suffix = chars_of(".ravyn.part");
        if count_all || crate::text::ends_with(chars.as_slice(), suffix.as_slice()) {
            TemporaryEntry::Count
        } else {
            TemporaryEntry::Ignore
        }
    } else if is_dir {
        let prefix = chars_of(".ravyn-extract-");
        TemporaryEntry::Descend { count_all: count_all || crate::text::starts_with(chars.as_slice(), prefix.as_slice()) }
    } else {
        TemporaryEntry::Ignore
    }
}

/// Whether the scan goes on at a depth after visiting `visited` entries.
pub fn temporary_scan_continues(depth: usize, visited: usize) -> (b: bool)
    ensures
        b == (depth <= TEMP_SCAN_MAX_DEPTH && visited < TEMP_SCAN_MAX_ENTRIES),
{
    depth <= TEMP_SCAN_MAX_DEPTH && visited < TEMP_SCAN_MAX_ENTRIES
}

// ---------------------------------------------------------------------------
// Duration histograms
// ---------------------------------------------------------------------------

/// Upper bounds of the histogram buckets in nanoseconds: 0.1 s to 15 min
/// for job-scale durations, 1 ms to 5 s for fast ones (lookups, queries).
pub open spec fn bucket_bounds(fast: bool) -> Seq<u64> {
    if fast {
        seq![
            1_000_000u64, 2_500_000, 5_000_000, 10_000_000, 25_000_000, 50_000_000, 100_000_000,
            250_000_000, 1_000_000_000, 5_000_000_000,
        ]
    } else {
        seq![
            100_000_000u64, 250_000_000, 500_000_000, 1_000_000_000, 2_500_000_000, 5_000_000_000,
            15_000_000_000, 60_000_000_000, 300_000_000_000, 900_000_000_000,
        ]
    }
}

/// The number of buckets of every histogram.
pub const HISTOGRAM_BUCKETS: usize = 10;

/// The upper bound of bucket `index`, in nanoseconds.
pub fn bucket_bound(fast: bool, index: usize) -> (b: u64)
    requires
        index < HISTOGRAM_BUCKETS,
    ensures
        b == bucket_bounds(fast)[index as int],
{
    let bounds: [u64; 10] = if fast {
        [
            1_000_000, 2_500_000, 5_000_000, 10_000_000, 25_000_000, 50_000_000, 100_000_000,
            250_000_000, 1_000_000_000, 5_000_000_000,
        ]
    } else {
        [
            100_000_000, 250_000_000, 500_000_000, 1_000_000_000, 2_500_000_000, 5_000_000_000,
            15_000_000_000, 60_000_000_000, 300_000_000_000, 900_000_000_000,
        ]
    };
    proof {
        assert(bounds@ =~= bucket_bounds(fast));
    }
    bounds[index]
}

/// A duration histogram: how many observations fell at or below each
/// bucket's bound (so the counts are cumulative), how many there were in
/// all, and their total in nanoseconds.
pub struct Histogram {
    fast: bool,
    buckets: Vec<u64>,
    count: u64,
    sum_nanos: u128,
}

impl Histogram {
    pub closed spec fn is_fast(&self) -> bool {
        self.fast
    }

    pub closed spec fn bucket_counts(&self) -> Seq<u64> {
        self.buckets@
    }

    pub closed spec fn observations(&self) -> u64 {
        self.count
    }

    pub closed spec fn total_nanos(&self) -> u128 {
        self.sum_nanos
    }

    /// One count per bucket, never decreasing from bucket to bucket, none
    /// above the number of observations.
    pub open spec fn valid(&self) -> bool {
        &&& self.bucket_counts().len() == HISTOGRAM_BUCKETS
        &&& forall|i: int, j: int|
            0 <= i <= j < HISTOGRAM_BUCKETS ==> #[trigger] self.bucket_counts()[i]
                <= #[trigger] self.bucket_counts()[j]
        &&& forall|i: int| 0 <= i < HISTOGRAM_BUCKETS ==> #[trigger] self.bucket_counts()[i] <= self.observations()
    }

    #[verifier::type_invariant]
    spec fn well_formed(&self) -> bool {
        &&& self.valid()
        &&& self.sum_nanos <= self.count as int * u64::MAX as int
    }

    /// An empty histogram over the fast or the job-scale bounds.
    pub fn new(fast: bool) -> (h: Self)
        ensures
            h.is_fast() == fast,
            h.observations() == 0,
            h.total_nanos() == 0,
            h.bucket_counts() == Seq::new(HISTOGRAM_BUCKETS as nat, |i: int| 0u64),
            h.valid(),
    {
        let buckets: Vec<u64> = vec![0, 0, 0, 0, 0, 0, 0, 0, 0, 0];
        proof {
            assert(buckets@ =~= Seq::new(HISTOGRAM_BUCKETS as nat, |i: int| 0u64));
        }
        Histogram { fast, buckets, count: 0, sum_nanos: 0 }
    }

    /// Records one duration: it counts in every bucket whose bound it does
    /// not exceed, in the total count and in the sum.
    pub fn observe(&mut self, nanos: u64)
        requires
            old(self).observations() < u64::MAX,
        ensures
            final(self).is_fast() == old(self).is_fast(),
            final(self).observations() == old(self).observations() + 1,
            final(self).total_nanos() == old(self).total_nanos() + nanos,
            final(self).bucket_counts().len() == HISTOGRAM_BUCKETS,
            forall|i: int|
                0 <= i < HISTOGRAM_BUCKETS ==> #[trigger] final(self).bucket_counts()[i] == old(
                    self,
                ).bucket_counts()[i] + if nanos <= bucket_bounds(old(self).is_fast())[i] {
                    1int
                } else {
                    0
                },
            final(self).valid(),
    {
        proof {
            use_type_invariant(&*self);
        }
        let fast = self.fast;
        let count = self.count;
        let mut buckets = self.buckets.clone();
        proof {
            assert(buckets@ =~= self.buckets@);
        }
        let ghost before = buckets@;
        let mut i: usize = 0;
        while i < HISTOGRAM_BUCKETS
            invariant
                i <= HISTOGRAM_BUCKETS,
                buckets@.len() == HISTOGRAM_BUCKETS,
                before.len() == HISTOGRAM_BUCKETS,
                forall|k: int| 0 <= k < HISTOGRAM_BUCKETS ==> #[trigger] before[k] <= count,
                count < u64::MAX,
                forall|k: int|
                    0 <= k < HISTOGRAM_BUCKETS ==> #[trigger] buckets@[k] == before[k] + if k < i
                        && nanos <= bucket_bounds(fast)[k] {
                        1int
                    } else {
                        0
                    },
            decreases HISTOGRAM_BUCKETS - i,
        {
            if nanos <= bucket_bound(fast, i) {
                let v = buckets[i];
                buckets.set(i, v + 1);
            }
            i = i + 1;
        }
        proof {
            assert((count as int + 1) * u64::MAX as int == count as int * u64::MAX as int + u64::MAX as int)
                by (nonlinear_arith);
            let b = bucket_bounds(fast);
            assert forall|x: int, y: int| 0 <= x <= y < HISTOGRAM_BUCKETS implies b[x] <= b[y] by {
                assert(b.len() == 10);
            }
        }
        *self = Histogram { fast, buckets, count: count + 1, sum_nanos: self.sum_nanos + nanos as u128 };
    }

    pub fn is_fast_scale(&self) -> (f: bool)
        ensures
            f == self.is_fast(),
            self.valid(),
    {
        proof {
            use_type_invariant(self);
        }
        self.fast
    }

    /// The number of observations at or below bucket `index`'s bound.
    pub fn bucket(&self, index: usize) -> (n: u64)
        requires
            index < HISTOGRAM_BUCKETS,
        ensures
            n == self.bucket_counts()[index as int],
            self.valid(),
    {
        proof {
            use_type_invariant(self);
        }
        self.buckets[index]
    }

    /// The number of observations (the `+Inf` bucket and the count).
    pub fn count(&self) -> (n: u64)
        ensures
            n == self.observations(),
            self.valid(),
    {
        proof {
            use_type_invariant(self);
        }
        self.count
    }

    /// The sum of the observed durations, in nanoseconds.
    pub fn sum_nanos(&self) -> (n: u128)
        ensures
            n == self.total_nanos(),
            self.valid(),
    {
        proof {
            use_type_invariant(self);
        }
        self.sum_nanos
    }
}

/// How each bucket bound is written in an `le` label (the bound in seconds).
pub open spec fn bound_texts(fast: bool) -> Seq<Seq<char>> {
    if fast {
        seq!["0.001"@, "0.0025"@, "0.005"@, "0.01"@, "0.025"@, "0.05"@, "0.1"@, "0.25"@, "1"@, "5"@]
    } else {
        seq!["0.1"@, "0.25"@, "0.5"@, "1"@, "2.5"@, "5"@, "15"@, "60"@, "300"@, "900"@]
    }
}

/// The `le` label text of bucket `index`.
pub fn bound_text(fast: bool, index: usize) -> (t: &'static str)
    requires
        index < HISTOGRAM_BUCKETS,
    ensures
        t@ == bound_texts(fast)[index as int],
{
    let texts: [&'static str; 10] = if fast {
        ["0.001", "0.0025", "0.005", "0.01", "0.025", "0.05", "0.1", "0.25", "1", "5"]
    } else {
        ["0.1", "0.25", "0.5", "1", "2.5", "5", "15", "60", "300", "900"]
    };
    proof {
        assert(texts@.map_values(|t: &'static str| t@) =~= bound_texts(fast));
        assert(texts@[index as int]@ == texts@.map_values(|t: &'static str| t@)[index as int]);
    }
    texts[index]
}

/// The bucket sample of bucket `index`: its labels extended by `le`.
pub open spec fn bucket_line(name: Seq<char>, labels: Seq<char>, le: Seq<char>, value: u64) -> Seq<char> {
    sample_line(name + "_bucket"@, labels + ",le=\""@ + le + "\""@, value)
}

/// The first `k` bucket samples of a histogram.
pub open spec fn bucket_lines(name: Seq<char>, labels: Seq<char>, fast: bool, counts: Seq<u64>, k: int) -> Seq<char>
    decreases k,
{
    if k <= 0 {
        Seq::empty()
    } else {
        bucket_lines(name, labels, fast, counts, k - 1) + bucket_line(
            name,
            labels,
            bound_texts(fast)[k - 1],
            counts[k - 1],
        )
    }
}

/// Appends a histogram's cumulative bucket samples under `name` with the
/// given labels: one per bound, then `+Inf` with the number of
/// observations. The sum and count samples follow them in the format.
pub fn encode_histogram_buckets(body: &mut String, name: &str, labels: &str, h: &Histogram)
    ensures
        final(body)@ == old(body)@ + bucket_lines(name@, labels@, h.is_fast(), h.bucket_counts(), HISTOGRAM_BUCKETS as int)
            + bucket_line(name@, labels@, "+Inf"@, h.observations()),
{
    let fast = h.is_fast_scale();
    let ghost start = body@;
    let mut i: usize = 0;
    while i < HISTOGRAM_BUCKETS
        invariant
            i <= HISTOGRAM_BUCKETS,
            fast == h.is_fast(),
            h.valid(),
            body@ == start + bucket_lines(name@, labels@, fast, h.bucket_counts(), i as int),
        decreases HISTOGRAM_BUCKETS - i,
    {
        let le = bound_text(fast, i);
        let value = h.bucket(i);
        append_bucket_line(body, name, labels, le, value);
        i = i + 1;
    }
    let count = h.count();
    append_bucket_line(body, name, labels, "+Inf", count);
    proof {
        reveal_strlit("+Inf");
    }
}

fn append_bucket_line(body: &mut String, name: &str, labels: &str, le: &str, value: u64)
    ensures
        final(body)@ == old(body)@ + bucket_line(name@, labels@, le@, value),
{
    let ghost start = body@;
    body.append(name);
    body.append("_bucket{");
    body.append(labels);
    body.append(",le=\"");
    body.append(le);
    body.append("\"} ");
    push_decimal(body, value);
    body.append("\n");
    proof {
        reveal_strlit("_bucket{");
        reveal_strlit("_bucket");
        reveal_strlit("{");
        reveal_strlit(",le=\"");
        reveal_strlit("\"} ");
        reveal_strlit("\"");
        reveal_strlit("} ");
        reveal_strlit("\n");
        let l = labels@ + ",le=\""@ + le@ + "\""@;
        assert(l.len() > 0);
        assert(body@ =~= start + bucket_line(name@, labels@, le@, value));
    }
}

/// Bucket counts are cumulative: a later bucket never holds fewer
/// observations than an earlier one, and the `+Inf` bucket (the count)
/// holds them all.
pub proof fn lemma_histogram_is_cumulative(h: Histogram, i: int, j: int)
    requires
        h.valid(),
        0 <= i <= j < HISTOGRAM_BUCKETS,
    ensures
        h.bucket_counts()[i] <= h.bucket_counts()[j] <= h.observations(),
{
}

} // verus!
