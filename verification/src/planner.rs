use vstd::prelude::*;

verus! {

/// Segment count chosen from the object size alone.
pub open spec fn size_tier(total_bytes: u64) -> usize {
    if total_bytes <= 8_388_607 {
        1
    } else if total_bytes <= 33_554_431 {
        2
    } else if total_bytes <= 134_217_727 {
        4
    } else if total_bytes <= 536_870_911 {
        6
    } else {
        8
    }
}

pub open spec fn max_usize(a: usize, b: usize) -> usize {
    if a >= b { a } else { b }
}

pub open spec fn min_usize(a: usize, b: usize) -> usize {
    if a <= b { a } else { b }
}

/// Chooses a conservative number of HTTP ranges from resource size and user limits.
/// More ranges are not always faster: small files and HTTP/2 origins often perform
/// better with fewer concurrent streams.
pub fn adaptive_segment_count(total_bytes: u64, requested: usize, maximum: usize) -> (count: usize)
    ensures
        count == min_usize(
            min_usize(max_usize(requested, 1), max_usize(maximum, 1)),
            size_tier(total_bytes),
        ),
        1 <= count <= 8,
{
    let cap = requested.max(1).min(maximum.max(1));
    let by_size: usize = if total_bytes <= 8_388_607 {
        1
    } else if total_bytes <= 33_554_431 {
        2
    } else if total_bytes <= 134_217_727 {
        4
    } else if total_bytes <= 536_870_911 {
        6
    } else {
        8
    };
    cap.min(by_size)
}

/// Throughput below which a host is treated as slow (2 MiB/s).
pub const SLOW_HOST_BPS: u64 = 2 * 1024 * 1024;

/// The segment count after applying a host's recorded behaviour to `base`.
pub open spec fn spec_profile_adjusted(
    base: usize,
    consecutive_failures: u32,
    range_failures: u32,
    average_throughput_bps: Option<u64>,
) -> usize {
    let value = max_usize(base, 1);
    if consecutive_failures >= 2 || range_failures >= 3 {
        min_usize(value, 2)
    } else if average_throughput_bps matches Some(speed) && speed < SLOW_HOST_BPS {
        min_usize(value, 3)
    } else {
        value
    }
}

/// Adjusts concurrency using persisted host behavior. Repeated range failures
/// reduce parallelism, while consistently fast and reliable hosts may use the
/// full caller-selected limit.
pub fn profile_adjusted_segment_count(
    base: usize,
    consecutive_failures: u32,
    range_failures: u32,
    average_throughput_bps: Option<u64>,
) -> (count: usize)
    ensures
        count == spec_profile_adjusted(base, consecutive_failures, range_failures, average_throughput_bps),
        1 <= count <= max_usize(base, 1),
{
    let mut value = base.max(1);
    if consecutive_failures >= 2 || range_failures >= 3 {
        value = value.min(2);
    } else {
        match average_throughput_bps {
            Some(speed) => {
                if speed < SLOW_HOST_BPS {
                    value = value.min(3);
                }
            },
            None => {},
        }
    }
    value.max(1)
}

} // verus!
