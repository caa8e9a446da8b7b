//! Batches, schedules and idempotent requests: the size limits of a batch,
//! how its results are tallied, when a resource-sniffing run counts as
//! failed, the limits of a schedule's filters, and how a repeated request
//! is told apart from a reused key.
use vstd::prelude::*;
use crate::error::RavynError;
use crate::segmented::{lower_hex, sha256_hex, sha256_of};
use crate::text::{chars_of, dec, push_decimal, trim, trim_chars, utf8_len, utf8_length};

verus! {

/// A batch of job requests holds at least one and at most `max_batch` requests.
pub fn validate_batch(count: usize, max_batch: usize) -> (r: Result<(), RavynError>)
    ensures
        count == 0 ==> (r matches Err(RavynError::Invalid(x)) && x@ == "batch may not be empty"@),
        count > max_batch && count > 0 ==> (r matches Err(RavynError::Invalid(x)) && x@ == "batch contains more than "@
            + dec(max_batch as nat) + " jobs"@),
        0 < count <= max_batch ==> r is Ok,
{
    if count == 0 {
        return Err(RavynError::Invalid(String::from_str("batch may not be empty")));
    }
    if count > max_batch {
        let mut m = String::from_str("batch contains more than ");
        push_decimal(&mut m, max_batch as u64);
        m.append(" jobs");
        return Err(RavynError::Invalid(m));
    }
    Ok(())
}

/// An import of URLs holds at most `max_batch` of them.
pub fn validate_import(count: usize, max_batch: usize) -> (r: Result<(), RavynError>)
    ensures
        count > max_batch ==> (r matches Err(RavynError::Invalid(x)) && x@ == "batch contains more than "@ + dec(
            max_batch as nat,
        ) + " URLs"@),
        count <= max_batch ==> r is Ok,
{
    if count > max_batch {
        let mut m = String::from_str("batch contains more than ");
        push_decimal(&mut m, max_batch as u64);
        m.append(" URLs");
        return Err(RavynError::Invalid(m));
    }
    Ok(())
}

/// How many requests of a batch became jobs and how many were refused.
#[derive(Debug, Clone, Copy, PartialEq, Eq, Structural)]
pub struct BatchTally {
    pub accepted: usize,
    pub rejected: usize,
}

pub open spec fn count_true(outcomes: Seq<bool>) -> nat
    decreases outcomes.len(),
{
    if outcomes.len() == 0 {
        0
    } else {
        count_true(outcomes.drop_last()) + if outcomes.last() { 1nat } else { 0nat }
    }
}

/// Tallies the outcomes of a batch (`true` for a created job).
pub fn tally(outcomes: &[bool]) -> (t: BatchTally)
    ensures
        t.accepted == count_true(outcomes@),
        t.accepted + t.rejected == outcomes@.len(),
{
    let mut accepted: usize = 0;
    let mut rejected: usize = 0;
    let mut i: usize = 0;
    while i < outcomes.len()
        invariant
            i <= outcomes@.len(),
            accepted == count_true(outcomes@.subrange(0, i as int)),
            accepted + rejected == i,
        decreases outcomes@.len() - i,
    {
        proof {
            assert(outcomes@.subrange(0, i as int + 1).drop_last() =~= outcomes@.subrange(0, i as int));
        }
        if outcomes[i] {
            accepted = accepted + 1;
        } else {
            rejected = rejected + 1;
        }
        i = i + 1;
    }
    proof {
        assert(outcomes@.subrange(0, outcomes@.len() as int) =~= outcomes@);
    }
    BatchTally { accepted, rejected }
}

/// A resource-sniffing run fails when it found resources and every one
/// of them was refused.
pub fn sniff_run_result(t: BatchTally) -> (r: Result<(), RavynError>)
    ensures
        (t.accepted == 0 && t.rejected > 0) ==> (r matches Err(RavynError::Process(x)) && x@ == "all "@ + dec(
            t.rejected as nat,
        ) + " discovered resources were rejected"@),
        !(t.accepted == 0 && t.rejected > 0) ==> r is Ok,
{
    if t.accepted == 0 && t.rejected > 0 {
        let mut m = String::from_str("all ");
        push_decimal(&mut m, t.rejected as u64);
        m.append(" discovered resources were rejected");
        return Err(RavynError::Process(m));
    }
    Ok(())
}

pub open spec fn string_views(v: Seq<String>) -> Seq<Seq<char>> {
    v.map_values(|s: String| s@)
}

/// A schedule's sniffing filters: a resource limit between 1 and the
/// configured maximum, and at most 128 extension filters, each non-blank
/// and at most 32 bytes.
pub open spec fn schedule_filter_error(max_resources: Option<usize>, max_sniff_resources: usize, extensions: Seq<Seq<char>>) -> Option<Seq<char>> {
    if max_resources matches Some(n) && (n == 0 || n > max_sniff_resources) {
        Some("schedule max_resources must be between 1 and "@ + dec(max_sniff_resources as nat))
    } else if extensions.len() > 128 || exists|i: int|
        0 <= i < extensions.len() && (trim(#[trigger] extensions[i]).len() == 0 || utf8_len(extensions[i]) > 32) {
        Some("schedule extension filters must contain at most 128 non-empty values of 32 characters"@)
    } else {
        None
    }
}

pub fn validate_schedule_filters(max_resources: Option<usize>, max_sniff_resources: usize, extensions: &[String]) -> (r: Result<(), RavynError>)
    ensures
        match schedule_filter_error(max_resources, max_sniff_resources, string_views(extensions@)) {
            None => r is Ok,
            Some(m) => r matches Err(RavynError::Invalid(x)) && x@ == m,
        },
{
    match max_resources {
        Some(n) => if n == 0 || n > max_sniff_resources {
            let mut m = String::from_str("schedule max_resources must be between 1 and ");
            push_decimal(&mut m, max_sniff_resources as u64);
            return Err(RavynError::Invalid(m));
        },
        None => {},
    }
    let ghost views = string_views(extensions@);
    proof {
        assert(views.len() == extensions@.len());
    }
    if extensions.len() > 128 {
        return Err(RavynError::Invalid(String::from_str("schedule extension filters must contain at most 128 non-empty values of 32 characters")));
    }
    let mut i: usize = 0;
    while i < extensions.len()
        invariant
            i <= extensions@.len(),
            extensions@.len() <= 128,
            views == string_views(extensions@),
            !(max_resources matches Some(n) && (n == 0 || n > max_sniff_resources)),
            forall|j: int| 0 <= j < i ==> !(trim(#[trigger] views[j]).len() == 0 || utf8_len(views[j]) > 32),
        decreases extensions@.len() - i,
    {
        let chars = chars_of(extensions[i].as_str());
        let trimmed = trim_chars(chars.as_slice());
        if trimmed.len() == 0 || utf8_length(chars.as_slice()) > 32 {
            proof {
                assert(views[i as int] == extensions@[i as int]@);
            }
            return Err(RavynError::Invalid(String::from_str("schedule extension filters must contain at most 128 non-empty values of 32 characters")));
        }
        proof {
            assert(views[i as int] == extensions@[i as int]@);
        }
        i = i + 1;
    }
    Ok(())
}

/// The sixteen bytes of a UUID, most significant first (`Uuid::as_bytes`).
pub open spec fn uuid_bytes(id: u128) -> Seq<u8> {
    Seq::new(16, |i: int| ((id >> ((8 * (15 - i)) as u128)) & 0xff) as u8)
}

fn uuid_to_bytes(id: u128) -> (b: Vec<u8>)
    ensures
        b@ == uuid_bytes(id),
{
    let mut b: Vec<u8> = Vec::new();
    let mut i: usize = 0;
    while i < 16
        invariant
            i <= 16,
            b@.len() == i,
            forall|j: int| 0 <= j < i ==> b@[j] == uuid_bytes(id)[j],
        decreases 16 - i,
    {
        let shift: u128 = (8 * (15 - i)) as u128;
        let byte = ((id >> shift) & 0xff) as u8;
        b.push(byte);
        i = i + 1;
    }
    proof {
        assert(b@ =~= uuid_bytes(id));
    }
    b
}

/// What identifies a "run now" request of a schedule: the hexadecimal
/// SHA-256 of the schedule's UUID bytes.
pub fn schedule_request_hash(schedule_id: u128) -> (h: String)
    ensures
        h@ == lower_hex(sha256_of(uuid_bytes(schedule_id))),
{
    let bytes = uuid_to_bytes(schedule_id);
    sha256_hex(bytes.as_slice())
}

/// A key seen before must come with the same request.
pub fn check_idempotent_reuse(stored_hash: &str, request_hash: &str) -> (r: Result<(), RavynError>)
    ensures
        stored_hash@ == request_hash@ ==> r is Ok,
        stored_hash@ != request_hash@ ==> (r matches Err(RavynError::Conflict(x)) && x@
            == "Idempotency-Key was already used for a different request"@),
{
    let a = chars_of(stored_hash);
    let b = chars_of(request_hash);
    if !crate::text::chars_equal(a.as_slice(), b.as_slice()) {
        return Err(RavynError::Conflict(String::from_str("Idempotency-Key was already used for a different request")));
    }
    Ok(())
}

} // verus!
