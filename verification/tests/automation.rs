use ravyn::automation::{
    check_idempotent_reuse, schedule_request_hash, sniff_run_result, tally, validate_batch,
    validate_import, validate_schedule_filters, BatchTally,
};
use ravyn::error::RavynError;
use sha2::Digest;

#[test]
fn batches_are_bounded() {
    assert!(matches!(validate_batch(0, 5), Err(RavynError::Invalid(m)) if m == "batch may not be empty"));
    assert!(matches!(validate_batch(6, 5), Err(RavynError::Invalid(m)) if m == "batch contains more than 5 jobs"));
    assert!(validate_batch(5, 5).is_ok());
    assert!(validate_import(0, 5).is_ok());
    assert!(matches!(validate_import(6, 5), Err(RavynError::Invalid(m)) if m == "batch contains more than 5 URLs"));
}

#[test]
fn outcomes_are_tallied() {
    assert_eq!(tally(&[true, false, true]), BatchTally { accepted: 2, rejected: 1 });
    assert!(sniff_run_result(BatchTally { accepted: 0, rejected: 0 }).is_ok());
    assert!(sniff_run_result(BatchTally { accepted: 1, rejected: 3 }).is_ok());
    assert!(matches!(
        sniff_run_result(BatchTally { accepted: 0, rejected: 3 }),
        Err(RavynError::Process(m)) if m == "all 3 discovered resources were rejected"
    ));
}

#[test]
fn schedule_filters_are_bounded() {
    assert!(validate_schedule_filters(Some(3), 10, &["mp4".into()]).is_ok());
    assert!(matches!(
        validate_schedule_filters(Some(0), 10, &[]),
        Err(RavynError::Invalid(m)) if m == "schedule max_resources must be between 1 and 10"
    ));
    assert!(validate_schedule_filters(None, 10, &[" ".into()]).is_err());
    assert!(validate_schedule_filters(None, 10, &["x".repeat(33)]).is_err());
    let many: Vec<String> = (0..129).map(|i| format!("e{i}")).collect();
    assert!(validate_schedule_filters(None, 10, &many).is_err());
}

#[test]
fn idempotency_hashes_identify_requests() {
    let id: u128 = 0x0123_4567_89ab_cdef_0011_2233_4455_6677;
    let expected = hex::encode(<sha2::Sha256 as Digest>::digest(uuid::Uuid::from_u128(id).as_bytes()));
    assert_eq!(schedule_request_hash(id), expected);
    assert!(check_idempotent_reuse("abc", "abc").is_ok());
    assert!(matches!(
        check_idempotent_reuse("abc", "abd"),
        Err(RavynError::Conflict(m)) if m == "Idempotency-Key was already used for a different request"
    ));
}
