use ravyn::segmented::{available_sources, completion_step, fresh_records, hedge_start, hedge_verdict, idle_action, layout_is_resumable, piece_body_fits, piece_layout, write_allowance, HedgeVerdict, IdleAction, SegmentPlan, UnitSnapshot};
use ravyn::segmented::{active_workers, check_all_completed, check_segmented_digest, completed_coverage, next_index, pending, resumed_bytes, work_unit_outcome};
use ravyn::segmented::{
    layout_tiles_exactly, plan, plan_work_units, sha256_hex, split_point, unit_backoff_millis,
    validate_content_range, verify_piece, DurableCoverage, SegmentRecord, MIN_WORK_UNIT_BYTES,
};
use ravyn::error::RavynError;

#[test]
fn plans_cover_every_byte_once() {
    let items = plan(10, 3);
    assert_eq!(items[0].start, 0);
    assert_eq!(items.last().unwrap().end, 9);
    assert!(items.windows(2).all(|w| w[0].end + 1 == w[1].start));
}

#[test]
fn work_units_outnumber_workers_for_large_files() {
    let items = plan_work_units(512 * 1024 * 1024, 4);
    assert!(items.len() > 4);
    assert!(items.len() <= 16);
}

#[test]
fn tiny_files_do_not_create_empty_work_units() {
    assert_eq!(plan_work_units(1024, 8).len(), 1);
}

#[test]
fn validates_exact_range_and_total() {
    assert!(validate_content_range(Some("bytes 2-9/10"), 2, 9, 10).is_ok());
    assert!(validate_content_range(Some("bytes 2-9/11"), 2, 9, 10).is_err());
}

#[test]
fn durable_coverage_merges_ranges_and_tracks_the_prefix() {
    let mut coverage = DurableCoverage::new();
    assert_eq!(coverage.contiguous_prefix_end(), 0);
    coverage.mark(10, 19);
    assert_eq!(coverage.contiguous_prefix_end(), 0);
    coverage.mark(0, 4);
    assert_eq!(coverage.contiguous_prefix_end(), 5);
    coverage.mark(5, 9);
    assert_eq!(coverage.contiguous_prefix_end(), 20);
    assert_eq!(coverage.range_count(), 1);
}

#[test]
fn split_layouts_resume_while_gapped_layouts_reset() {
    let record = |index, start, end, downloaded, completed| SegmentRecord {
        index,
        start,
        end,
        downloaded,
        completed,
    };
    let split = vec![
        record(0, 0, 99, 100, true),
        record(2, 100, 149, 0, false),
        record(1, 150, 299, 150, true),
    ];
    assert!(layout_tiles_exactly(&split, 300));
    let gapped = vec![record(0, 0, 99, 100, true), record(1, 150, 299, 0, false)];
    assert!(!layout_tiles_exactly(&gapped, 300));
    let overlapping = vec![record(0, 0, 149, 0, false), record(1, 100, 299, 0, false)];
    assert!(!layout_tiles_exactly(&overlapping, 300));
    let overfull = vec![record(0, 0, 299, 400, true)];
    assert!(!layout_tiles_exactly(&overfull, 300));
    let unflagged = vec![record(0, 0, 299, 300, false)];
    assert!(layout_tiles_exactly(&unflagged, 300));
    let underfull = vec![record(0, 0, 299, 200, true)];
    assert!(!layout_tiles_exactly(&underfull, 300));
}

#[test]
fn content_range_errors_name_the_expected_range() {
    match validate_content_range(Some("bytes 0-1/2"), 2, 9, 10) {
        Err(RavynError::Protocol(message)) => {
            assert_eq!(message, "unexpected Content-Range: bytes 0-1/2; expected bytes 2-9/10")
        }
        other => panic!("unexpected result {other:?}"),
    }
    assert!(matches!(
        validate_content_range(None, 0, 1, 2),
        Err(RavynError::Protocol(message)) if message == "missing Content-Range"
    ));
}

#[test]
fn plan_splits_evenly_with_a_short_tail() {
    let items = plan(10, 3);
    assert_eq!(items.len(), 3);
    assert_eq!((items[0].start, items[0].end), (0, 3));
    assert_eq!((items[1].start, items[1].end), (4, 7));
    assert_eq!((items[2].start, items[2].end), (8, 9));
    assert!(plan(0, 4).is_empty());
}

#[test]
fn splits_leave_two_minimum_units() {
    let end = 4 * MIN_WORK_UNIT_BYTES - 1;
    let cut = split_point(0, 0, end).unwrap();
    assert!(cut >= MIN_WORK_UNIT_BYTES);
    assert!(end - cut + 1 >= MIN_WORK_UNIT_BYTES);
    assert_eq!(split_point(0, 0, MIN_WORK_UNIT_BYTES), None);
}

#[test]
fn unit_backoff_doubles_and_honours_retry_after() {
    assert_eq!(unit_backoff_millis(0, None), 250);
    assert_eq!(unit_backoff_millis(3, None), 2_000);
    assert_eq!(unit_backoff_millis(40, None), 16_000);
    assert_eq!(unit_backoff_millis(1, Some(7)), 7_000);
}

#[test]
fn pieces_are_checked_by_length_and_digest() {
    let body = b"abc";
    let digest = sha256_hex(body);
    assert_eq!(digest, "ba7816bf8f01cfea414140de5dae2223b00361a396177a9cb410ff61f20015ad");
    assert!(verify_piece(body, 3, &digest.to_uppercase(), 0).is_ok());
    assert!(matches!(
        verify_piece(body, 4, &digest, 0),
        Err(RavynError::Protocol(m)) if m == "short verified range body: expected 4, received 3"
    ));
    assert!(matches!(
        verify_piece(b"abd", 3, &digest, 7),
        Err(RavynError::Protocol(m)) if m == "mirror returned corrupt piece 7"
    ));
}

#[test]
fn resumed_layouts() {
    let records = vec![
        SegmentRecord { index: 0, start: 0, end: 9, downloaded: 10, completed: true },
        SegmentRecord { index: 3, start: 10, end: 19, downloaded: 4, completed: false },
        SegmentRecord { index: 1, start: 20, end: 29, downloaded: 10, completed: true },
    ];
    assert_eq!(resumed_bytes(&records), 24);
    assert_eq!(next_index(&records), 4);
    let todo = pending(&records);
    assert_eq!(todo.len(), 1);
    assert_eq!(todo[0].index, 3);
    let coverage = completed_coverage(&records);
    assert_eq!(coverage.contiguous_prefix_end(), 10);
    assert_eq!(coverage.range_count(), 2);
    assert_eq!(active_workers(8, 1), 1);
    assert_eq!(active_workers(0, 0), 1);
    assert_eq!(active_workers(3, 10), 3);
    assert_eq!(work_unit_outcome(&Ok(())), "success");
    assert_eq!(work_unit_outcome(&Err(RavynError::Cancelled)), "cancelled");
    assert_eq!(work_unit_outcome(&Err(RavynError::Protocol("x".into()))), "failure");
    assert!(matches!(
        check_all_completed(&records),
        Err(RavynError::Protocol(m)) if m == "not every work unit reached durable completion"
    ));
    assert!(check_all_completed(&records[..1]).is_ok());
    assert!(check_segmented_digest("AB", "ab").is_ok());
    assert!(matches!(
        check_segmented_digest("ab", "cd"),
        Err(RavynError::Invalid(m)) if m == "segmented SHA-256 mismatch: expected ab, got cd"
    ));
}

#[test]
fn live_unit_decisions() {
    let c = completion_step(0, 9, 12);
    assert_eq!((c.downloaded, c.excess, c.complete), (10, 2, true));
    let c = completion_step(0, 9, 4);
    assert_eq!((c.downloaded, c.excess, c.complete), (4, 0, false));
    assert_eq!(write_allowance(0, 9, 8, 5), 2);
    assert_eq!(write_allowance(0, 9, 12, 5), 0);
    assert_eq!(write_allowance(0, 9, 0, 5), 5);
    assert_eq!(hedge_start(10, 20), 10);
    assert_eq!(hedge_start(30, 20), 20);
    assert_eq!(hedge_verdict(0, 200, 0, 100, 100), HedgeVerdict::Finished);
    assert_eq!(hedge_verdict(50, 50, 0, 100, 1000), HedgeVerdict::Slow);
    assert_eq!(hedge_verdict(0, 500, 0, 600, 1000), HedgeVerdict::NotSlow);
    assert_eq!(hedge_verdict(0, 10, 0, 1000, 1_000_000), HedgeVerdict::Slow);
    assert_eq!(available_sources(&[false, true, false], 1, 5), vec![2, 0]);
    assert_eq!(available_sources(&[false, false, false], 2, 2), vec![2, 0]);
    assert_eq!(idle_action(&[], true), IdleAction::Finished);
    assert_eq!(idle_action(&[], false), IdleAction::Continue);
    let idle = UnitSnapshot { start: 0, dynamic_end: 100, position: 100, synced: 100, done: true, hedged: false };
    assert_eq!(idle_action(&[idle], true), IdleAction::Wait);
    let plan = vec![SegmentPlan { start: 0, end: 4 }, SegmentPlan { start: 5, end: 9 }];
    let fresh = fresh_records(&plan);
    assert_eq!(fresh.len(), 2);
    assert_eq!(fresh[1], SegmentRecord { index: 1, start: 5, end: 9, downloaded: 0, completed: false });
    assert!(layout_is_resumable(Some(10), 10, &fresh, &plan, true));
    assert!(!layout_is_resumable(Some(9), 10, &fresh, &plan, true));
    assert!(!layout_is_resumable(Some(10), 10, &[], &plan, false));
    assert!(layout_is_resumable(Some(10), 10, &fresh, &plan, false));
    let pieces = piece_layout(10, 4, 3).unwrap();
    assert_eq!(pieces.len(), 3);
    assert_eq!(pieces[2], SegmentPlan { start: 8, end: 9 });
    assert!(matches!(
        piece_layout(10, 4, 2),
        Err(RavynError::Invalid(m)) if m == "piece checksum layout does not cover the object exactly"
    ));
    assert!(piece_layout(10, 0, 0).is_err());
    assert!(piece_body_fits(3, 2, 5).is_ok());
    assert!(matches!(
        piece_body_fits(3, 3, 5),
        Err(RavynError::Protocol(m)) if m == "verified range body exceeded its piece boundary"
    ));
}

#[test]
fn an_empty_object_has_an_empty_plan() {
    assert!(plan(0, 4).is_empty());
    assert!(plan(0, 0).is_empty());
    assert!(plan_work_units(0, 3).is_empty());
}
