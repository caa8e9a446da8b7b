use ravyn::http::{transfer_step, TransferAction, TransferEvent, TransferState, MAX_PROBES};
use ravyn::http::{check_stream_digest, partial_file, resume_range_header, stream_end, stream_start, PartialFile, StreamEnd, StreamStart};
use ravyn::http::{headers_for_target, merged_cookie, HeaderEntry};
use ravyn::bandwidth::FlowClass;
use ravyn::error::RavynError;
use ravyn::http::{
    backoff_delay_millis, check_metalink_size, checkpoint_reusable, chosen_filename,
    content_disposition_filename, falls_back_to_single_stream, finalize_output, follow_redirect,
    host_from_source, is_transient_status, job_flow_config, mirror_admission, mirror_is_candidate,
    needs_whole_file_check, occupied_output, parse_url, requested_segments, retry_after_secs,
    same_origin, segment_decision, validate_resume_range, HostBehaviour, OccupiedOutput,
};

fn protocol(result: Result<(), RavynError>) -> String {
    match result {
        Err(RavynError::Protocol(message)) => message,
        other => panic!("expected a protocol error, got {other:?}"),
    }
}

#[test]
fn parses_content_disposition_filename() {
    assert_eq!(
        content_disposition_filename(Some("attachment; filename*=UTF-8''hello%20world.zip")),
        Some("hello world.zip".into())
    );
}

#[test]
fn content_disposition_prefers_the_extended_parameter() {
    assert_eq!(
        content_disposition_filename(Some("attachment; filename=\"plain.txt\"; filename*=UTF-8''fancy%2Btxt")),
        Some("fancy+txt".into())
    );
    assert_eq!(
        content_disposition_filename(Some("attachment;  filename=\"report.pdf\"")),
        Some("report.pdf".into())
    );
    assert_eq!(content_disposition_filename(Some("inline")), None);
    assert_eq!(content_disposition_filename(None), None);
    // Without a charset prefix the whole value is decoded.
    assert_eq!(content_disposition_filename(Some("filename*=a%41")), Some("aA".into()));
}

#[test]
fn resume_ranges_must_continue_the_partial_file() {
    assert!(validate_resume_range(Some("bytes 100-199/200"), 100, Some(200)).is_ok());
    assert!(validate_resume_range(Some("bytes 100-199/*"), 100, None).is_ok());
    assert_eq!(protocol(validate_resume_range(None, 0, None)), "missing Content-Range");
    assert_eq!(
        protocol(validate_resume_range(Some("items 1-2/3"), 1, None)),
        "invalid Content-Range: items 1-2/3"
    );
    assert_eq!(
        protocol(validate_resume_range(Some("bytes 5-9/10"), 4, Some(10))),
        "resume started at 5, expected 4"
    );
    assert_eq!(
        protocol(validate_resume_range(Some("bytes 4-9/11"), 4, Some(10))),
        "remote length changed from 10 to 11"
    );
    assert_eq!(
        protocol(validate_resume_range(Some("bytes 4-9/*"), 4, Some(10))),
        "invalid Content-Range: bytes 4-9/*"
    );
}

#[test]
fn retry_timing() {
    assert_eq!(retry_after_secs(Some("30")), Some(30));
    assert_eq!(retry_after_secs(Some("3600")), Some(60));
    assert_eq!(retry_after_secs(Some("soon")), None);
    assert_eq!(retry_after_secs(None), None);
    assert!(is_transient_status(429));
    assert!(is_transient_status(503));
    assert!(!is_transient_status(404));
    assert_eq!(backoff_delay_millis(0, None), 250 + 53);
    assert_eq!(backoff_delay_millis(1, None), 500 + 150);
    assert_eq!(backoff_delay_millis(20, None), 60_000.min(250 * 128 + (20 * 97 + 53) % 211));
    assert_eq!(backoff_delay_millis(2, Some(90)), 60_000);
    assert_eq!(backoff_delay_millis(2, Some(3)), 3_000);
}

#[test]
fn origins_compare_scheme_host_and_port() {
    let a = parse_url("https://Example.com/file").unwrap();
    let b = parse_url("https://example.com:443/other").unwrap();
    let c = parse_url("http://example.com/file").unwrap();
    let d = parse_url("https://cdn.example.com/file").unwrap();
    assert!(same_origin(&a, &b));
    assert!(!same_origin(&a, &c));
    assert!(!same_origin(&a, &d));
    assert!(matches!(parse_url("not a url"), Err(RavynError::Url(_))));
    assert_eq!(host_from_source("https://EXAMPLE.org/x").unwrap(), "example.org");
    assert!(matches!(host_from_source("mailto:someone"), Err(RavynError::Invalid(m)) if m == "download URL has no host"));
}

#[test]
fn redirects_resolve_relative_locations_within_the_budget() {
    let base = parse_url("https://example.com/dir/file").unwrap();
    let next = follow_redirect(&base, "../other/file2", 3).unwrap();
    assert_eq!(next.serialization, "https://example.com/other/file2");
    assert!(matches!(
        follow_redirect(&base, "/x", 11),
        Err(RavynError::Protocol(m)) if m == "download probe exceeded the redirect limit"
    ));
}

#[test]
fn transfer_decisions() {
    assert!(checkpoint_reusable(true, false, Some(10), 10));
    assert!(!checkpoint_reusable(true, false, Some(10), 9));
    assert!(checkpoint_reusable(true, false, Some(-1), 9));
    assert!(!checkpoint_reusable(true, true, None, 9));
    assert!(check_metalink_size(10, Some(10)).is_ok());
    assert_eq!(
        protocol(check_metalink_size(10, Some(11))),
        "Metalink mirror size mismatch: expected 10, received Some(11)"
    );
    assert_eq!(
        protocol(check_metalink_size(10, None)),
        "Metalink mirror size mismatch: expected 10, received None"
    );
    let flow = job_flow_config(-5, Some(-1));
    assert_eq!(flow.weight, 1);
    assert_eq!(flow.class, FlowClass::Background);
    assert_eq!(flow.max_bps, None);
    let flow = job_flow_config(i32::MAX, Some(1000));
    assert_eq!(flow.weight, i32::MAX as u32 + 1);
    assert_eq!(flow.class, FlowClass::Foreground);
    assert_eq!(flow.max_bps, Some(1000));
    assert_eq!(requested_segments(None, 8), 8);
    assert_eq!(requested_segments(Some(0), 8), 1);
    assert_eq!(requested_segments(Some(100), 8), 8);
    assert_eq!(requested_segments(Some(3), 0), 1);
}

#[test]
fn segmenting_needs_ranges_size_and_more_than_one_segment() {
    let big = 1024 * 1024 * 1024;
    let d = segment_decision(Some(big), true, 16, 16, 1024, None);
    assert_eq!(d.segments, 8);
    assert!(d.segmented);
    let d = segment_decision(Some(big), false, 16, 16, 1024, None);
    assert!(!d.segmented);
    let flaky = HostBehaviour { consecutive_failures: 3, range_failures: 0, average_throughput_bps: None };
    let d = segment_decision(Some(big), true, 16, 16, 1024, Some(flaky));
    assert_eq!(d.segments, 2);
    let d = segment_decision(None, true, 16, 16, 1024, None);
    assert_eq!(d.segments, 1);
    assert!(!d.segmented);
    let d = segment_decision(Some(1000), true, 16, 16, 1024, None);
    assert!(!d.segmented);
}

#[test]
fn mirrors_must_serve_the_same_object() {
    assert!(mirror_is_candidate("https://m/x", "https://s/x", "https://f/x"));
    assert!(!mirror_is_candidate("https://s/x", "https://s/x", "https://f/x"));
    assert!(mirror_admission(true, Some(5), Some(5), false, Some("e1"), Some("e1")).is_ok());
    assert!(mirror_admission(true, Some(5), Some(5), true, None, None).is_ok());
    assert_eq!(
        protocol(mirror_admission(false, Some(5), Some(5), true, None, None)),
        "mirror does not expose the same ranged object length"
    );
    assert_eq!(
        protocol(mirror_admission(true, Some(5), Some(5), false, Some("e1"), Some("e2"))),
        "mirror lacks a validator matching the primary object"
    );
    assert_eq!(
        protocol(mirror_admission(true, Some(5), Some(5), false, None, None)),
        "mirror lacks a validator matching the primary object"
    );
}

#[test]
fn completion_decisions() {
    assert!(falls_back_to_single_stream(&RavynError::Protocol("x".into()), false));
    assert!(!falls_back_to_single_stream(&RavynError::Protocol("x".into()), true));
    assert!(!falls_back_to_single_stream(&RavynError::Cancelled, false));
    assert!(needs_whole_file_check(false, true));
    assert!(!needs_whole_file_check(true, true));
    assert_eq!(occupied_output(false, false, 0, false), OccupiedOutput::Proceed);
    assert_eq!(occupied_output(true, true, 5, true), OccupiedOutput::Proceed);
    assert_eq!(occupied_output(true, false, 5, false), OccupiedOutput::Conflict);
    assert_eq!(occupied_output(true, false, 0, true), OccupiedOutput::Conflict);
    assert_eq!(occupied_output(true, false, 0, false), OccupiedOutput::Rename);
    assert_eq!(finalize_output(false, false, "/d/f").unwrap(), false);
    assert_eq!(finalize_output(true, true, "/d/f").unwrap(), true);
    assert!(matches!(
        finalize_output(true, false, "/d/f"),
        Err(RavynError::Conflict(m)) if m == "/d/f appeared while the download was running"
    ));
    assert_eq!(chosen_filename(Some("mine.bin".into()), Some("filename=theirs.bin")), Some("mine.bin".into()));
    assert_eq!(chosen_filename(None, Some("filename=theirs.bin")), Some("theirs.bin".into()));
    assert_eq!(chosen_filename(None, None), None);
}

#[test]
fn single_stream_attempts() {
    assert_eq!(partial_file(11, Some(10)), PartialFile::Discard);
    assert_eq!(partial_file(10, Some(10)), PartialFile::Complete);
    assert_eq!(partial_file(0, Some(0)), PartialFile::Resume(0));
    assert_eq!(partial_file(4, None), PartialFile::Resume(4));
    assert_eq!(resume_range_header(0), None);
    assert_eq!(resume_range_header(17).as_deref(), Some("bytes=17-"));
    assert!(matches!(
        stream_start(0, None, 503, "503 Service Unavailable", None, Some("7"), 0, 3),
        Ok(StreamStart::Retry { retry_after_secs: Some(7) })
    ));
    assert!(matches!(
        stream_start(0, None, 503, "503 Service Unavailable", None, None, 3, 3),
        Err(RavynError::Protocol(m)) if m == "download request returned 503 Service Unavailable"
    ));
    assert!(matches!(stream_start(0, None, 200, "200 OK", None, None, 0, 3), Ok(StreamStart::Fresh)));
    assert!(matches!(
        stream_start(5, Some(10), 206, "206 Partial Content", Some("bytes 5-9/10"), None, 0, 3),
        Ok(StreamStart::Append)
    ));
    assert!(matches!(
        stream_start(5, Some(10), 206, "206 Partial Content", Some("bytes 0-9/10"), None, 0, 3),
        Err(RavynError::Protocol(m)) if m == "resume started at 0, expected 5"
    ));
    assert!(matches!(stream_start(5, Some(10), 200, "200 OK", None, None, 0, 3), Ok(StreamStart::Fresh)));
    assert!(matches!(
        stream_start(5, Some(10), 416, "416 Range Not Satisfiable", None, None, 0, 3),
        Err(RavynError::Protocol(m)) if m == "resume request returned 416 Range Not Satisfiable"
    ));
    assert!(matches!(stream_end(false, 10, Some(10), 0, 0), StreamEnd::Done));
    assert!(matches!(stream_end(false, 9, Some(10), 0, 1), StreamEnd::Retry));
    assert!(matches!(stream_end(true, 10, Some(10), 1, 1), StreamEnd::StreamFailed));
    assert!(matches!(
        stream_end(false, 9, Some(10), 1, 1),
        StreamEnd::Failed(RavynError::Protocol(m)) if m == "download length mismatch: expected Some(10), received 9"
    ));
    assert!(check_stream_digest("ABCD", "abcd").is_ok());
    assert!(matches!(
        check_stream_digest("ab", "cd"),
        Err(RavynError::Protocol(m)) if m == "SHA-256 mismatch: expected ab, got cd"
    ));
}

#[test]
fn credentials_stay_on_their_origin() {
    let headers = || {
        vec![
            HeaderEntry { name: "authorization".into(), value: "Bearer secret".into() },
            HeaderEntry { name: "cookie".into(), value: "a=b".into() },
        ]
    };
    let same = headers_for_target(true, headers(), Some("Ravyn"));
    assert_eq!(same.len(), 2);
    let other = headers_for_target(false, headers(), Some("Ravyn"));
    assert_eq!(other.len(), 1);
    assert_eq!(other[0].name, "user-agent");
    assert_eq!(other[0].value, "Ravyn");
    assert!(headers_for_target(false, headers(), None).is_empty());
    assert_eq!(merged_cookie(Some("a=b"), "c=d"), "a=b; c=d");
    assert_eq!(merged_cookie(Some(""), "c=d"), "c=d");
    assert_eq!(merged_cookie(None, "c=d"), "c=d");
}

#[test]
fn a_transfer_probes_falls_back_once_and_verifies() {
    let (state, action) = transfer_step(TransferState::Start, TransferEvent::CheckpointChecked { reusable: false });
    assert_eq!((state, action), (TransferState::Probing { probes_done: 1 }, TransferAction::Probe));
    let (state, action) = transfer_step(state, TransferEvent::Probed { redirect: true });
    assert_eq!((state, action), (TransferState::Probing { probes_done: 2 }, TransferAction::FollowRedirect));
    let (state, action) = transfer_step(state, TransferEvent::Probed { redirect: false });
    assert_eq!((state, action), (TransferState::Preparing, TransferAction::Prepare));
    let (state, action) = transfer_step(state, TransferEvent::Prepared { succeeded: true, segmented: true });
    assert_eq!((state, action), (TransferState::Transferring { segmented: true }, TransferAction::StartSegmented));
    let range_failure = TransferEvent::TransferEnded {
        succeeded: false,
        incrementally_verified: false,
        protocol_error: true,
        cancelled: false,
        expects_digest: true,
    };
    let (state, action) = transfer_step(state, range_failure);
    assert_eq!((state, action), (TransferState::Transferring { segmented: false }, TransferAction::FallBackToSingle));
    assert_eq!(transfer_step(state, range_failure), (TransferState::Done, TransferAction::Fail));
    let (state, action) = transfer_step(
        state,
        TransferEvent::TransferEnded {
            succeeded: true,
            incrementally_verified: false,
            protocol_error: false,
            cancelled: false,
            expects_digest: true,
        },
    );
    assert_eq!((state, action), (TransferState::Verifying, TransferAction::Verify { whole_file: true }));
    assert_eq!(
        transfer_step(state, TransferEvent::Verified { succeeded: false }),
        (TransferState::Done, TransferAction::ResetAndFail)
    );
    let (state, action) = transfer_step(state, TransferEvent::Verified { succeeded: true });
    assert_eq!((state, action), (TransferState::Finalizing, TransferAction::Finalize));
    assert_eq!(
        transfer_step(state, TransferEvent::Finalized { succeeded: true }),
        (TransferState::Done, TransferAction::Complete)
    );
}

#[test]
fn a_transfer_gives_up_after_the_probe_budget_and_reuses_checkpoints() {
    assert_eq!(
        transfer_step(TransferState::Probing { probes_done: MAX_PROBES }, TransferEvent::Probed { redirect: true }),
        (TransferState::Done, TransferAction::Fail)
    );
    assert_eq!(
        transfer_step(TransferState::Start, TransferEvent::CheckpointChecked { reusable: true }),
        (TransferState::Done, TransferAction::ReuseCheckpoint)
    );
    let cancelled = TransferEvent::TransferEnded {
        succeeded: false,
        incrementally_verified: false,
        protocol_error: true,
        cancelled: true,
        expects_digest: false,
    };
    assert_eq!(
        transfer_step(TransferState::Transferring { segmented: true }, cancelled),
        (TransferState::Done, TransferAction::Fail)
    );
    assert_eq!(
        transfer_step(TransferState::Preparing, TransferEvent::Verified { succeeded: true }),
        (TransferState::Preparing, TransferAction::Ignore)
    );
}
