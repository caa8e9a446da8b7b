use ravyn::lifecycle::{create_request_verdict, validate_create_request, validate_sha256, CreateRequest};
use ravyn::error::RavynError;
use ravyn::lifecycle::{
    check_routing_edit, filename_verdict, pausable_statuses, resume_target, resumable_statuses,
    retryable_statuses, validate_cookies_browser, validate_filename, validate_idempotency_key,
    validate_metalink, validate_mirror_count, validate_speed_limit, validate_tags,
    validate_torrent_options, PathComponentKind, SeedRatio, TorrentOptions,
};
use ravyn::models::{JobKind, JobStatus, MetalinkMetadata};

fn invalid_message(result: Result<(), RavynError>) -> String {
    match result {
        Err(RavynError::Invalid(message)) => message,
        other => panic!("expected an invalid-request error, got {other:?}"),
    }
}

#[test]
fn accepts_a_normal_filename() {
    assert!(validate_filename(Some("report.pdf")).is_ok());
}

#[test]
fn accepts_none() {
    assert!(validate_filename(None).is_ok());
}

#[test]
fn rejects_parent_dir_traversal() {
    assert!(validate_filename(Some("..")).is_err());
}

#[test]
fn rejects_current_dir() {
    assert!(validate_filename(Some(".")).is_err());
}

#[test]
fn rejects_multi_component_paths() {
    assert!(validate_filename(Some("a/b")).is_err());
    assert!(validate_filename(Some("../secret")).is_err());
}

#[test]
fn rejects_empty_and_control_characters() {
    assert!(validate_filename(Some("  ")).is_err());
    assert!(validate_filename(Some("a\0b")).is_err());
}

#[test]
fn filename_length_is_counted_in_bytes() {
    let ascii = "a".repeat(255);
    assert!(validate_filename(Some(&ascii)).is_ok());
    let too_long = "a".repeat(256);
    assert_eq!(
        invalid_message(validate_filename(Some(&too_long))),
        "filename must be a single safe path component"
    );
    // 128 two-byte characters are 256 bytes.
    let wide = "é".repeat(128);
    assert!(validate_filename(Some(&wide)).is_err());
}

#[test]
fn filename_verdict_needs_exactly_one_normal_component() {
    assert!(filename_verdict("x", &[PathComponentKind::Normal]).is_ok());
    assert!(filename_verdict("x", &[PathComponentKind::CurDir]).is_err());
    assert!(filename_verdict("x", &[PathComponentKind::Normal, PathComponentKind::Normal]).is_err());
    assert!(filename_verdict("x", &[]).is_err());
}

#[test]
fn tags_are_limited_in_length_and_number() {
    assert!(validate_tags(&["  Music ".to_string(), "music".to_string(), "".to_string()]).is_ok());
    let long = "x".repeat(81);
    assert_eq!(invalid_message(validate_tags(&[long])), "tag names may not exceed 80 characters");
    let many: Vec<String> = (0..65).map(|i| format!("tag{i}")).collect();
    assert_eq!(invalid_message(validate_tags(&many)), "a job may have at most 64 tags");
    // Case variants of one tag count once.
    let mut variants: Vec<String> = (0..64).map(|i| format!("tag{i}")).collect();
    variants.push("TAG0".to_string());
    assert!(validate_tags(&variants).is_ok());
}

fn ratio(value: f64) -> SeedRatio {
    SeedRatio { finite: value.is_finite(), positive: value > 0.0, at_most_limit: value <= 10_000.0 }
}

#[test]
fn torrent_seeding_rules() {
    assert!(validate_torrent_options(&TorrentOptions::default()).is_ok());
    let mut options = TorrentOptions::default();
    options.keep_managed = false;
    assert_eq!(
        invalid_message(validate_torrent_options(&options)),
        "seed_after_download requires keep_managed to remain enabled"
    );
    let mut options = TorrentOptions::default();
    options.seed_after_download = false;
    options.min_seed_time_secs = 5;
    assert_eq!(
        invalid_message(validate_torrent_options(&options)),
        "torrent seeding limits require seed_after_download to be enabled"
    );
    let mut options = TorrentOptions::default();
    options.max_seed_ratio = Some(ratio(f64::NAN));
    assert_eq!(
        invalid_message(validate_torrent_options(&options)),
        "max_seed_ratio must be a finite value between 0 and 10000"
    );
    options.max_seed_ratio = Some(ratio(2.0));
    assert!(validate_torrent_options(&options).is_ok());
    options.max_seed_time_secs = Some(0);
    assert_eq!(
        invalid_message(validate_torrent_options(&options)),
        "max_seed_time_secs must be between 1 second and 10 years"
    );
    options.max_seed_time_secs = Some(100);
    options.min_seed_time_secs = 101;
    assert_eq!(
        invalid_message(validate_torrent_options(&options)),
        "min_seed_time_secs may not exceed max_seed_time_secs"
    );
    options.max_seed_time_secs = None;
    options.min_seed_time_secs = 315_576_001;
    assert_eq!(
        invalid_message(validate_torrent_options(&options)),
        "min_seed_time_secs may not exceed 10 years"
    );
}

#[test]
fn browser_selectors_name_a_known_browser() {
    assert!(validate_cookies_browser("firefox").is_ok());
    assert!(validate_cookies_browser("chrome:Profile 1").is_ok());
    assert!(validate_cookies_browser("edge+gnomekeyring").is_ok());
    assert!(validate_cookies_browser("netscape").is_err());
    assert!(validate_cookies_browser("firefox\n").is_err());
    assert!(validate_cookies_browser(&format!("firefox:{}", "p".repeat(256))).is_err());
}

#[test]
fn mirrors_belong_to_http_jobs() {
    assert!(validate_mirror_count(JobKind::Media, 0).is_ok());
    assert_eq!(
        invalid_message(validate_mirror_count(JobKind::Torrent, 1)),
        "alternate mirrors are supported only for HTTP jobs"
    );
    assert!(validate_mirror_count(JobKind::Http, 16).is_ok());
    assert_eq!(
        invalid_message(validate_mirror_count(JobKind::Http, 17)),
        "an HTTP job may define at most 16 mirrors"
    );
}

#[test]
fn metalink_layouts_must_match_their_hashes() {
    let hash = "a".repeat(64);
    let good = MetalinkMetadata { size: 10, piece_length: Some(4), piece_sha256: vec![hash.clone(); 3] };
    assert!(validate_metalink(JobKind::Http, &good).is_ok());
    assert_eq!(
        invalid_message(validate_metalink(JobKind::Media, &good)),
        "Metalink metadata requires an HTTP job with a positive size"
    );
    let short = MetalinkMetadata { size: 10, piece_length: Some(4), piece_sha256: vec![hash.clone(); 2] };
    assert_eq!(
        invalid_message(validate_metalink(JobKind::Http, &short)),
        "Metalink piece hashes do not match the declared layout"
    );
    let bad_hex = MetalinkMetadata { size: 4, piece_length: Some(4), piece_sha256: vec!["g".repeat(64)] };
    assert!(validate_metalink(JobKind::Http, &bad_hex).is_err());
    let no_length = MetalinkMetadata { size: 4, piece_length: None, piece_sha256: vec![hash] };
    assert_eq!(
        invalid_message(validate_metalink(JobKind::Http, &no_length)),
        "Metalink piece hashes require a positive piece length"
    );
    let bare = MetalinkMetadata { size: 4, piece_length: None, piece_sha256: Vec::new() };
    assert!(validate_metalink(JobKind::Http, &bare).is_ok());
}

#[test]
fn idempotency_keys_are_trimmed_and_bounded() {
    assert_eq!(validate_idempotency_key("  abc ").unwrap(), "abc");
    assert!(validate_idempotency_key("   ").is_err());
    assert!(validate_idempotency_key(&"k".repeat(201)).is_err());
    assert!(validate_speed_limit(Some(i64::MAX as u64)).is_ok());
    assert!(validate_speed_limit(Some(i64::MAX as u64 + 1)).is_err());
}

#[test]
fn status_rules_follow_the_job_lifecycle() {
    assert!(check_routing_edit(true, JobStatus::Queued, 0).is_ok());
    assert!(matches!(check_routing_edit(true, JobStatus::Downloading, 0), Err(RavynError::Conflict(_))));
    assert!(matches!(check_routing_edit(true, JobStatus::Paused, 10), Err(RavynError::Conflict(_))));
    assert!(check_routing_edit(false, JobStatus::Failed, 10).is_ok());
    assert_eq!(pausable_statuses(JobKind::Http), vec![JobStatus::Queued, JobStatus::Downloading, JobStatus::Probing]);
    assert_eq!(pausable_statuses(JobKind::Torrent).last(), Some(&JobStatus::Seeding));
    assert_eq!(resumable_statuses(), vec![JobStatus::Paused, JobStatus::Failed]);
    assert_eq!(retryable_statuses(), vec![JobStatus::Failed, JobStatus::Cancelled, JobStatus::Partial]);
    assert_eq!(resume_target(JobKind::Torrent, JobStatus::Paused, true), JobStatus::Seeding);
    assert_eq!(resume_target(JobKind::Torrent, JobStatus::Failed, true), JobStatus::Queued);
    assert_eq!(resume_target(JobKind::Http, JobStatus::Paused, true), JobStatus::Queued);
}

#[test]
fn creation_checks_run_in_order() {
    let request = || CreateRequest {
        kind: JobKind::Http,
        tags: vec!["music".into()],
        filename: Some("song.mp3".into()),
        expected_sha256: Some("aB".repeat(32)),
        speed_limit_bps: Some(1000),
        post_actions: vec![],
        torrent: None,
        cookies_from_browser: Some("firefox".into()),
        mirror_count: 2,
        metalink: None,
    };
    assert!(validate_create_request(&request(), false).is_ok());
    let mut bad = request();
    bad.tags = vec!["x".repeat(81)];
    bad.filename = Some("..".into());
    assert_eq!(
        invalid_message(validate_create_request(&bad, false)),
        "tag names may not exceed 80 characters"
    );
    let mut bad = request();
    bad.filename = Some("..".into());
    bad.mirror_count = 20;
    assert_eq!(
        invalid_message(validate_create_request(&bad, false)),
        "filename must be a single safe path component"
    );
    let mut bad = request();
    bad.expected_sha256 = Some("g".repeat(64));
    bad.speed_limit_bps = Some(u64::MAX);
    assert_eq!(
        invalid_message(validate_create_request(&bad, false)),
        "expected SHA-256 must be 64 hexadecimal characters"
    );
    let mut bad = request();
    bad.expected_sha256 = Some("ab".into());
    bad.filename = Some("a/b".into());
    assert_eq!(
        invalid_message(validate_create_request(&bad, false)),
        "filename must be a single safe path component"
    );
    let mut bad = request();
    bad.expected_sha256 = Some("0".repeat(63));
    assert!(validate_create_request(&bad, false).is_err());
    let mut bad = request();
    bad.expected_sha256 = None;
    bad.speed_limit_bps = Some(u64::MAX);
    assert_eq!(
        invalid_message(validate_create_request(&bad, false)),
        "speed limit exceeds SQLite integer range"
    );
    let mut bad = request();
    bad.kind = JobKind::Media;
    assert_eq!(
        invalid_message(create_request_verdict(&bad, &[PathComponentKind::Normal], false)),
        "alternate mirrors are supported only for HTTP jobs"
    );
}

#[test]
fn expected_digests_are_64_hex_digits() {
    assert!(validate_sha256(&"0123456789abcdefABCDEF".repeat(3)[..64]).is_ok());
    assert!(validate_sha256("").is_err());
    assert!(validate_sha256(&"a".repeat(65)).is_err());
    assert!(validate_sha256(&format!("{}z", "a".repeat(63))).is_err());
}
