use ravyn::metrics::{bound_text, bucket_bound, encode_histogram_buckets, Histogram, HISTOGRAM_BUCKETS};
use ravyn::error::FailureClass;
use ravyn::metrics::{
    encode_family, engine, failure_label, label, outcome, seeding_stop_reason, temporary_entry,
    temporary_scan_continues, TemporaryEntry,
};
use ravyn::models::JobKind;

#[test]
fn labels_come_from_a_fixed_vocabulary() {
    assert_eq!(engine(JobKind::Http), "http");
    assert_eq!(engine(JobKind::Torrent), "torrent");
    assert_eq!(outcome(true), "success");
    assert_eq!(outcome(false), "failure");
    assert_eq!(failure_label(FailureClass::Timeout), "timeout");
    assert_eq!(failure_label(FailureClass::DnsOrConnect), "dns_or_connect");
    assert_eq!(seeding_stop_reason("ratio_limit"), "ratio_limit");
    assert_eq!(seeding_stop_reason("free-form text with job ids should be collapsed"), "other");
}

#[test]
fn families_are_encoded_in_the_text_format() {
    let mut body = String::new();
    encode_family(
        &mut body,
        "ravyn_jobs_started_total",
        "Jobs whose execution started.",
        "counter",
        &[(label("engine", "http"), 3), (label("engine", "media"), 0)],
    );
    assert_eq!(
        body,
        "# HELP ravyn_jobs_started_total Jobs whose execution started.\n# TYPE ravyn_jobs_started_total counter\nravyn_jobs_started_total{engine=\"http\"} 3\nravyn_jobs_started_total{engine=\"media\"} 0\n"
    );
    let mut gauge = String::from("x\n");
    encode_family(&mut gauge, "ravyn_backlog", "Backlog.", "gauge", &[(String::new(), 42)]);
    assert_eq!(gauge, "x\n# HELP ravyn_backlog Backlog.\n# TYPE ravyn_backlog gauge\nravyn_backlog 42\n");
}

#[test]
fn temporary_files_are_recognised() {
    assert_eq!(temporary_entry("movie.mkv.ravyn.part", true, false, false), TemporaryEntry::Count);
    assert_eq!(temporary_entry("finished.mkv", true, false, false), TemporaryEntry::Ignore);
    assert_eq!(temporary_entry("finished.mkv", true, false, true), TemporaryEntry::Count);
    assert_eq!(temporary_entry(".ravyn-extract-abc", false, true, false), TemporaryEntry::Descend { count_all: true });
    assert_eq!(temporary_entry("sub", false, true, false), TemporaryEntry::Descend { count_all: false });
    assert_eq!(temporary_entry("link", false, false, true), TemporaryEntry::Ignore);
    assert!(temporary_scan_continues(6, 9_999));
    assert!(!temporary_scan_continues(7, 0));
    assert!(!temporary_scan_continues(0, 10_000));
}

#[test]
fn histogram_buckets_are_cumulative() {
    let mut h = Histogram::new(false);
    h.observe(300_000_000);
    h.observe(100_000_000);
    h.observe(1_000_000_000_000);
    assert_eq!(h.count(), 3);
    assert_eq!(h.sum_nanos(), 1_000_400_000_000);
    let counts: Vec<u64> = (0..HISTOGRAM_BUCKETS).map(|i| h.bucket(i)).collect();
    assert_eq!(counts, vec![1, 1, 2, 2, 2, 2, 2, 2, 2, 2]);
    assert_eq!(bucket_bound(false, 0), 100_000_000);
    assert_eq!(bucket_bound(true, 9), 5_000_000_000);
    let mut fast = Histogram::new(true);
    fast.observe(2_000_000);
    assert_eq!(fast.bucket(0), 0);
    assert_eq!(fast.bucket(1), 1);
}

#[test]
fn histogram_buckets_encode_cumulatively_with_their_bounds() {
    let mut h = Histogram::new(true);
    h.observe(3_000_000);
    h.observe(60_000_000_000);
    let mut body = String::new();
    encode_histogram_buckets(&mut body, "ravyn_dns_resolution_duration_seconds", "outcome=\"success\"", &h);
    let lines: Vec<&str> = body.lines().collect();
    assert_eq!(lines.len(), 11);
    assert_eq!(lines[0], "ravyn_dns_resolution_duration_seconds_bucket{outcome=\"success\",le=\"0.001\"} 0");
    assert_eq!(lines[2], "ravyn_dns_resolution_duration_seconds_bucket{outcome=\"success\",le=\"0.005\"} 1");
    assert_eq!(lines[9], "ravyn_dns_resolution_duration_seconds_bucket{outcome=\"success\",le=\"5\"} 1");
    assert_eq!(lines[10], "ravyn_dns_resolution_duration_seconds_bucket{outcome=\"success\",le=\"+Inf\"} 2");
    assert_eq!(bound_text(false, 3), "1");
    assert_eq!(bound_text(true, 1), "0.0025");
}
