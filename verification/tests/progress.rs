use ravyn::models::ProgressSnapshot;
use ravyn::progress::{PendingProgress, FLUSH_THRESHOLD};

fn snapshot(job_id: u128, downloaded_bytes: u64) -> ProgressSnapshot {
    ProgressSnapshot { job_id, downloaded_bytes, total_bytes: Some(250), bytes_per_second: 1 }
}

#[test]
fn the_latest_update_per_job_is_kept() {
    let mut pending = PendingProgress::new();
    for downloaded in 1..=250_u64 {
        pending.insert(snapshot(7, downloaded));
    }
    pending.insert(snapshot(8, 3));
    assert_eq!(pending.len(), 2);
    let mut updates = pending.drain();
    updates.sort_by_key(|update| update.job_id);
    assert_eq!(updates, vec![snapshot(7, 250), snapshot(8, 3)]);
    assert_eq!(pending.len(), 0);
    assert!(pending.drain().is_empty());
}

#[test]
fn batches_flush_at_the_threshold() {
    let mut pending = PendingProgress::new();
    for job in 0..(FLUSH_THRESHOLD as u128 - 1) {
        pending.insert(snapshot(job, 1));
    }
    assert!(!pending.should_flush());
    pending.insert(snapshot(0, 2));
    assert!(!pending.should_flush());
    pending.insert(snapshot(10_000, 1));
    assert!(pending.should_flush());
}
