use ravyn::planner::{adaptive_segment_count, profile_adjusted_segment_count};

#[test]
fn small_files_use_one_segment() {
    assert_eq!(adaptive_segment_count(1024, 16, 16), 1);
}

#[test]
fn caller_and_global_caps_are_respected() {
    assert_eq!(adaptive_segment_count(1024 * 1024 * 1024, 3, 16), 3);
    assert_eq!(adaptive_segment_count(1024 * 1024 * 1024, 16, 5), 5);
}

#[test]
fn unreliable_hosts_are_throttled() {
    assert_eq!(profile_adjusted_segment_count(8, 2, 0, None), 2);
    assert_eq!(profile_adjusted_segment_count(8, 0, 3, None), 2);
}

#[test]
fn slow_hosts_use_fewer_streams() {
    assert_eq!(profile_adjusted_segment_count(8, 0, 0, Some(512_000)), 3);
}

#[test]
fn size_tiers_choose_the_segment_count() {
    assert_eq!(adaptive_segment_count(8_388_607, 16, 16), 1);
    assert_eq!(adaptive_segment_count(8_388_608, 16, 16), 2);
    assert_eq!(adaptive_segment_count(33_554_432, 16, 16), 4);
    assert_eq!(adaptive_segment_count(134_217_728, 16, 16), 6);
    assert_eq!(adaptive_segment_count(536_870_912, 16, 16), 8);
    assert_eq!(adaptive_segment_count(u64::MAX, 0, 0), 1);
}

#[test]
fn fast_reliable_hosts_keep_their_base() {
    assert_eq!(profile_adjusted_segment_count(8, 1, 2, Some(4 * 1024 * 1024)), 8);
    assert_eq!(profile_adjusted_segment_count(0, 0, 0, None), 1);
    assert_eq!(profile_adjusted_segment_count(1, 5, 5, None), 1);
}
