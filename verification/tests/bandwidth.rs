use ravyn::bandwidth::{FairBandwidthScheduler, FlowClass, FlowConfig};
use uuid::Uuid;

const CAPACITY: u64 = 1_000_000;

fn flow(weight: u32, class: FlowClass) -> FlowConfig {
    FlowConfig {
        weight,
        class,
        min_bps: None,
        max_bps: None,
    }
}

fn id() -> u128 {
    Uuid::new_v4().as_u128()
}

#[test]
fn shares_follow_weights() {
    let mut scheduler = FairBandwidthScheduler::new(CAPACITY);
    let a = id();
    let b = id();
    scheduler.register(a, flow(1, FlowClass::Foreground));
    scheduler.register(b, flow(3, FlowClass::Foreground));
    assert_eq!(scheduler.assigned_bps(a), Some(CAPACITY / 4));
    assert_eq!(scheduler.assigned_bps(b), Some(CAPACITY / 4 * 3));
}

#[test]
fn background_flows_yield_to_foreground_but_are_not_starved() {
    let mut scheduler = FairBandwidthScheduler::new(CAPACITY);
    let fg = id();
    let bg = id();
    scheduler.register(fg, flow(1, FlowClass::Foreground));
    scheduler.register(bg, flow(1, FlowClass::Background));
    let foreground = scheduler.assigned_bps(fg).unwrap();
    let background = scheduler.assigned_bps(bg).unwrap();
    assert_eq!(foreground, CAPACITY / 5 * 4);
    assert_eq!(background, CAPACITY / 5);
    assert!(background > 0);
}

#[test]
fn caps_are_respected_and_headroom_is_redistributed() {
    let mut scheduler = FairBandwidthScheduler::new(CAPACITY);
    let capped = id();
    let open = id();
    scheduler.register(
        capped,
        FlowConfig {
            max_bps: Some(100_000),
            ..flow(1, FlowClass::Foreground)
        },
    );
    scheduler.register(open, flow(1, FlowClass::Foreground));
    assert_eq!(scheduler.assigned_bps(capped), Some(100_000));
    assert_eq!(scheduler.assigned_bps(open), Some(CAPACITY - 100_000));
}

#[test]
fn floors_are_respected_against_heavy_competition() {
    let mut scheduler = FairBandwidthScheduler::new(CAPACITY);
    let heavy = id();
    let floored = id();
    scheduler.register(heavy, flow(1_000, FlowClass::Foreground));
    scheduler.register(
        floored,
        FlowConfig {
            min_bps: Some(200_000),
            ..flow(1, FlowClass::Background)
        },
    );
    assert_eq!(scheduler.assigned_bps(floored), Some(200_000));
    let heavy_rate = scheduler.assigned_bps(heavy).unwrap();
    assert!(heavy_rate <= CAPACITY - 200_000);
}

#[test]
fn overcommitted_floors_are_scaled_within_capacity() {
    let mut scheduler = FairBandwidthScheduler::new(CAPACITY);
    let ids: Vec<u128> = (0..4).map(|_| id()).collect();
    for flow_id in &ids {
        scheduler.register(
            *flow_id,
            FlowConfig {
                min_bps: Some(CAPACITY),
                ..flow(1, FlowClass::Foreground)
            },
        );
    }
    let total: u64 = ids.iter().map(|flow_id| scheduler.assigned_bps(*flow_id).unwrap()).sum();
    assert!(total <= CAPACITY, "assignments exceed capacity: {total}");
}

#[test]
fn capacity_smaller_than_flow_count_never_overcommits() {
    let mut scheduler = FairBandwidthScheduler::new(1);
    let ids: Vec<u128> = (0..4).map(|_| id()).collect();
    for flow_id in &ids {
        scheduler.register(*flow_id, flow(1, FlowClass::Foreground));
    }
    let total: u64 = ids.iter().map(|flow_id| scheduler.assigned_bps(*flow_id).unwrap()).sum();
    assert!(total <= 1, "assignments exceed tiny capacity: {total}");
}

#[test]
fn assignments_never_exceed_capacity() {
    let mut scheduler = FairBandwidthScheduler::new(CAPACITY);
    let ids: Vec<u128> = (0..7).map(|_| id()).collect();
    for (index, flow_id) in ids.iter().enumerate() {
        scheduler.register(
            *flow_id,
            FlowConfig {
                weight: index as u32 + 1,
                class: if index % 2 == 0 {
                    FlowClass::Foreground
                } else {
                    FlowClass::Background
                },
                min_bps: (index % 3 == 0).then_some(50_000),
                max_bps: (index % 4 == 0).then_some(120_000),
            },
        );
    }
    let total: u64 = ids.iter().map(|flow_id| scheduler.assigned_bps(*flow_id).unwrap()).sum();
    assert!(total <= CAPACITY, "assignments exceed capacity: {total}");
}

#[test]
fn unlimited_capacity_applies_only_explicit_caps() {
    let mut scheduler = FairBandwidthScheduler::new(0);
    let capped = id();
    let open = id();
    scheduler.register(
        capped,
        FlowConfig {
            max_bps: Some(250_000),
            ..flow(1, FlowClass::Foreground)
        },
    );
    scheduler.register(open, flow(1, FlowClass::Foreground));
    assert_eq!(scheduler.assigned_bps(capped), Some(250_000));
    assert_eq!(scheduler.assigned_bps(open), Some(0));
}

#[test]
fn live_reconfiguration_updates_assignments() {
    let mut scheduler = FairBandwidthScheduler::new(CAPACITY);
    let a = id();
    let b = id();
    scheduler.register(a, flow(1, FlowClass::Foreground));
    scheduler.register(b, flow(1, FlowClass::Foreground));
    assert_eq!(scheduler.assigned_bps(a), Some(CAPACITY / 2));

    scheduler.set_capacity_bps(CAPACITY / 2);
    assert_eq!(scheduler.assigned_bps(a), Some(CAPACITY / 4));

    scheduler.reconfigure(a, flow(3, FlowClass::Foreground));
    assert_eq!(scheduler.assigned_bps(a), Some(CAPACITY / 2 / 4 * 3));

    scheduler.unregister(b);
    assert_eq!(scheduler.assigned_bps(a), Some(CAPACITY / 2));
    assert_eq!(scheduler.flow_count(), 1);
}

#[test]
fn unknown_flows_have_no_assignment() {
    let mut scheduler = FairBandwidthScheduler::new(CAPACITY);
    let a = id();
    scheduler.register(a, flow(1, FlowClass::Foreground));
    assert_eq!(scheduler.assigned_bps(a.wrapping_add(1)), None);
    scheduler.unregister(a);
    assert_eq!(scheduler.assigned_bps(a), None);
    assert_eq!(scheduler.flow_count(), 0);
}

#[test]
fn a_configured_floor_below_capacity_is_always_met() {
    let mut scheduler = FairBandwidthScheduler::new(CAPACITY);
    let floored = id();
    scheduler.register(
        floored,
        FlowConfig {
            min_bps: Some(300_000),
            ..flow(1, FlowClass::Background)
        },
    );
    for _ in 0..5 {
        scheduler.register(id(), flow(50, FlowClass::Foreground));
    }
    assert!(scheduler.assigned_bps(floored).unwrap() >= 300_000);
}

#[test]
fn weight_multipliers_favour_foreground() {
    assert_eq!(FlowClass::Foreground.weight_multiplier(), 4);
    assert_eq!(FlowClass::Background.weight_multiplier(), 1);
    let default = FlowConfig::default();
    assert_eq!(default.weight, 1);
    assert_eq!(default.class, FlowClass::Foreground);
    assert_eq!(default.min_bps, None);
    assert_eq!(default.max_bps, None);
}

#[test]
fn a_pinned_floor_leaves_less_for_capped_flows() {
    let mut scheduler = FairBandwidthScheduler::new(CAPACITY);
    let capped = id();
    let floored = id();
    scheduler.register(
        capped,
        FlowConfig { weight: 1, class: FlowClass::Foreground, min_bps: None, max_bps: Some(500_000) },
    );
    scheduler.register(
        floored,
        FlowConfig { weight: 1, class: FlowClass::Foreground, min_bps: Some(600_000), max_bps: None },
    );
    assert_eq!(scheduler.assigned_bps(floored), Some(600_000));
    assert_eq!(scheduler.assigned_bps(capped), Some(400_000));
}
