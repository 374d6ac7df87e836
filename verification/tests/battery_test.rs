use webtop::collector::battery::{read_internal_battery, time_remaining_sec, BatteryRegistryValues, PowerSource};

fn source(kind: &str, current: i64, max: i64, charging: bool, state: &str) -> PowerSource {
    PowerSource {
        kind: Some(kind.to_string()),
        current_capacity: Some(current),
        max_capacity: Some(max),
        is_charging: Some(charging),
        power_state: Some(state.to_string()),
        minutes_to_full: Some(45),
        minutes_to_empty: Some(300),
        voltage_mv: Some(12_500),
        current_ma: Some(-1_200),
    }
}

fn registry() -> BatteryRegistryValues {
    BatteryRegistryValues {
        cycle_count: Some(412),
        design_capacity: Some(8_579),
        max_capacity: Some(7_900),
        voltage_mv: Some(12_000),
        amperage_ma: Some(-900),
    }
}

#[test]
fn the_internal_battery_is_found_behind_other_sources() {
    let sources = vec![
        Some(source("UPS", 50, 100, false, "AC Power")),
        Some(source("InternalBattery", 80, 100, false, "Battery Power")),
    ];
    let r = read_internal_battery(&sources, &registry()).unwrap();
    assert_eq!(r.current_capacity, 80);
    assert_eq!(r.max_capacity, 100);
    assert!(!r.is_charging);
    assert!(!r.is_plugged_in);
    assert_eq!(r.time_remaining_sec, Some(300 * 60));
    assert_eq!(r.cycle_count, Some(412));
    assert_eq!(r.voltage_mv, Some(12_500));
    assert_eq!(r.amperage_ma, Some(-1_200));
}

#[test]
fn charging_reports_time_to_full_and_plugged_in() {
    let sources = vec![Some(source("InternalBattery", 30, 100, true, "AC Power"))];
    let r = read_internal_battery(&sources, &registry()).unwrap();
    assert!(r.is_charging);
    assert!(r.is_plugged_in);
    assert_eq!(r.time_remaining_sec, Some(45 * 60));
}

#[test]
fn no_internal_battery_means_nothing_to_report() {
    let sources = vec![Some(source("UPS", 50, 100, false, "AC Power"))];
    assert!(read_internal_battery(&sources, &registry()).is_none());
    assert!(read_internal_battery(&Vec::new(), &registry()).is_none());
}

#[test]
fn an_unreadable_description_before_the_battery_ends_the_search() {
    let sources = vec![None, Some(source("InternalBattery", 80, 100, false, "Battery Power"))];
    assert!(read_internal_battery(&sources, &registry()).is_none());
}

#[test]
fn a_battery_without_a_positive_maximum_is_not_reported() {
    let zero = vec![Some(source("InternalBattery", 0, 0, false, "Battery Power"))];
    assert!(read_internal_battery(&zero, &registry()).is_none());
    let mut missing = source("InternalBattery", 80, 100, false, "Battery Power");
    missing.current_capacity = None;
    assert!(read_internal_battery(&vec![Some(missing)], &registry()).is_none());
}

#[test]
fn missing_description_values_fall_back_to_the_registry() {
    let mut s = source("InternalBattery", 80, 100, false, "Battery Power");
    s.voltage_mv = None;
    s.current_ma = None;
    s.is_charging = None;
    let r = read_internal_battery(&vec![Some(s)], &registry()).unwrap();
    assert!(!r.is_charging);
    assert_eq!(r.voltage_mv, Some(12_000));
    assert_eq!(r.amperage_ma, Some(-900));
}

#[test]
fn an_out_of_range_cycle_count_is_dropped() {
    let mut reg = registry();
    reg.cycle_count = Some(-1);
    let sources = vec![Some(source("InternalBattery", 80, 100, false, "Battery Power"))];
    assert_eq!(read_internal_battery(&sources, &reg).unwrap().cycle_count, None);
}

#[test]
fn remaining_minutes_become_seconds() {
    assert_eq!(time_remaining_sec(Some(0)), Some(0));
    assert_eq!(time_remaining_sec(Some(90)), Some(5_400));
    assert_eq!(time_remaining_sec(Some(-1)), None);
    assert_eq!(time_remaining_sec(None), None);
    assert_eq!(time_remaining_sec(Some(100_000_000)), Some(u32::MAX));
    assert_eq!(time_remaining_sec(Some(5_000_000_000)), None);
}
