use ruwm::battery::BatteryState;
use ruwm::screen::{battery_percentage, Summary};
use ruwm::valve::ValveState;
use ruwm::water_meter::WaterMeterState;

fn meter(edges: u64) -> WaterMeterState {
    WaterMeterState {
        prev_edges_count: edges,
        edges_count: edges,
        prev_armed: false,
        armed: false,
        prev_leaking: false,
        leaking: false,
    }
}

fn battery(voltage: Option<u16>) -> BatteryState {
    BatteryState { prev_voltage: voltage, voltage, prev_powered: None, powered: None }
}

#[test]
fn first_refresh_draws_everything() {
    let mut page = Summary::new();
    let plan = page.plan(Some(ValveState::Open), meter(3), battery(Some(3600)));
    assert_eq!(plan.valve, Some(Some(ValveState::Open)));
    assert_eq!(plan.water_meter_edges, Some(3));
    // 3600 * 100 / (4200 + 3000) == 50.
    assert_eq!(plan.battery_percentage, Some(Some(50)));
}

#[test]
fn unchanged_snapshots_draw_nothing() {
    let mut page = Summary::new();
    page.plan(Some(ValveState::Open), meter(3), battery(Some(3600)));
    let plan = page.plan(Some(ValveState::Open), meter(3), battery(Some(3600)));
    assert_eq!(plan.valve, None);
    assert_eq!(plan.water_meter_edges, None);
    assert_eq!(plan.battery_percentage, None);
}

#[test]
fn only_the_changed_part_is_redrawn() {
    let mut page = Summary::new();
    page.plan(Some(ValveState::Open), meter(3), battery(Some(3600)));
    let plan = page.plan(Some(ValveState::Closed), meter(3), battery(Some(3600)));
    assert_eq!(plan.valve, Some(Some(ValveState::Closed)));
    assert_eq!(plan.water_meter_edges, None);
    assert_eq!(plan.battery_percentage, None);
}

#[test]
fn unmeasured_voltage_draws_an_empty_gauge() {
    let mut page = Summary::new();
    let plan = page.plan(None, meter(0), battery(None));
    assert_eq!(plan.valve, Some(None));
    assert_eq!(plan.battery_percentage, Some(None));
}

#[test]
fn battery_percentage_is_scaled_against_both_thresholds() {
    assert_eq!(battery_percentage(3600), 50);
    assert_eq!(battery_percentage(0), 0);
    assert_eq!(battery_percentage(7200), 100);
    // Values past the scale truncate to a byte, as the gauge draws them.
    assert_eq!(battery_percentage(65535), ((65535u32 * 100 / 7200) % 256) as u8);
}
