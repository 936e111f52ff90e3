use ruwm::battery::BatteryState;
use ruwm::mqtt::{
    battery_publications, commands_subscription_topic, concat_bytes, needs_ack,
    sender_publications, valve_publications, valve_status_payload, water_meter_publications,
    Publication, QoS,
};
use ruwm::valve::ValveState;
use ruwm::water_meter::WaterMeterState;

fn steady_meter() -> WaterMeterState {
    WaterMeterState {
        prev_edges_count: 10,
        edges_count: 10,
        prev_armed: true,
        armed: true,
        prev_leaking: false,
        leaking: false,
    }
}

fn steady_battery() -> BatteryState {
    BatteryState {
        prev_voltage: Some(3500),
        voltage: Some(3500),
        prev_powered: Some(false),
        powered: Some(false),
    }
}

fn topics(pubs: &[Publication]) -> Vec<&[u8]> {
    pubs.iter().map(|p| p.topic.as_slice()).collect()
}

#[test]
fn valve_status_text_covers_every_state() {
    assert_eq!(valve_status_payload(Some(ValveState::Open)), b"open".to_vec());
    assert_eq!(valve_status_payload(Some(ValveState::Opening)), b"opening".to_vec());
    assert_eq!(valve_status_payload(Some(ValveState::Closed)), b"closed".to_vec());
    assert_eq!(valve_status_payload(Some(ValveState::Closing)), b"closing".to_vec());
    assert_eq!(valve_status_payload(None), b"unknown".to_vec());
}

#[test]
fn valve_snapshot_always_publishes_at_least_once() {
    let pubs = valve_publications(b"x", Some(ValveState::Open));
    assert_eq!(pubs.len(), 1);
    assert_eq!(pubs[0].topic, b"x/valve".to_vec());
    assert_eq!(pubs[0].qos, QoS::AtLeastOnce);
    assert_eq!(pubs[0].payload, b"open".to_vec());
}

#[test]
fn meter_publishes_only_changed_fields() {
    let mut s = steady_meter();
    assert_eq!(water_meter_publications(b"x", &s).len(), 0);

    s.edges_count = 11;
    let pubs = water_meter_publications(b"x", &s);
    assert_eq!(pubs.len(), 1);
    assert_eq!(pubs[0].topic, b"x/meter/edges".to_vec());
    assert_eq!(pubs[0].qos, QoS::AtLeastOnce);
    assert_eq!(pubs[0].payload, 11u64.to_le_bytes().to_vec());
}

#[test]
fn meter_armed_change_publishes_true_false_text() {
    let mut s = steady_meter();
    s.prev_armed = false;
    let pubs = water_meter_publications(b"x", &s);
    assert_eq!(pubs.len(), 1);
    assert_eq!(pubs[0].topic, b"x/meter/armed".to_vec());
    assert_eq!(pubs[0].payload, b"true".to_vec());
}

#[test]
fn meter_leak_change_publishes_armed_value_as_observed() {
    let mut s = steady_meter();
    s.prev_leaking = false;
    s.leaking = true;
    s.armed = true;
    s.prev_armed = true;
    let pubs = water_meter_publications(b"x", &s);
    assert_eq!(pubs.len(), 1);
    assert_eq!(pubs[0].topic, b"x/meter/leak".to_vec());
    assert_eq!(pubs[0].payload, b"true".to_vec());
}

#[test]
fn battery_voltage_change_publishes_at_most_once() {
    let mut s = steady_battery();
    s.prev_voltage = Some(3400);
    let pubs = battery_publications(b"x", &s);
    assert_eq!(pubs.len(), 1);
    assert_eq!(pubs[0].topic, b"x/battery/voltage".to_vec());
    assert_eq!(pubs[0].qos, QoS::AtMostOnce);
    assert_eq!(pubs[0].payload, 3500u16.to_le_bytes().to_vec());
}

#[test]
fn low_alert_fires_only_on_threshold_crossing() {
    // Voltage sequence 3000 -> 3100 -> 2900 against LOW_VOLTAGE == 3000.
    let first = BatteryState {
        prev_voltage: Some(3000),
        voltage: Some(3100),
        prev_powered: Some(false),
        powered: Some(false),
    };
    let pubs1 = battery_publications(b"x", &first);
    // 3000 is not above the threshold, 3100 is: a crossing, but low=false.
    assert_eq!(
        topics(&pubs1),
        vec![b"x/battery/voltage".as_slice(), b"x/battery/low".as_slice()]
    );
    assert_eq!(pubs1[1].payload, b"false".to_vec());
    assert_eq!(pubs1[1].qos, QoS::AtLeastOnce);

    let second = BatteryState {
        prev_voltage: Some(3100),
        voltage: Some(2900),
        prev_powered: Some(false),
        powered: Some(false),
    };
    let pubs2 = battery_publications(b"x", &second);
    // 3100 -> 2900 crosses downward: the only low=true publication.
    assert_eq!(
        topics(&pubs2),
        vec![b"x/battery/voltage".as_slice(), b"x/battery/low".as_slice()]
    );
    assert_eq!(pubs2[1].payload, b"true".to_vec());
}

#[test]
fn no_low_alert_without_crossing() {
    let s = BatteryState {
        prev_voltage: Some(3200),
        voltage: Some(3100),
        prev_powered: Some(false),
        powered: Some(false),
    };
    let pubs = battery_publications(b"x", &s);
    assert_eq!(topics(&pubs), vec![b"x/battery/voltage".as_slice()]);
}

#[test]
fn charged_alert_fires_on_full_threshold_crossing() {
    let s = BatteryState {
        prev_voltage: Some(4100),
        voltage: Some(4200),
        prev_powered: Some(false),
        powered: Some(false),
    };
    let pubs = battery_publications(b"x", &s);
    assert_eq!(
        topics(&pubs),
        vec![b"x/battery/voltage".as_slice(), b"x/battery/charged".as_slice()]
    );
    assert_eq!(pubs[1].payload, b"true".to_vec());
    assert_eq!(pubs[1].qos, QoS::AtMostOnce);
}

#[test]
fn powered_change_publishes_flag() {
    let mut s = steady_battery();
    s.prev_powered = Some(true);
    let pubs = battery_publications(b"x", &s);
    assert_eq!(pubs.len(), 1);
    assert_eq!(pubs[0].topic, b"x/powered".to_vec());
    assert_eq!(pubs[0].qos, QoS::AtMostOnce);
    assert_eq!(pubs[0].payload, b"false".to_vec());
}

#[test]
fn unmeasured_voltage_publishes_nothing() {
    let s = BatteryState {
        prev_voltage: Some(3000),
        voltage: None,
        prev_powered: Some(false),
        powered: Some(false),
    };
    assert_eq!(battery_publications(b"x", &s).len(), 0);
}

#[test]
fn sender_publications_joins_the_ready_branches() {
    let mut meter = steady_meter();
    meter.edges_count = 11;
    let pubs = sender_publications(b"x", Some(Some(ValveState::Closed)), Some(meter), None);
    assert_eq!(
        topics(&pubs),
        vec![b"x/valve".as_slice(), b"x/meter/edges".as_slice()]
    );
    assert_eq!(pubs[0].payload, b"closed".to_vec());
}

#[test]
fn sender_with_no_ready_branch_publishes_nothing() {
    assert_eq!(sender_publications(b"x", None, None, None).len(), 0);
}

#[test]
fn ack_tracking_follows_qos() {
    assert!(!needs_ack(QoS::AtMostOnce));
    assert!(needs_ack(QoS::AtLeastOnce));
    assert!(needs_ack(QoS::ExactlyOnce));
}

#[test]
fn subscription_topic_appends_wildcard() {
    assert_eq!(commands_subscription_topic(b"home/water"), b"home/water/commands/#".to_vec());
}

#[test]
fn concat_bytes_joins_in_order() {
    assert_eq!(concat_bytes(b"ab", b"cd"), b"abcd".to_vec());
    assert_eq!(concat_bytes(b"", b"cd"), b"cd".to_vec());
    assert_eq!(concat_bytes(b"ab", b""), b"ab".to_vec());
}
