//! Summary screen logic: remembers what was last drawn and decides, for
//! each incoming snapshot, what must be redrawn and with which values.
//! The rendering itself — shapes, transforms, the draw target — happens
//! outside the verified core, driven by the plan computed here.

use vstd::prelude::*;

use crate::battery::BatteryState;
use crate::valve::ValveState;
use crate::water_meter::WaterMeterState;

verus! {

/// What one summary refresh must draw: `None` per part means that part is
/// unchanged and stays as drawn.
#[derive(Clone, Copy, Debug, PartialEq, Eq, Structural)]
pub struct DrawPlan {
    /// Redraw the valve part with this state.
    pub valve: Option<Option<ValveState>>,
    /// Redraw the water-meter counter with this edge count.
    pub water_meter_edges: Option<u64>,
    /// Redraw the battery gauge with this percentage (`None` inside means
    /// the voltage is not yet measured).
    pub battery_percentage: Option<Option<u8>>,
}

/// The battery gauge percentage for a measured voltage, against the sum of
/// the two thresholds, truncated to a byte.
pub open spec fn spec_battery_percentage(voltage: u16) -> u8 {
    ((voltage * 100) / (BatteryState::MAX_VOLTAGE + BatteryState::LOW_VOLTAGE)) as u8
}

/// Compute the battery gauge percentage.
pub fn battery_percentage(voltage: u16) -> (r: u8)
    ensures
        r == spec_battery_percentage(voltage),
{
    #[verifier::truncate]
    let r = ((voltage as u32 * 100) / (BatteryState::MAX_VOLTAGE as u32
        + BatteryState::LOW_VOLTAGE as u32)) as u8;
    r
}

/// The summary page: keeps the last drawn value of each part.
pub struct Summary {
    valve_state: Option<Option<ValveState>>,
    water_meter_state: Option<WaterMeterState>,
    battery_state: Option<BatteryState>,
}

impl Summary {
    /// The last drawn valve state, if any was drawn yet.
    pub closed spec fn valve_state(&self) -> Option<Option<ValveState>> {
        self.valve_state
    }

    /// The last drawn water-meter snapshot, if any was drawn yet.
    pub closed spec fn water_meter_state(&self) -> Option<WaterMeterState> {
        self.water_meter_state
    }

    /// The last drawn battery snapshot, if any was drawn yet.
    pub closed spec fn battery_state(&self) -> Option<BatteryState> {
        self.battery_state
    }

    /// A page with nothing drawn yet: the first refresh draws everything.
    pub fn new() -> (r: Summary)
        ensures
            r.valve_state() is None,
            r.water_meter_state() is None,
            r.battery_state() is None,
    {
        Summary { valve_state: None, water_meter_state: None, battery_state: None }
    }

    /// Decide what one refresh with the given snapshots must draw: each
    /// part exactly when it differs from what was last drawn, and record
    /// the new values as drawn.
    pub fn plan(
        &mut self,
        valve_state: Option<ValveState>,
        water_meter_state: WaterMeterState,
        battery_state: BatteryState,
    ) -> (p: DrawPlan)
        ensures
            p.valve == (if old(self).valve_state() != Some(valve_state) {
                Some(valve_state)
            } else {
                None::<Option<ValveState>>
            }),
            p.water_meter_edges == (if old(self).water_meter_state() != Some(water_meter_state) {
                Some(water_meter_state.edges_count)
            } else {
                None::<u64>
            }),
            p.battery_percentage == (if old(self).battery_state() != Some(battery_state) {
                Some(
                    match battery_state.voltage {
                        Some(v) => Some(spec_battery_percentage(v)),
                        None => None::<u8>,
                    },
                )
            } else {
                None::<Option<u8>>
            }),
            final(self).valve_state() == Some(valve_state),
            final(self).water_meter_state() == Some(water_meter_state),
            final(self).battery_state() == Some(battery_state),
    {
        let valve_changed = match self.valve_state {
            None => true,
            Some(last) => last != valve_state,
        };
        self.valve_state = Some(valve_state);

        let wm_changed = match self.water_meter_state {
            None => true,
            Some(last) => last != water_meter_state,
        };
        self.water_meter_state = Some(water_meter_state);

        let battery_changed = match self.battery_state {
            None => true,
            Some(last) => last != battery_state,
        };
        self.battery_state = Some(battery_state);

        DrawPlan {
            valve: if valve_changed {
                Some(valve_state)
            } else {
                None
            },
            water_meter_edges: if wm_changed {
                Some(water_meter_state.edges_count)
            } else {
                None
            },
            battery_percentage: if battery_changed {
                Some(
                    match battery_state.voltage {
                        Some(v) => Some(battery_percentage(v)),
                        None => None,
                    },
                )
            } else {
                None
            },
        }
    }
}

} // verus!
