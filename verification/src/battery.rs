//! Battery domain types: a snapshot of measured voltage and powered flag,
//! each with its previous value, and the thresholds the alerts are derived
//! from.

use vstd::prelude::*;

verus! {

/// One snapshot of the battery monitor. Voltage and powered flag are `None`
/// until first measured; each field comes with its previous value so a
/// consumer can see what changed.
#[derive(Clone, Copy, Debug, PartialEq, Eq, Structural)]
pub struct BatteryState {
    pub prev_voltage: Option<u16>,
    pub voltage: Option<u16>,
    pub prev_powered: Option<bool>,
    pub powered: Option<bool>,
}

impl BatteryState {
    /// Millivolts below or at which the battery counts as low.
    pub const LOW_VOLTAGE: u16 = 3000;

    /// Millivolts at or above which the battery counts as fully charged.
    pub const MAX_VOLTAGE: u16 = 4200;

    /// A snapshot with nothing measured yet.
    pub fn new() -> (r: BatteryState)
        ensures
            r.prev_voltage is None,
            r.voltage is None,
            r.prev_powered is None,
            r.powered is None,
    {
        BatteryState { prev_voltage: None, voltage: None, prev_powered: None, powered: None }
    }
}

} // verus!
