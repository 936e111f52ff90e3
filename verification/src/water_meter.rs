//! Water-meter domain types: a snapshot carrying both current and previous
//! field values, so consumers detect edges without separate history, and
//! the commands a consumer may issue.

use vstd::prelude::*;

verus! {

/// One snapshot of the water meter. Each field comes with its previous
/// value so a consumer can see what changed.
#[derive(Clone, Copy, Debug, PartialEq, Eq, Structural)]
pub struct WaterMeterState {
    pub prev_edges_count: u64,
    pub edges_count: u64,
    pub prev_armed: bool,
    pub armed: bool,
    pub prev_leaking: bool,
    pub leaking: bool,
}

/// Command to the water-meter task: arm or disarm flow watching.
#[derive(Clone, Copy, Debug, PartialEq, Eq, Structural)]
pub enum WaterMeterCommand {
    Arm,
    Disarm,
}

} // verus!
