//! Valve domain types: the actuator's observable state and the commands a
//! consumer may issue to it.

use vstd::prelude::*;

verus! {

/// Position or motion of the valve, when known. A cell usually holds
/// `Option<ValveState>`, with `None` for "unknown".
#[derive(Clone, Copy, Debug, PartialEq, Eq, Structural)]
pub enum ValveState {
    Open,
    Opening,
    Closed,
    Closing,
}

/// Command to the valve actuator task.
#[derive(Clone, Copy, Debug, PartialEq, Eq, Structural)]
pub enum ValveCommand {
    Open,
    Close,
}

} // verus!
