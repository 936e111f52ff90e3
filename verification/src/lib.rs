//! Core of a water-valve controller firmware: lock-free "latest value wins"
//! state distribution primitives (Notification, Signal, State), the channel
//! adapters built over them, the MQTT bridge logic (topic dispatch, chunked
//! payload reassembly, change-driven publication policy), and the keepalive
//! watchdog state machine.
//!
//! All timing is modeled in plain milliseconds, topics and payloads as byte
//! vectors; the async executor, transport and hardware glue live outside the
//! verified core and drive these types through their step functions.

pub mod battery;
pub mod keepalive;
pub mod mqtt;
pub mod screen;
pub mod notification;
pub mod signal;
pub mod state;
pub mod utils;
pub mod valve;
pub mod water_meter;
