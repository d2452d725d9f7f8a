//! Core logic of a battery monitor for wireless peripherals: device
//! enumeration and diffing against a static descriptor table, per-device
//! battery state tracking, the edge-triggered notification policy, icon
//! selection, and the polling scheduler's decisions.
//!
//! All hardware access, OS notifications and tray-icon rendering live
//! outside this crate; the functions here work on plain values handed in
//! by that outer layer.

pub mod manager;
pub mod notify;
pub mod tray;
