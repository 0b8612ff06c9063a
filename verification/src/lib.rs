//! Camera popups driven by Frigate NVR events: the decision logic of the tray app.
//!
//! Everything here is free of windows, brokers and clocks. Time is passed in as a
//! nanosecond reading of a monotonic clock, configuration as plain values, and every
//! decision comes back as data for the caller to act on.

pub mod text;
pub mod config;
pub mod lifecycle;
pub mod keyed;
pub mod json;
pub mod events;
pub mod cli;
pub mod mqtt;
pub mod windows;
pub mod picker;
pub mod tray;
pub mod launch;
