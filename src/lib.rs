//! Display hotplug daemon core: connector snapshots, transition detection
//! and the planning of layout actions.
//!
//! Everything here is pure: reading sysfs, spawning commands and sleeping
//! between polls are left to the program that drives the library.

pub mod apply;
pub mod detect;
pub mod registry;
pub mod sample;
pub mod snapshot;
pub mod text;
