//! Capture through PipeWire: wiring, device and process listing, hotplug.

pub mod ports;
pub mod registry;
pub mod router;
pub mod devices;
pub mod watch;
pub mod processes;
pub mod capture;
pub mod backend;
