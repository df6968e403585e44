//! Closed-loop fan-control engine: devices and their status history, the
//! profile-evaluation processor chain (hysteresis, exponential smoothing,
//! graph interpolation, duty thresholds and the safety latch), custom
//! synthetic sensors, and the text parsing behind device discovery.

pub mod case;
pub mod chain;
pub mod cpu;
pub mod custom_sensors;
pub mod device;
pub mod ema;
pub mod error;
pub mod gpu;
pub mod graph;
pub mod hwmon;
pub mod liquidctl;
pub mod postprocessors;
pub mod processors;
pub mod profile;
pub mod setting;
pub mod statemap;
pub mod supported_devices;
pub mod text;

pub use error::CCError;
