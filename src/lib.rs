//! Discovery-side logic for accelerator devices: per-core occupancy from
//! device-file probes, and greedy allocation of device files to a request.
pub mod device;
pub mod find;
pub mod status;

pub use device::{Arch, CoreIdx, CoreStatus, Device, DeviceFile, DeviceMode};
pub use find::{find_devices_in, DeviceConfig, DeviceWithStatus, WarboyConfigBuilder};
pub use status::{expand_status, find_devices, get_status_all};
