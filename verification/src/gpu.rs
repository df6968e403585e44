//! The GPU adapter's model and decisions: the detected device counts per
//! vendor and the duty validation before an apply call. The NVML, SMI and
//! sysfs I/O is the caller's.

use vstd::prelude::*;

use crate::device::Device;
use crate::error::CCError;

verus! {

/// The GPU vendors the engine distinguishes.
#[derive(Debug, Clone, Copy, PartialEq, Eq, Structural)]
pub enum GpuType {
    Nvidia,
    AMD,
}

/// The repository of discovered GPU devices and the per-vendor counts the
/// detection yielded.
pub struct GpuRepo {
    pub devices: Vec<Device>,
    pub nvidia_count: u8,
    pub amd_count: u8,
}

impl GpuRepo {
    pub fn new() -> (r: GpuRepo)
        ensures
            r.devices@.len() == 0,
            r.nvidia_count == 0,
            r.amd_count == 0,
    {
        GpuRepo { devices: Vec::new(), nvidia_count: 0, amd_count: 0 }
    }

    /// Records the detection outcome the caller's probes produced.
    pub fn detect_gpu_types(&mut self, nvidia_devices: u8, amd_devices: u8)
        ensures
            final(self).nvidia_count == nvidia_devices,
            final(self).amd_count == amd_devices,
            final(self).devices == old(self).devices,
    {
        self.nvidia_count = nvidia_devices;
        self.amd_count = amd_devices;
    }

    /// The total number of detected GPUs; the caller warns when none was.
    pub fn gpu_count(&self) -> (r: u16)
        ensures
            r == self.nvidia_count + self.amd_count,
    {
        (self.nvidia_count as u16) + (self.amd_count as u16)
    }

    /// The type index the first NVIDIA device gets: right after the AMD
    /// devices.
    pub fn starting_nvidia_index(&self) -> (r: u16)
        ensures
            r == self.amd_count + 1,
    {
        (self.amd_count as u16) + 1
    }
}

/// Validates a fixed-duty request before the vendor call: only duties up
/// to 100 reach a device.
pub fn validate_speed_fixed(speed_fixed: u8) -> (r: Result<u8, CCError>)
    ensures
        speed_fixed <= 100 <==> r == Ok::<u8, CCError>(speed_fixed),
        speed_fixed > 100 <==> (r matches Err(e) && e.is_user_error()),
{
    if speed_fixed > 100 {
        Err(CCError::UserError { msg: "Invalid fixed_speed".to_owned() })
    } else {
        Ok(speed_fixed)
    }
}

} // verus!
