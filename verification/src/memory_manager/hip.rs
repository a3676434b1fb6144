//! Parameters of HIP virtual-memory calls.

use vstd::prelude::*;

verus! {

/// `hipMemLocationTypeDevice`.
pub const HIP_MEM_LOCATION_TYPE_DEVICE: u32 = 1;

/// `hipMemAccessFlagsProtReadWrite`.
pub const HIP_MEM_ACCESS_FLAGS_PROT_READ_WRITE: u32 = 3;

/// Memory access description for HIP virtual memory (the fields of
/// `hipMemAccessDesc`).
#[derive(Debug, Clone, Copy)]
pub struct HipMemAccessDesc {
    pub location_type: u32,
    pub location_id: i32,
    pub flags: u32,
}

impl HipMemAccessDesc {
    /// Read-write access for the device `device_id`.
    pub fn new_read_write(device_id: i32) -> (d: HipMemAccessDesc)
        ensures
            d.location_type == HIP_MEM_LOCATION_TYPE_DEVICE,
            d.location_id == device_id,
            d.flags == HIP_MEM_ACCESS_FLAGS_PROT_READ_WRITE,
    {
        HipMemAccessDesc {
            location_type: HIP_MEM_LOCATION_TYPE_DEVICE,
            location_id: device_id,
            flags: HIP_MEM_ACCESS_FLAGS_PROT_READ_WRITE,
        }
    }
}

} // verus!
