//! The decisions of host/device copies: the direction of a copy and the
//! length check before a host-to-device copy. The copies themselves are
//! device calls made by the caller.

use vstd::prelude::*;
use crate::error::MemCopyError;

verus! {

/// The direction of a memory copy (HIP's `hipMemcpyKind`).
#[derive(Debug, Clone, Copy, PartialEq, Eq, Structural)]
pub enum MemcpyKind {
    HostToHost,
    HostToDevice,
    DeviceToHost,
    DeviceToDevice,
}

/// The copy direction for a source and a destination that each live on
/// the host or on the device.
pub fn memcpy_kind(src_device: bool, dst_device: bool) -> (k: MemcpyKind)
    ensures
        !src_device && !dst_device ==> k == MemcpyKind::HostToHost,
        !src_device && dst_device ==> k == MemcpyKind::HostToDevice,
        src_device && !dst_device ==> k == MemcpyKind::DeviceToHost,
        src_device && dst_device ==> k == MemcpyKind::DeviceToDevice,
{
    match (src_device, dst_device) {
        (false, false) => MemcpyKind::HostToHost,
        (false, true) => MemcpyKind::HostToDevice,
        (true, false) => MemcpyKind::DeviceToHost,
        (true, true) => MemcpyKind::DeviceToDevice,
    }
}

/// Checks that `host_len` elements fit a device buffer of `device_len`
/// elements before a host-to-device copy.
pub fn check_copy_to_device(host_len: usize, device_len: usize) -> (r: Result<(), MemCopyError>)
    ensures
        host_len <= device_len ==> r is Ok,
        host_len > device_len ==> (r matches Err(MemCopyError::SizeMismatch { operation, host_len: h, device_len: d })
            && operation@ == "copy_to_device"@ && h == host_len && d == device_len),
{
    if host_len > device_len {
        return Err(MemCopyError::SizeMismatch { operation: "copy_to_device", host_len, device_len });
    }
    Ok(())
}

/// A device-to-host copy in flight: the host buffer it fills and the
/// number of elements it will hold once the copy has completed.
pub struct PendingD2H<T> {
    host_vec: Vec<T>,
    len: usize,
}

impl<T> PendingD2H<T> {
    pub closed spec fn expected_len(&self) -> nat {
        self.len as nat
    }

    pub closed spec fn buffer(&self) -> Seq<T> {
        self.host_vec@
    }

    /// A pending copy into `host_vec` of `len` elements.
    pub fn new(host_vec: Vec<T>, len: usize) -> (p: PendingD2H<T>)
        ensures
            p.expected_len() == len,
            p.buffer() == host_vec@,
    {
        PendingD2H { host_vec, len }
    }

    /// The number of elements the copy delivers.
    pub fn len(&self) -> (n: usize)
        ensures
            n == self.expected_len(),
    {
        self.len
    }

    /// The host buffer and the number of elements it receives.
    pub fn into_parts(self) -> (r: (Vec<T>, usize))
        ensures
            r.0@ == self.buffer(),
            r.1 == self.expected_len(),
    {
        (self.host_vec, self.len)
    }
}

} // verus!
