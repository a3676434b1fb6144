//! Host-side logic of a HIP/ROCm GPU backend: device-memory bookkeeping,
//! error values, stream/event status, copy checks, checks over matrices
//! read back from the device, and the HIP build configuration, each
//! stated and proved with Verus.

pub mod backend;
pub mod builder;
pub mod copy;
pub mod error;
pub mod memory_manager;
pub mod stream;
pub mod text;
