//! Error values of the HIP backend.
//!
//! The descriptive `name` and `message` of a [`HipError`] are what the HIP
//! runtime reports for the error code; the runtime is queried by the
//! caller, and the values built here carry what it answered.

use vstd::prelude::*;
use vstd::string::*;
use crate::text::{decimal, decimal_string};

verus! {

/// The HIP status code for success (`hipSuccess`).
pub const HIP_SUCCESS: u32 = 0;

/// The HIP status code for an exhausted device memory (`hipErrorOutOfMemory`).
pub const HIP_ERROR_OUT_OF_MEMORY: u32 = 2;

/// A HIP error with code, name, and message.
#[derive(Debug)]
pub struct HipError {
    pub code: u32,
    pub name: String,
    pub message: String,
}

/// `"{message} ({name})"`.
pub open spec fn hip_error_text(name: Seq<char>, message: Seq<char>) -> Seq<char> {
    message + " ("@ + name + ")"@
}

impl HipError {
    /// The error for `code`, with the symbolic name and the description
    /// the HIP runtime gives for it.
    pub fn new(code: u32, name: String, message: String) -> (e: HipError)
        ensures
            e.code == code,
            e.name@ == name@,
            e.message@ == message@,
    {
        HipError { code, name, message }
    }

    /// `Ok(())` when `code` is `hipSuccess` (0), otherwise the error for
    /// `code` with the given name and description.
    pub fn from_result(code: u32, name: String, message: String) -> (r: Result<(), HipError>)
        ensures
            code == HIP_SUCCESS <==> r is Ok,
            r matches Err(e) ==> e.code == code && e.name@ == name@ && e.message@ == message@,
    {
        if code == HIP_SUCCESS {
            Ok(())
        } else {
            Err(Self::new(code, name, message))
        }
    }

    /// Whether this is `hipErrorOutOfMemory`.
    pub fn is_out_of_memory(&self) -> (b: bool)
        ensures
            b == (self.code == HIP_ERROR_OUT_OF_MEMORY),
    {
        self.code == HIP_ERROR_OUT_OF_MEMORY
    }

    /// The displayed text: `"{message} ({name})"`.
    pub fn display_string(&self) -> (s: String)
        ensures
            s@ == hip_error_text(self.name@, self.message@),
    {
        let mut s = self.message.clone();
        s.append(" (");
        s.append(self.name.as_str());
        s.append(")");
        s
    }
}

/// What the HIP runtime said about an error code, or a fixed text when it
/// gave nothing (a null string).
pub fn text_or_unknown(text: Option<String>) -> (s: String)
    ensures
        s@ == match text {
            Some(t) => t@,
            None => "Unknown HIP error (null pointer)"@,
        },
{
    match text {
        Some(t) => t,
        None => String::from_str("Unknown HIP error (null pointer)"),
    }
}

/// Same as [`HipError::from_result`].
pub fn check(code: u32, name: String, message: String) -> (r: Result<(), HipError>)
    ensures
        code == HIP_SUCCESS <==> r is Ok,
        r matches Err(e) ==> e.code == code && e.name@ == name@ && e.message@ == message@,
{
    HipError::from_result(code, name, message)
}

/// Errors of the device memory manager.
#[derive(Debug)]
pub enum MemoryError {
    Hip(HipError),
    NullPointer,
    UntrackedPointer,
    LockError,
    InvalidMemorySize { size: usize },
    OutOfMemory { requested: usize, available: usize },
    InvalidPointer,
    ReserveFailed { size: usize, page_size: usize },
}

/// The displayed text of each memory error.
pub open spec fn memory_error_text(e: MemoryError) -> Seq<char> {
    match e {
        MemoryError::Hip(h) => hip_error_text(h.name@, h.message@),
        MemoryError::NullPointer => "Attempted to free null pointer"@,
        MemoryError::UntrackedPointer => "Attempted to free untracked pointer"@,
        MemoryError::LockError => "Failed to acquire memory manager lock"@,
        MemoryError::InvalidMemorySize { size } => "Invalid memory size: "@ + decimal(size as nat),
        MemoryError::OutOfMemory { requested, available } => "Out of memory in pool (size requested: "@
            + decimal(requested as nat) + " bytes, available: "@ + decimal(available as nat)
            + " bytes)"@,
        MemoryError::InvalidPointer => "Invalid pointer: pointer not found in allocation table"@,
        MemoryError::ReserveFailed { size, page_size } =>
            "Failed to reserve virtual address space (bytes: "@ + decimal(size as nat)
            + ", page size: "@ + decimal(page_size as nat) + ")"@,
    }
}

impl MemoryError {
    /// The displayed text of the error.
    pub fn display_string(&self) -> (s: String)
        ensures
            s@ == memory_error_text(*self),
    {
        match self {
            MemoryError::Hip(h) => h.display_string(),
            MemoryError::NullPointer => String::from_str("Attempted to free null pointer"),
            MemoryError::UntrackedPointer => String::from_str("Attempted to free untracked pointer"),
            MemoryError::LockError => String::from_str("Failed to acquire memory manager lock"),
            MemoryError::InvalidMemorySize { size } => {
                let mut s = String::from_str("Invalid memory size: ");
                s.append(decimal_string(*size).as_str());
                s
            },
            MemoryError::OutOfMemory { requested, available } => {
                let mut s = String::from_str("Out of memory in pool (size requested: ");
                s.append(decimal_string(*requested).as_str());
                s.append(" bytes, available: ");
                s.append(decimal_string(*available).as_str());
                s.append(" bytes)");
                s
            },
            MemoryError::InvalidPointer => String::from_str(
                "Invalid pointer: pointer not found in allocation table",
            ),
            MemoryError::ReserveFailed { size, page_size } => {
                let mut s = String::from_str("Failed to reserve virtual address space (bytes: ");
                s.append(decimal_string(*size).as_str());
                s.append(", page size: ");
                s.append(decimal_string(*page_size).as_str());
                s.append(")");
                s
            },
        }
    }
}

impl From<HipError> for MemoryError {
    fn from(e: HipError) -> (r: MemoryError) {
        MemoryError::Hip(e)
    }
}

impl vstd::std_specs::convert::FromSpecImpl<HipError> for MemoryError {
    open spec fn obeys_from_spec() -> bool {
        true
    }

    open spec fn from_spec(e: HipError) -> MemoryError {
        MemoryError::Hip(e)
    }
}

/// Errors of host/device copies.
#[derive(Debug)]
pub enum MemCopyError {
    Hip(HipError),
    SizeMismatch { operation: &'static str, host_len: usize, device_len: usize },
}

/// The displayed text of each copy error.
pub open spec fn mem_copy_error_text(e: MemCopyError) -> Seq<char> {
    match e {
        MemCopyError::Hip(h) => hip_error_text(h.name@, h.message@),
        MemCopyError::SizeMismatch { operation, host_len, device_len } => "Size mismatch in "@
            + operation@ + ": host len="@ + decimal(host_len as nat) + ", device len="@
            + decimal(device_len as nat),
    }
}

impl MemCopyError {
    /// The displayed text of the error.
    pub fn display_string(&self) -> (s: String)
        ensures
            s@ == mem_copy_error_text(*self),
    {
        match self {
            MemCopyError::Hip(h) => h.display_string(),
            MemCopyError::SizeMismatch { operation, host_len, device_len } => {
                let mut s = String::from_str("Size mismatch in ");
                s.append(operation);
                s.append(": host len=");
                s.append(decimal_string(*host_len).as_str());
                s.append(", device len=");
                s.append(decimal_string(*device_len).as_str());
                s
            },
        }
    }
}

impl From<HipError> for MemCopyError {
    fn from(e: HipError) -> (r: MemCopyError) {
        MemCopyError::Hip(e)
    }
}

impl vstd::std_specs::convert::FromSpecImpl<HipError> for MemCopyError {
    open spec fn obeys_from_spec() -> bool {
        true
    }

    open spec fn from_spec(e: HipError) -> MemCopyError {
        MemCopyError::Hip(e)
    }
}

/// Errors of kernel launches.
#[derive(Debug)]
pub enum KernelError {
    Hip(HipError),
    UnsupportedTypeSize { size: usize },
}

/// The displayed text of each kernel error.
pub open spec fn kernel_error_text(e: KernelError) -> Seq<char> {
    match e {
        KernelError::Hip(h) => hip_error_text(h.name@, h.message@),
        KernelError::UnsupportedTypeSize { size } => "Unsupported type size "@ + decimal(size as nat),
    }
}

impl KernelError {
    /// The displayed text of the error.
    pub fn display_string(&self) -> (s: String)
        ensures
            s@ == kernel_error_text(*self),
    {
        match self {
            KernelError::Hip(h) => h.display_string(),
            KernelError::UnsupportedTypeSize { size } => {
                let mut s = String::from_str("Unsupported type size ");
                s.append(decimal_string(*size).as_str());
                s
            },
        }
    }
}

impl From<HipError> for KernelError {
    fn from(e: HipError) -> (r: KernelError) {
        KernelError::Hip(e)
    }
}

impl vstd::std_specs::convert::FromSpecImpl<HipError> for KernelError {
    open spec fn obeys_from_spec() -> bool {
        true
    }

    open spec fn from_spec(e: HipError) -> KernelError {
        KernelError::Hip(e)
    }
}

} // verus!
