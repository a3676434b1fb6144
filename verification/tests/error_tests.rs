use openvm_hip::error::{
    text_or_unknown,
    check, HipError, KernelError, MemCopyError, MemoryError, HIP_ERROR_OUT_OF_MEMORY,
};

#[test]
fn success_code_is_ok() {
    assert!(HipError::from_result(0, String::new(), String::new()).is_ok());
    assert!(check(0, "hipSuccess".to_string(), "no error".to_string()).is_ok());
}

#[test]
fn nonzero_code_is_error() {
    let e = HipError::from_result(
        HIP_ERROR_OUT_OF_MEMORY,
        "hipErrorOutOfMemory".to_string(),
        "out of memory".to_string(),
    )
    .unwrap_err();
    assert_eq!(e.code, 2);
    assert!(e.is_out_of_memory());
    assert_eq!(e.display_string(), "out of memory (hipErrorOutOfMemory)");
    let other = check(1, "hipErrorInvalidValue".to_string(), "invalid argument".to_string())
        .unwrap_err();
    assert!(!other.is_out_of_memory());
    assert_eq!(other.name, "hipErrorInvalidValue");
    assert_eq!(HipError::new(7, "n".to_string(), "m".to_string()).message, "m");
}

#[test]
fn memory_error_text() {
    assert_eq!(
        MemoryError::NullPointer.display_string(),
        "Attempted to free null pointer"
    );
    assert_eq!(
        MemoryError::UntrackedPointer.display_string(),
        "Attempted to free untracked pointer"
    );
    assert_eq!(
        MemoryError::LockError.display_string(),
        "Failed to acquire memory manager lock"
    );
    assert_eq!(
        MemoryError::InvalidMemorySize { size: 42 }.display_string(),
        "Invalid memory size: 42"
    );
    assert_eq!(
        MemoryError::OutOfMemory { requested: 1024, available: 0 }.display_string(),
        "Out of memory in pool (size requested: 1024 bytes, available: 0 bytes)"
    );
    assert_eq!(
        MemoryError::InvalidPointer.display_string(),
        "Invalid pointer: pointer not found in allocation table"
    );
    assert_eq!(
        MemoryError::ReserveFailed { size: 4096, page_size: 2097152 }.display_string(),
        "Failed to reserve virtual address space (bytes: 4096, page size: 2097152)"
    );
    let hip = HipError::new(2, "hipErrorOutOfMemory".to_string(), "out of memory".to_string());
    let e: MemoryError = hip.into();
    assert_eq!(e.display_string(), "out of memory (hipErrorOutOfMemory)");
}

#[test]
fn copy_and_kernel_error_text() {
    let e = MemCopyError::SizeMismatch { operation: "copy_to_device", host_len: 5, device_len: 3 };
    assert_eq!(
        e.display_string(),
        "Size mismatch in copy_to_device: host len=5, device len=3"
    );
    let k = KernelError::UnsupportedTypeSize { size: 12 };
    assert_eq!(k.display_string(), "Unsupported type size 12");
    let h: MemCopyError = HipError::new(1, "a".to_string(), "b".to_string()).into();
    assert_eq!(h.display_string(), "b (a)");
    let h: KernelError = HipError::new(1, "a".to_string(), "b".to_string()).into();
    assert_eq!(h.display_string(), "b (a)");
}

#[test]
fn runtime_text_or_fallback() {
    assert_eq!(text_or_unknown(None), "Unknown HIP error (null pointer)");
    assert_eq!(text_or_unknown(Some("out of memory".to_string())), "out of memory");
}
