use openvm_hip::backend::{
    log2_strict_usize, natural_domain_for_degree, NaturalDomain,
    assert_eq_host_and_device_matrix, RowMajorMatrix,
    assert_eq_device_matrix, check_trace_validity, DeviceMatrixHost, HipBackend, HipPcsData,
    MatrixMismatch, UNTOUCHED,
};
use openvm_hip::copy::{check_copy_to_device, memcpy_kind, MemcpyKind, PendingD2H};
use openvm_hip::error::MemCopyError;
use openvm_hip::memory_manager::hip::HipMemAccessDesc;

fn m(height: usize, width: usize, values: Vec<u32>) -> DeviceMatrixHost {
    DeviceMatrixHost { height, width, values }
}

#[test]
fn equal_matrices() {
    let a = m(2, 3, vec![1, 2, 3, 4, 5, 6]);
    assert_eq!(assert_eq_device_matrix(&a, &a.clone()), Ok(()));
    assert_eq!(assert_eq_device_matrix(&m(0, 0, vec![]), &m(0, 0, vec![])), Ok(()));
}

#[test]
fn first_difference_row_by_row() {
    // column-major: entry (r, c) at c * 2 + r
    let a = m(2, 3, vec![1, 2, 3, 4, 5, 6]);
    let b = m(2, 3, vec![1, 9, 3, 4, 0, 6]);
    // (1, 0) differs and (0, 2) differs; row 0 is scanned first
    assert_eq!(
        assert_eq_device_matrix(&a, &b),
        Err(MatrixMismatch::Entry { row: 0, col: 2 })
    );
    let c = m(2, 3, vec![1, 9, 3, 4, 5, 6]);
    assert_eq!(
        assert_eq_device_matrix(&a, &c),
        Err(MatrixMismatch::Entry { row: 1, col: 0 })
    );
}

#[test]
fn dimension_mismatches() {
    let a = m(2, 3, vec![0; 6]);
    assert_eq!(
        assert_eq_device_matrix(&a, &m(3, 2, vec![0; 6])),
        Err(MatrixMismatch::Height { left: 2, right: 3 })
    );
    assert_eq!(
        assert_eq_device_matrix(&a, &m(2, 2, vec![0; 6])),
        Err(MatrixMismatch::Width { left: 3, right: 2 })
    );
    assert_eq!(
        assert_eq_device_matrix(&a, &m(2, 3, vec![0; 7])),
        Err(MatrixMismatch::BufferLen { left: 6, right: 7 })
    );
}

#[test]
fn untouched_trace_entries() {
    assert_eq!(check_trace_validity(&m(2, 2, vec![1, 2, 3, 4])), Ok(()));
    let t = m(2, 2, vec![1, UNTOUCHED, UNTOUCHED, 4]);
    assert_eq!(check_trace_validity(&t), Err((0, 1)));
}

#[test]
fn copy_decisions() {
    assert_eq!(memcpy_kind(false, false), MemcpyKind::HostToHost);
    assert_eq!(memcpy_kind(false, true), MemcpyKind::HostToDevice);
    assert_eq!(memcpy_kind(true, false), MemcpyKind::DeviceToHost);
    assert_eq!(memcpy_kind(true, true), MemcpyKind::DeviceToDevice);
    assert!(check_copy_to_device(5, 5).is_ok());
    match check_copy_to_device(6, 5) {
        Err(MemCopyError::SizeMismatch { operation, host_len, device_len }) => {
            assert_eq!(operation, "copy_to_device");
            assert_eq!((host_len, device_len), (6, 5));
        }
        other => panic!("unexpected {:?}", other),
    }
    let p = PendingD2H::new(Vec::<u32>::with_capacity(4), 4);
    assert_eq!(p.len(), 4);
    let (v, n) = p.into_parts();
    assert_eq!((v.len(), n), (0, 4));
}

#[test]
fn backend_types_and_access_desc() {
    let _ = HipBackend::default();
    let d = HipPcsData { log_trace_heights: vec![3, 4] };
    assert_eq!(d.clone().log_trace_heights, vec![3, 4]);
    let a = HipMemAccessDesc::new_read_write(5);
    assert_eq!((a.location_type, a.location_id, a.flags), (1, 5, 3));
}

#[test]
fn host_and_device_matrices() {
    // 2 x 3, row-major [[1, 2, 3], [4, 5, 6]]; column-major [1, 4, 2, 5, 3, 6]
    let cpu = RowMajorMatrix { width: 3, values: vec![1, 2, 3, 4, 5, 6] };
    assert_eq!(cpu.height(), 2);
    let gpu = m(2, 3, vec![1, 4, 2, 5, 3, 6]);
    assert_eq!(assert_eq_host_and_device_matrix(&cpu, &gpu), Ok(()));
    let bad = m(2, 3, vec![1, 4, 2, 0, 3, 6]);
    assert_eq!(
        assert_eq_host_and_device_matrix(&cpu, &bad),
        Err(MatrixMismatch::Entry { row: 1, col: 1 })
    );
    assert_eq!(
        assert_eq_host_and_device_matrix(&cpu, &m(3, 2, vec![0; 6])),
        Err(MatrixMismatch::Width { left: 2, right: 3 })
    );
    assert_eq!(
        assert_eq_host_and_device_matrix(&cpu, &m(1, 3, vec![0; 3])),
        Err(MatrixMismatch::Height { left: 1, right: 2 })
    );
}

#[test]
fn natural_domains() {
    assert_eq!(log2_strict_usize(1), 0);
    assert_eq!(log2_strict_usize(1024), 10);
    assert_eq!(log2_strict_usize(1 << 63), 63);
    assert_eq!(natural_domain_for_degree(16), NaturalDomain { log_n: 4, shift: 1 });
}
