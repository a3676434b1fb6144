use std::cmp::Ordering;

use openvm_hip::error::HipError;
use openvm_hip::stream::{current_stream_id, HipEventStatus, HIP_STREAM_PER_THREAD};

fn error_status() -> HipEventStatus {
    HipEventStatus::Error(HipError::new(1, "hipErrorInvalidValue".to_string(), "invalid".to_string()))
}

#[test]
fn stream_id_is_per_thread_stream() {
    assert_eq!(current_stream_id().unwrap(), 2);
    assert_eq!(HIP_STREAM_PER_THREAD, 2);
}

#[test]
fn query_codes() {
    assert_eq!(
        HipEventStatus::from_query_code(0, String::new(), String::new()),
        HipEventStatus::Completed
    );
    assert_eq!(
        HipEventStatus::from_query_code(600, String::new(), String::new()),
        HipEventStatus::NotReady
    );
    match HipEventStatus::from_query_code(4, "hipErrorDeinitialized".to_string(), "x".to_string()) {
        HipEventStatus::Error(e) => assert_eq!(e.code, 4),
        other => panic!("unexpected {:?}", other),
    }
    assert!(HipEventStatus::Completed.is_completed());
    assert!(!HipEventStatus::NotReady.is_completed());
}

#[test]
fn status_equality_ignores_errors() {
    assert_eq!(HipEventStatus::NotReady, HipEventStatus::NotReady);
    assert_ne!(HipEventStatus::Completed, HipEventStatus::NotReady);
    assert_ne!(error_status(), error_status());
}

#[test]
fn status_order() {
    assert!(HipEventStatus::Completed < HipEventStatus::NotReady);
    assert!(HipEventStatus::NotReady < error_status());
    assert!(HipEventStatus::Completed < error_status());
    assert_eq!(error_status().cmp_status(&error_status()), Ordering::Equal);
    assert_eq!(
        HipEventStatus::NotReady.partial_cmp(&HipEventStatus::Completed),
        Some(Ordering::Greater)
    );
    assert_eq!(
        HipEventStatus::Completed.cmp_status(&HipEventStatus::Completed),
        Ordering::Equal
    );
}
