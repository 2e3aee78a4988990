use libro::entry::EventSeverity;
use libro::error::LibroError;
use libro::kernel_audit::{classify_kernel_result, kernel_audit_available, log_syscall, read_kernel_events};

#[test]
fn classify_result_info() {
    assert_eq!(classify_kernel_result(0), EventSeverity::Info);
}

#[test]
fn classify_result_warning() {
    assert_eq!(classify_kernel_result(1), EventSeverity::Warning);
    assert_eq!(classify_kernel_result(42), EventSeverity::Warning);
}

#[test]
fn classify_result_error() {
    assert_eq!(classify_kernel_result(-1), EventSeverity::Error);
    assert_eq!(classify_kernel_result(-99), EventSeverity::Error);
}

#[test]
fn classify_result_security() {
    assert_eq!(classify_kernel_result(-13), EventSeverity::Security);
}

#[test]
fn read_kernel_events_without_kernel() {
    let result = read_kernel_events();
    if let Ok(entries) = result {
        assert!(entries.is_empty());
    }
}

#[test]
fn log_syscall_without_feature_or_kernel() {
    let result = log_syscall("open", "test", 0);
    assert!(result.is_err());
}

#[test]
fn kernel_audit_available_check() {
    let _ = kernel_audit_available();
}

#[test]
fn kernel_audit_unavailable_message() {
    assert!(!kernel_audit_available());
    match read_kernel_events() {
        Err(LibroError::Store(m)) => assert_eq!(m, "kernel audit requires the 'kernel-audit' feature"),
        other => panic!("unexpected {other:?}"),
    }
    assert_eq!(classify_kernel_result(i32::MIN), EventSeverity::Error);
}
