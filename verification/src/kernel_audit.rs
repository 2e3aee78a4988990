//! Kernel audit subsystem integration.
//!
//! Bridges the AGNOS kernel audit interface with the audit chain. The
//! interface's client library is not part of this build, so reading and
//! logging report that kernel audit is unavailable; the mapping of kernel
//! result codes to severities is the library's own.

use vstd::prelude::*;

use crate::entry::{AuditEntry, EventSeverity};
use crate::error::LibroError;
use crate::text::string_of;

verus! {

/// The message of the error that kernel audit operations return here.
pub open spec fn unavailable_message() -> Seq<char> {
    "kernel audit requires the 'kernel-audit' feature"@
}

/// Ingest raw kernel audit events as audit entries. Kernel audit is not
/// built in, so this is always a store error.
pub fn read_kernel_events() -> (r: crate::error::Result<Vec<AuditEntry>>)
    ensures
        r matches Err(LibroError::Store(m)) && m@ == unavailable_message(),
{
    Err(LibroError::Store(string_of("kernel audit requires the 'kernel-audit' feature")))
}

/// Log a syscall event to the kernel audit interface. Kernel audit is not
/// built in, so this is always a store error.
pub fn log_syscall(action: &str, data: &str, result: i32) -> (r: crate::error::Result<()>)
    ensures
        r matches Err(LibroError::Store(m)) && m@ == unavailable_message(),
{
    Err(LibroError::Store(string_of("kernel audit requires the 'kernel-audit' feature")))
}

/// Whether the kernel audit subsystem is available: never, without it
/// built in.
pub fn kernel_audit_available() -> (b: bool)
    ensures
        !b,
{
    false
}

/// The severity of a kernel audit result code: 0 is info, positive codes
/// are warnings, -13 (EACCES) is a security event, other negative codes
/// are errors.
pub open spec fn kernel_severity(result: i32) -> EventSeverity {
    if result == 0 {
        EventSeverity::Info
    } else if result > 0 {
        EventSeverity::Warning
    } else if result == -13 {
        EventSeverity::Security
    } else {
        EventSeverity::Error
    }
}

/// Map a kernel audit result code to an [`EventSeverity`].
pub fn classify_kernel_result(result: i32) -> (s: EventSeverity)
    ensures
        s == kernel_severity(result),
{
    if result == 0 {
        EventSeverity::Info
    } else if result > 0 {
        EventSeverity::Warning
    } else if result == -1 {
        EventSeverity::Error
    } else if result == -13 {
        EventSeverity::Security
    } else {
        EventSeverity::Error
    }
}

} // verus!
