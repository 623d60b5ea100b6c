//! The error taxonomy every operation reports through.

use vstd::prelude::*;

verus! {

/// Kind of failure, as surfaced to the editor UI.
#[derive(Debug, Clone, Copy, PartialEq, Eq, Structural)]
pub enum AppErrorCode {
    FileNotFound,
    PermissionDenied,
    Conflict,
    InvalidEncoding,
    Io,
}

/// An error kind together with a human-readable message.
#[derive(Debug, Clone)]
pub struct AppError {
    pub code: AppErrorCode,
    pub message: String,
}

impl AppError {
    pub fn new(code: AppErrorCode, message: String) -> (r: AppError)
        ensures
            r.code == code,
            r.message@ == message@,
    {
        AppError { code, message }
    }
}

/// What the library needs to know of an operating-system I/O error:
/// its classification, reduced to the kinds the taxonomy distinguishes.
#[derive(Debug, Clone, Copy, PartialEq, Eq, Structural)]
pub enum IoErrorClass {
    NotFound,
    PermissionDenied,
    Other,
}

/// The error code that an I/O error of the given class maps to.
pub open spec fn spec_code_for_io_class(class: IoErrorClass) -> AppErrorCode {
    match class {
        IoErrorClass::NotFound => AppErrorCode::FileNotFound,
        IoErrorClass::PermissionDenied => AppErrorCode::PermissionDenied,
        IoErrorClass::Other => AppErrorCode::Io,
    }
}

/// Maps an operating-system I/O error, already reduced to its
/// classification and message, into the taxonomy.
pub fn map_io_error(class: IoErrorClass, message: String) -> (r: AppError)
    ensures
        r.code == spec_code_for_io_class(class),
        r.message@ == message@,
{
    match class {
        IoErrorClass::NotFound => AppError::new(AppErrorCode::FileNotFound, message),
        IoErrorClass::PermissionDenied => AppError::new(AppErrorCode::PermissionDenied, message),
        IoErrorClass::Other => AppError::new(AppErrorCode::Io, message),
    }
}

} // verus!
