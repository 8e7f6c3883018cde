//! Error model: every fallible operation of the library reports an
//! `OdysseyError`, a kind plus a human-readable message and an
//! HTTP-suitable status hint.

use vstd::prelude::*;

verus! {

/// The five error kinds the controller distinguishes.
#[derive(Clone, Copy, Debug, PartialEq, Eq, Structural)]
pub enum ErrorType {
    HardwareError,
    InternalStateError,
    ConfigurationError,
    PrintError,
    FileError,
}

/// The kinds of file-system failure that are mapped to distinct status
/// hints; everything else is `Other`.
#[derive(Clone, Copy, Debug, PartialEq, Eq, Structural)]
pub enum IoKind {
    NotFound,
    PermissionDenied,
    ReadOnlyFilesystem,
    AlreadyExists,
    StorageFull,
    FileTooLarge,
    InvalidFilename,
    InvalidInput,
    InvalidData,
    NotADirectory,
    IsADirectory,
    Other,
}

/// An error of the print engine: its kind, a diagnostic message, and the
/// status code hint surfaced to operator frontends.
#[derive(Clone, Debug)]
pub struct OdysseyError {
    pub error_type: ErrorType,
    pub message: Vec<u8>,
    pub error_code: u16,
}

/// The status hint attached to a file error of the given kind:
/// 404 not-found, 403 permission, 409 exists, 507 storage-full,
/// 413 too-large, 400 invalid-input, 500 otherwise.
pub open spec fn spec_io_error_code(kind: IoKind) -> u16 {
    match kind {
        IoKind::NotFound => 404,
        IoKind::PermissionDenied => 403,
        IoKind::ReadOnlyFilesystem => 403,
        IoKind::AlreadyExists => 409,
        IoKind::StorageFull => 507,
        IoKind::FileTooLarge => 413,
        IoKind::InvalidFilename => 400,
        IoKind::InvalidInput => 400,
        IoKind::InvalidData => 400,
        IoKind::NotADirectory => 400,
        IoKind::IsADirectory => 400,
        IoKind::Other => 500,
    }
}

impl OdysseyError {
    pub fn new(error_type: ErrorType, message: Vec<u8>, error_code: u16) -> (r: OdysseyError)
        ensures
            r.error_type == error_type,
            r.message == message,
            r.error_code == error_code,
    {
        OdysseyError { error_type, message, error_code }
    }

    pub fn hardware_error(message: Vec<u8>, error_code: u16) -> (r: OdysseyError)
        ensures
            r.error_type == ErrorType::HardwareError,
            r.message == message,
            r.error_code == error_code,
    {
        OdysseyError::new(ErrorType::HardwareError, message, error_code)
    }

    pub fn internal_state_error(message: Vec<u8>, error_code: u16) -> (r: OdysseyError)
        ensures
            r.error_type == ErrorType::InternalStateError,
            r.message == message,
            r.error_code == error_code,
    {
        OdysseyError::new(ErrorType::InternalStateError, message, error_code)
    }

    pub fn configuration_error(message: Vec<u8>, error_code: u16) -> (r: OdysseyError)
        ensures
            r.error_type == ErrorType::ConfigurationError,
            r.message == message,
            r.error_code == error_code,
    {
        OdysseyError::new(ErrorType::ConfigurationError, message, error_code)
    }

    pub fn print_error(message: Vec<u8>, error_code: u16) -> (r: OdysseyError)
        ensures
            r.error_type == ErrorType::PrintError,
            r.message == message,
            r.error_code == error_code,
    {
        OdysseyError::new(ErrorType::PrintError, message, error_code)
    }

    pub fn file_error(message: Vec<u8>, error_code: u16) -> (r: OdysseyError)
        ensures
            r.error_type == ErrorType::FileError,
            r.message == message,
            r.error_code == error_code,
    {
        OdysseyError::new(ErrorType::FileError, message, error_code)
    }

    /// A `FileError` whose status hint is derived from the file-system
    /// failure kind, as an operator frontend expects it.
    pub fn from_io_kind(kind: IoKind, message: Vec<u8>) -> (r: OdysseyError)
        ensures
            r.error_type == ErrorType::FileError,
            r.message == message,
            r.error_code == spec_io_error_code(kind),
    {
        let code: u16 = match kind {
            IoKind::NotFound => 404,
            IoKind::PermissionDenied | IoKind::ReadOnlyFilesystem => 403,
            IoKind::AlreadyExists => 409,
            IoKind::StorageFull => 507,
            IoKind::FileTooLarge => 413,
            IoKind::InvalidFilename
            | IoKind::InvalidInput
            | IoKind::InvalidData
            | IoKind::NotADirectory
            | IoKind::IsADirectory => 400,
            IoKind::Other => 500,
        };
        OdysseyError::new(ErrorType::FileError, message, code)
    }
}

} // verus!
