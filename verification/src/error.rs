//! The errors of the usbipd operations, with the sentence that describes each.
use vstd::prelude::*;

verus! {

/// What went wrong in a usbipd operation.
#[derive(Debug, Clone, Copy, PartialEq, Eq, Structural)]
pub enum Error {
    Unknown,
    Timeout,
    PermissionDenied,
    WslNotFound,
    WslLowVersion,
    WslNotRunning,
    UsbIPDNotFound,
    UsbIPDLowVersion,
    NotConnected,
    NotBound,
    NotAttached,
    BindFailed,
    AttachFailed,
    DetachFailed,
    UnbindFailed,
    InternalError,
    PowerShellError,
}

/// The sentence that describes `e`.
pub open spec fn error_message(e: Error) -> Seq<char> {
    match e {
        Error::Unknown => "Unknown error"@,
        Error::Timeout => "Operation timed out"@,
        Error::PermissionDenied => "Permission denied"@,
        Error::WslNotFound => "WSL not found"@,
        Error::WslLowVersion => "WSL version is too low"@,
        Error::WslNotRunning => "WSL is not running"@,
        Error::UsbIPDNotFound => "usbipd not found"@,
        Error::UsbIPDLowVersion => "usbipd version is too low"@,
        Error::NotConnected => "Device is not connected"@,
        Error::NotBound => "Device is not bound"@,
        Error::NotAttached => "Device is not attached"@,
        Error::BindFailed => "Failed to bind device"@,
        Error::AttachFailed => "Failed to attach device"@,
        Error::DetachFailed => "Failed to detach device"@,
        Error::UnbindFailed => "Failed to unbind device"@,
        Error::InternalError => "Internal error occurred"@,
        Error::PowerShellError => "PowerShell error occurred"@,
    }
}

impl Error {
    /// The sentence that describes this error, as it is displayed.
    pub fn message(&self) -> (r: &'static str)
        ensures
            r@ == error_message(*self),
    {
        match self {
            Error::Unknown => "Unknown error",
            Error::Timeout => "Operation timed out",
            Error::PermissionDenied => "Permission denied",
            Error::WslNotFound => "WSL not found",
            Error::WslLowVersion => "WSL version is too low",
            Error::WslNotRunning => "WSL is not running",
            Error::UsbIPDNotFound => "usbipd not found",
            Error::UsbIPDLowVersion => "usbipd version is too low",
            Error::NotConnected => "Device is not connected",
            Error::NotBound => "Device is not bound",
            Error::NotAttached => "Device is not attached",
            Error::BindFailed => "Failed to bind device",
            Error::AttachFailed => "Failed to attach device",
            Error::DetachFailed => "Failed to detach device",
            Error::UnbindFailed => "Failed to unbind device",
            Error::InternalError => "Internal error occurred",
            Error::PowerShellError => "PowerShell error occurred",
        }
    }
}

} // verus!
