//! The error of running an outside program (usbipd, PowerShell, wsl): a code
//! and a message.
use vstd::prelude::*;

verus! {

/// The kind of failure of an outside program.
#[derive(Debug, Clone, Copy, PartialEq, Eq, Structural)]
pub enum ErrorCode {
    CommandNotFound,
    InternalError,
    UsbIPDNotFound,
    WslDistributionNotFound,
}

/// A failure of an outside program, with what is known of it.
#[derive(Debug, Clone)]
pub struct CommandError {
    pub code: ErrorCode,
    pub message: String,
}

/// The result of running an outside program.
pub type USBIPDResult<T> = Result<T, CommandError>;

impl CommandError {
    /// An error of kind `code` with the message `message`.
    pub fn new(code: ErrorCode, message: String) -> (r: CommandError)
        ensures
            r.code == code,
            r.message@ == message@,
    {
        CommandError { code, message }
    }
}

/// `e` is of kind `code` and says `message`.
pub open spec fn is_error(e: CommandError, code: ErrorCode, message: Seq<char>) -> bool {
    e.code == code && e.message@ == message
}

} // verus!
