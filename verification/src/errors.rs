use vstd::prelude::*;

verus! {

/// Application-level error returned by the library's fallible operations.
#[derive(Debug, Clone, PartialEq, Eq)]
pub enum AppError {
    /// A generic failure with a human readable explanation.
    SystemError(String),
    /// A capability (device, radio, platform feature) is not available.
    NotAvailable(String),
    /// A permission request could not be dispatched or resolved.
    PermissionError(String),
}

impl AppError {
    /// The message carried by the error.
    pub open spec fn message(self) -> Seq<char> {
        match self {
            AppError::SystemError(m) => m@,
            AppError::NotAvailable(m) => m@,
            AppError::PermissionError(m) => m@,
        }
    }
}

} // verus!
