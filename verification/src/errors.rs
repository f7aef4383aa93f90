//! The ways in which an operation of the store fails.

use vstd::prelude::*;
use vstd::string::*;

verus! {

/// The step at which something outside the store's rules went wrong.
#[derive(Clone, Copy, Debug, PartialEq, Eq, Structural)]
pub enum Fault {
    /// The directory of the store could not be created.
    CreateDirectory,
    /// The directory of the store could not be opened for listing.
    ReadDirectory,
    /// An entry of the directory could not be read while listing.
    ReadEntry,
    /// A file that should hold a dashboard does not parse as one.
    Parse,
    /// A dashboard could not be turned into text.
    Serialize,
    /// A file could not be written.
    Write,
}

impl Fault {
    /// What is said of the step in a message.
    pub open spec fn label(self) -> Seq<char> {
        match self {
            Fault::CreateDirectory => "Failed to create directory"@,
            Fault::ReadDirectory => "Failed to read directory"@,
            Fault::ReadEntry => "Failed to read entry"@,
            Fault::Parse => "Failed to parse dashboard"@,
            Fault::Serialize => "Failed to serialize"@,
            Fault::Write => "Failed to write file"@,
        }
    }

    /// What is said of the step in a message.
    pub fn label_text(self) -> (text: &'static str)
        ensures
            text@ == self.label(),
    {
        match self {
            Fault::CreateDirectory => "Failed to create directory",
            Fault::ReadDirectory => "Failed to read directory",
            Fault::ReadEntry => "Failed to read entry",
            Fault::Parse => "Failed to parse dashboard",
            Fault::Serialize => "Failed to serialize",
            Fault::Write => "Failed to write file",
        }
    }
}

/// Why an operation of the store failed.
#[derive(Debug, PartialEq, Eq)]
pub enum StoreError {
    /// No file of the identifier `id` can be read, or removed.
    NotFound { id: String },
    /// An import was given neither a name nor an object as payload.
    InvalidPayload,
    /// Something outside the store's rules failed, for the given reason.
    Internal { fault: Fault, reason: String },
}

/// A `StoreError` as a mathematical value.
pub ghost enum ErrorView {
    NotFound { id: Seq<char> },
    InvalidPayload,
    Internal { fault: Fault, reason: Seq<char> },
}

impl View for StoreError {
    type V = ErrorView;

    open spec fn view(&self) -> ErrorView {
        match self {
            StoreError::NotFound { id } => ErrorView::NotFound { id: id@ },
            StoreError::InvalidPayload => ErrorView::InvalidPayload,
            StoreError::Internal { fault, reason } => ErrorView::Internal {
                fault: *fault,
                reason: reason@,
            },
        }
    }
}

impl Clone for StoreError {
    fn clone(&self) -> (copy: StoreError)
        ensures
            copy@ == self@,
    {
        match self {
            StoreError::NotFound { id } => StoreError::NotFound { id: id.clone() },
            StoreError::InvalidPayload => StoreError::InvalidPayload,
            StoreError::Internal { fault, reason } => StoreError::Internal {
                fault: *fault,
                reason: reason.clone(),
            },
        }
    }
}

impl ErrorView {
    /// The message that goes to the caller.
    pub open spec fn message(self) -> Seq<char> {
        match self {
            ErrorView::NotFound { id } => "Dashboard "@ + id + " not found"@,
            ErrorView::InvalidPayload => "Invalid dashboard payload"@,
            ErrorView::Internal { fault, reason } => fault.label() + ": "@ + reason,
        }
    }

    /// The HTTP status that stands for the error: 404 where nothing was found,
    /// 400 where the caller's input is at fault, 500 otherwise.
    pub open spec fn status(self) -> int {
        match self {
            ErrorView::NotFound { .. } => 404,
            ErrorView::InvalidPayload => 400,
            ErrorView::Internal { .. } => 500,
        }
    }
}

impl StoreError {
    /// The error for a document whose file cannot be read or removed.
    pub fn not_found(id: &str) -> (e: StoreError)
        ensures
            e@ == (ErrorView::NotFound { id: id@ }),
    {
        StoreError::NotFound { id: String::from_str(id) }
    }

    /// The error for a failure at the step `fault`, as `reason` describes it.
    pub fn internal(fault: Fault, reason: &str) -> (e: StoreError)
        ensures
            e@ == (ErrorView::Internal { fault, reason: reason@ }),
    {
        StoreError::Internal { fault, reason: String::from_str(reason) }
    }

    /// The message that goes to the caller.
    pub fn message(&self) -> (text: String)
        ensures
            text@ == self@.message(),
    {
        match self {
            StoreError::NotFound { id } => {
                let mut text = String::from_str("Dashboard ");
                text.append(id.as_str());
                text.append(" not found");
                text
            },
            StoreError::InvalidPayload => String::from_str("Invalid dashboard payload"),
            StoreError::Internal { fault, reason } => {
                let mut text = String::from_str(fault.label_text());
                text.append(": ");
                text.append(reason.as_str());
                text
            },
        }
    }

    /// The HTTP status that stands for the error.
    pub fn status(&self) -> (code: u16)
        ensures
            code == self@.status(),
    {
        match self {
            StoreError::NotFound { .. } => 404,
            StoreError::InvalidPayload => 400,
            StoreError::Internal { .. } => 500,
        }
    }
}

} // verus!
