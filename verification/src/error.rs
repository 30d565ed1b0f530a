//! The failures that the registry and the embedding store report.

use vstd::prelude::*;
use vstd::string::StringExecFns;

verus! {

/// The file-system step that failed.
#[derive(Clone, Copy, Debug, PartialEq, Eq, Hash, Structural)]
pub enum IoOperation {
    CreateDirectory,
    WriteFile,
}

/// A failure, each kind with what identifies it.
#[derive(Debug, PartialEq, Eq)]
pub enum Error {
    /// No agent is registered under `id`.
    NotFound { id: String },
    /// An agent named `name` is already registered.
    Conflict { name: String },
    /// The lock that guards `resource` could not be taken.
    LockFailure { resource: String },
    /// `operation` failed on `path`; `cause` is the system's own report.
    Io { operation: IoOperation, path: String, cause: String },
}

/// An [`Error`] as a mathematical value.
pub enum ErrorView {
    NotFound { id: Seq<char> },
    Conflict { name: Seq<char> },
    LockFailure { resource: Seq<char> },
    Io { operation: IoOperation, path: Seq<char>, cause: Seq<char> },
}

impl ErrorView {
    /// The text that describes the failure.
    pub open spec fn message(self) -> Seq<char> {
        match self {
            ErrorView::NotFound { id } => "Agent with ID "@ + id + " not found"@,
            ErrorView::Conflict { name } => "An agent with the name '"@ + name
                + "' already exists"@,
            ErrorView::LockFailure { resource } => "Failed to lock "@ + resource,
            ErrorView::Io { operation, path, cause } => match operation {
                IoOperation::CreateDirectory => "Failed to create agent directory "@ + path
                    + ": "@ + cause,
                IoOperation::WriteFile => "Failed to save file "@ + path + ": "@ + cause,
            },
        }
    }
}

impl View for Error {
    type V = ErrorView;

    open spec fn view(&self) -> ErrorView {
        match self {
            Error::NotFound { id } => ErrorView::NotFound { id: id@ },
            Error::Conflict { name } => ErrorView::Conflict { name: name@ },
            Error::LockFailure { resource } => ErrorView::LockFailure { resource: resource@ },
            Error::Io { operation, path, cause } => ErrorView::Io {
                operation: *operation,
                path: path@,
                cause: cause@,
            },
        }
    }
}

impl Error {
    /// Renders the failure as text.
    pub fn message(&self) -> (text: String)
        ensures
            text@ == self@.message(),
    {
        match self {
            Error::NotFound { id } => {
                String::from_str("Agent with ID ").concat(id.as_str()).concat(" not found")
            },
            Error::Conflict { name } => {
                String::from_str("An agent with the name '").concat(name.as_str()).concat(
                    "' already exists",
                )
            },
            Error::LockFailure { resource } => {
                String::from_str("Failed to lock ").concat(resource.as_str())
            },
            Error::Io { operation, path, cause } => {
                let head = match operation {
                    IoOperation::CreateDirectory => String::from_str(
                        "Failed to create agent directory ",
                    ),
                    IoOperation::WriteFile => String::from_str("Failed to save file "),
                };
                head.concat(path.as_str()).concat(": ").concat(cause.as_str())
            },
        }
    }
}

} // verus!
