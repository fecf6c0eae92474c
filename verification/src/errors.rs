//! The failures a run can end with.

use vstd::prelude::*;
use vstd::string::*;

verus! {

/// Why a run, or one step of it, did not do what it was asked to do. Each
/// variant carries the text shown to the user.
#[derive(PartialEq, Eq, Debug)]
pub enum Errors {
    InvalidArgument { message: String },
    InvalidPath { message: String },
    RepositoryNotCloned { message: String },
    ErrorCreatingDirectory { message: String },
    ErrorCreatingFile { message: String },
    ErrorRemovingDirectory { message: String },
    ErrorReadingDirectory { message: String },
}

/// An error with its message as a sequence of characters.
pub enum ErrorsView {
    InvalidArgument { message: Seq<char> },
    InvalidPath { message: Seq<char> },
    RepositoryNotCloned { message: Seq<char> },
    ErrorCreatingDirectory { message: Seq<char> },
    ErrorCreatingFile { message: Seq<char> },
    ErrorRemovingDirectory { message: Seq<char> },
    ErrorReadingDirectory { message: Seq<char> },
}

impl ErrorsView {
    /// The message, whatever the variant.
    pub open spec fn text(self) -> Seq<char> {
        match self {
            ErrorsView::InvalidArgument { message } => message,
            ErrorsView::InvalidPath { message } => message,
            ErrorsView::RepositoryNotCloned { message } => message,
            ErrorsView::ErrorCreatingDirectory { message } => message,
            ErrorsView::ErrorCreatingFile { message } => message,
            ErrorsView::ErrorRemovingDirectory { message } => message,
            ErrorsView::ErrorReadingDirectory { message } => message,
        }
    }
}

impl View for Errors {
    type V = ErrorsView;

    open spec fn view(&self) -> ErrorsView {
        match self {
            Errors::InvalidArgument { message } => ErrorsView::InvalidArgument {
                message: message@,
            },
            Errors::InvalidPath { message } => ErrorsView::InvalidPath { message: message@ },
            Errors::RepositoryNotCloned { message } => ErrorsView::RepositoryNotCloned {
                message: message@,
            },
            Errors::ErrorCreatingDirectory { message } => ErrorsView::ErrorCreatingDirectory {
                message: message@,
            },
            Errors::ErrorCreatingFile { message } => ErrorsView::ErrorCreatingFile {
                message: message@,
            },
            Errors::ErrorRemovingDirectory { message } => ErrorsView::ErrorRemovingDirectory {
                message: message@,
            },
            Errors::ErrorReadingDirectory { message } => ErrorsView::ErrorReadingDirectory {
                message: message@,
            },
        }
    }
}

impl Errors {
    /// The bare message, as shown when the error is printed for debugging.
    pub fn message(&self) -> (out: String)
        ensures
            out@ == self@.text(),
    {
        match self {
            Errors::InvalidArgument { message } => message.clone(),
            Errors::InvalidPath { message } => message.clone(),
            Errors::RepositoryNotCloned { message } => message.clone(),
            Errors::ErrorCreatingDirectory { message } => message.clone(),
            Errors::ErrorCreatingFile { message } => message.clone(),
            Errors::ErrorRemovingDirectory { message } => message.clone(),
            Errors::ErrorReadingDirectory { message } => message.clone(),
        }
    }

    /// The line shown to the user: the message behind the words `Error: `.
    pub fn describe(&self) -> (out: String)
        ensures
            out@ == "Error: "@ + self@.text(),
    {
        let head = String::from_str("Error: ");
        let body = self.message();
        head.concat(body.as_str())
    }
}

/// The view of a sequence of errors, in order.
pub open spec fn error_views(errors: Seq<Errors>) -> Seq<ErrorsView> {
    Seq::new(errors.len(), |i: int| errors[i]@)
}

/// The error for a directory at `path` that could not be created.
pub fn could_not_create(path: &str) -> (error: Errors)
    ensures
        error@ == (ErrorsView::ErrorCreatingDirectory { message: "Could not create "@ + path@ }),
{
    Errors::ErrorCreatingDirectory { message: String::from_str("Could not create ").concat(path) }
}

/// The error for a directory at `path` that could not be removed.
pub fn could_not_remove(path: &str) -> (error: Errors)
    ensures
        error@ == (ErrorsView::ErrorRemovingDirectory { message: "Could not remove "@ + path@ }),
{
    Errors::ErrorRemovingDirectory { message: String::from_str("Could not remove ").concat(path) }
}

/// The error for a directory at `path` that could not be listed.
pub fn could_not_read(path: &str) -> (error: Errors)
    ensures
        error@ == (ErrorsView::ErrorReadingDirectory { message: "Could not read "@ + path@ }),
{
    Errors::ErrorReadingDirectory { message: String::from_str("Could not read ").concat(path) }
}

/// The error for a file at `path` that could not be linked or copied.
pub fn failed_to_create(path: &str) -> (error: Errors)
    ensures
        error@ == (ErrorsView::ErrorCreatingFile { message: "Failed to create "@ + path@ }),
{
    Errors::ErrorCreatingFile { message: String::from_str("Failed to create ").concat(path) }
}

/// The error for a repository that could not be cloned.
pub fn could_not_clone() -> (error: Errors)
    ensures
        error@ == (ErrorsView::RepositoryNotCloned { message: "Could not clone repository"@ }),
{
    Errors::RepositoryNotCloned { message: String::from_str("Could not clone repository") }
}

} // verus!
