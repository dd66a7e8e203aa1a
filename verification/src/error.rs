//! The error type shared by the whole library.

use vstd::prelude::*;

verus! {

/// A failed request, with the message shown to the user.
#[derive(Clone, Debug, PartialEq, Eq)]
pub enum AppError {
    /// Bytes that do not form a valid file.
    InvalidData(String),
    /// A request that cannot be carried out.
    InvalidArgument(String),
    /// Something that was looked up and does not exist.
    Missing(String),
    /// Valid data in a variant that the editor does not handle.
    Unsupported(String),
}

/// What an [`AppError`] says: its kind and the characters of its message.
#[verifier::ext_equal]
pub enum ErrorModel {
    InvalidData(Seq<char>),
    InvalidArgument(Seq<char>),
    Missing(Seq<char>),
    Unsupported(Seq<char>),
}

pub type Result<T> = std::result::Result<T, AppError>;

impl View for AppError {
    type V = ErrorModel;

    open spec fn view(&self) -> ErrorModel {
        match self {
            AppError::InvalidData(message) => ErrorModel::InvalidData(message@),
            AppError::InvalidArgument(message) => ErrorModel::InvalidArgument(message@),
            AppError::Missing(message) => ErrorModel::Missing(message@),
            AppError::Unsupported(message) => ErrorModel::Unsupported(message@),
        }
    }
}

impl ErrorModel {
    /// The message, whatever the kind.
    pub open spec fn text(self) -> Seq<char> {
        match self {
            ErrorModel::InvalidData(text) => text,
            ErrorModel::InvalidArgument(text) => text,
            ErrorModel::Missing(text) => text,
            ErrorModel::Unsupported(text) => text,
        }
    }
}

impl AppError {
    /// The message to show.
    pub fn message(&self) -> (text: &str)
        ensures
            text@ == self@.text(),
    {
        match self {
            AppError::InvalidData(message) => message.as_str(),
            AppError::InvalidArgument(message) => message.as_str(),
            AppError::Missing(message) => message.as_str(),
            AppError::Unsupported(message) => message.as_str(),
        }
    }
}

} // verus!
