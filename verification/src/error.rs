//! Errors reported by the library.
use vstd::prelude::*;

use crate::text::join_texts;

verus! {

/// What went wrong.
#[derive(Debug, PartialEq, Eq)]
pub enum Error {
    /// A schema is malformed or inconsistent.
    Schema(String),
    /// The request is valid, but not supported.
    Unsupported(String),
    /// An error without a class of its own.
    Generic(String),
    /// A broken assumption inside the library.
    InternalError(String),
    /// A column that does not exist.
    MissingColumn(String),
    /// The log holds a protocol, but no table metadata.
    MissingMetadata,
    /// The log holds table metadata, but no protocol.
    MissingProtocol,
    /// The log holds neither table metadata nor a protocol.
    MissingMetadataAndProtocol,
    /// The destination of a write exists already.
    FileAlreadyExists(String),
    /// The file to read does not exist.
    FileNotFound(String),
}

/// The outcome of an operation that can fail.
pub type DeltaResult<T> = Result<T, Error>;

/// The content of an [`Error`].
pub enum ErrorModel {
    Schema(Seq<char>),
    Unsupported(Seq<char>),
    Generic(Seq<char>),
    InternalError(Seq<char>),
    MissingColumn(Seq<char>),
    MissingMetadata,
    MissingProtocol,
    MissingMetadataAndProtocol,
    FileAlreadyExists(Seq<char>),
    FileNotFound(Seq<char>),
}

impl View for Error {
    type V = ErrorModel;

    open spec fn view(&self) -> ErrorModel {
        match *self {
            Error::Schema(s) => ErrorModel::Schema(s@),
            Error::Unsupported(s) => ErrorModel::Unsupported(s@),
            Error::Generic(s) => ErrorModel::Generic(s@),
            Error::InternalError(s) => ErrorModel::InternalError(s@),
            Error::MissingColumn(s) => ErrorModel::MissingColumn(s@),
            Error::MissingMetadata => ErrorModel::MissingMetadata,
            Error::MissingProtocol => ErrorModel::MissingProtocol,
            Error::MissingMetadataAndProtocol => ErrorModel::MissingMetadataAndProtocol,
            Error::FileAlreadyExists(s) => ErrorModel::FileAlreadyExists(s@),
            Error::FileNotFound(s) => ErrorModel::FileNotFound(s@),
        }
    }
}

/// An error as text.
pub open spec fn error_text(e: ErrorModel) -> Seq<char> {
    match e {
        ErrorModel::Schema(s) => "Schema error: "@ + s,
        ErrorModel::Unsupported(s) => "Unsupported: "@ + s,
        ErrorModel::Generic(s) => "Generic delta kernel error: "@ + s,
        ErrorModel::InternalError(s) => "Internal error: "@ + s,
        ErrorModel::MissingColumn(s) => "No such column: "@ + s,
        ErrorModel::MissingMetadata => "No table metadata found in delta log."@,
        ErrorModel::MissingProtocol => "No protocol found in delta log."@,
        ErrorModel::MissingMetadataAndProtocol =>
            "No table metadata or protocol found in delta log."@,
        ErrorModel::FileAlreadyExists(s) => "File already exists: "@ + s,
        ErrorModel::FileNotFound(s) => "File not found: "@ + s,
    }
}

impl Error {
    /// The error as text.
    pub fn message(&self) -> (r: String)
        ensures
            r@ == error_text(self@),
    {
        match self {
            Error::Schema(s) => join_texts("Schema error: ", s.as_str()),
            Error::Unsupported(s) => join_texts("Unsupported: ", s.as_str()),
            Error::Generic(s) => join_texts("Generic delta kernel error: ", s.as_str()),
            Error::InternalError(s) => join_texts("Internal error: ", s.as_str()),
            Error::MissingColumn(s) => join_texts("No such column: ", s.as_str()),
            Error::MissingMetadata => "No table metadata found in delta log.".to_owned(),
            Error::MissingProtocol => "No protocol found in delta log.".to_owned(),
            Error::MissingMetadataAndProtocol =>
                "No table metadata or protocol found in delta log.".to_owned(),
            Error::FileAlreadyExists(s) => join_texts("File already exists: ", s.as_str()),
            Error::FileNotFound(s) => join_texts("File not found: ", s.as_str()),
        }
    }
}

} // verus!
