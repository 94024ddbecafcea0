//! The ways in which building a dependency tree can fail.

use crate::identity::{render_identity, Identity, IdentityView};
use vstd::prelude::*;

verus! {

/// The shape that a field of the snapshot was expected to have.
#[derive(Clone, Copy, Debug, PartialEq, Eq, Structural)]
pub enum FieldShape {
    Array,
    Text,
    Object,
}

/// A failed construction. Every variant aborts the whole construction.
#[derive(Debug, PartialEq, Eq)]
pub enum Error {
    /// A required field is missing or has the wrong shape. `snippet` is the
    /// rendered node in which the field was looked for.
    SchemaViolation { field: String, expected: FieldShape, snippet: String },
    /// An identifier string does not follow the identifier grammar.
    UnparsableIdentifier { text: String },
    /// A workspace member, a node or a dependency edge names a package that
    /// was not resolved, or that the tree does not hold.
    UnresolvedReference { identity: Identity },
    /// Directory resolution arrived at a path that is no existing directory.
    InvalidSourceDirectory { path: String },
    /// A source could not be constructed for the package so identified.
    DownstreamConstructionFailure { identity: Identity },
}

/// The mathematical value of an [`Error`].
pub enum ErrorView {
    SchemaViolation { field: Seq<char>, expected: FieldShape, snippet: Seq<char> },
    UnparsableIdentifier { text: Seq<char> },
    UnresolvedReference { identity: IdentityView },
    InvalidSourceDirectory { path: Seq<char> },
    DownstreamConstructionFailure { identity: IdentityView },
}

impl View for Error {
    type V = ErrorView;

    open spec fn view(&self) -> ErrorView {
        match *self {
            Error::SchemaViolation { field, expected, snippet } => ErrorView::SchemaViolation {
                field: field@,
                expected,
                snippet: snippet@,
            },
            Error::UnparsableIdentifier { text } => ErrorView::UnparsableIdentifier { text: text@ },
            Error::UnresolvedReference { identity } => ErrorView::UnresolvedReference {
                identity: identity@,
            },
            Error::InvalidSourceDirectory { path } => ErrorView::InvalidSourceDirectory {
                path: path@,
            },
            Error::DownstreamConstructionFailure {
                identity,
            } => ErrorView::DownstreamConstructionFailure { identity: identity@ },
        }
    }
}

/// How a shape is called in a message.
pub open spec fn shape_name(shape: FieldShape) -> Seq<char> {
    match shape {
        FieldShape::Array => "array"@,
        FieldShape::Text => "string"@,
        FieldShape::Object => "object"@,
    }
}

/// The message of an error.
pub open spec fn message_text(error: ErrorView) -> Seq<char> {
    match error {
        ErrorView::SchemaViolation { field, expected, snippet } => "Couldn't find "@ + shape_name(
            expected,
        ) + " entry '"@ + field + "' in:\n"@ + snippet,
        ErrorView::UnparsableIdentifier { text } => "Couldn't parse the identifier '"@ + text
            + "'"@,
        ErrorView::UnresolvedReference { identity } => "Couldn't find package for "@
            + render_identity(identity),
        ErrorView::InvalidSourceDirectory { path } => "Invalid source path directory '"@ + path
            + "'"@,
        ErrorView::DownstreamConstructionFailure { identity } => "Couldn't make a source for "@
            + render_identity(identity),
    }
}

impl Error {
    /// Describes the error in a sentence.
    pub fn message(&self) -> (text: String)
        ensures
            text@ == message_text(self@),
    {
        match self {
            Error::SchemaViolation { field, expected, snippet } => {
                let shape = match expected {
                    FieldShape::Array => "array",
                    FieldShape::Text => "string",
                    FieldShape::Object => "object",
                };
                String::from_str("Couldn't find ").concat(shape).concat(" entry '").concat(
                    field.as_str(),
                ).concat("' in:\n").concat(snippet.as_str())
            },
            Error::UnparsableIdentifier { text } => String::from_str(
                "Couldn't parse the identifier '",
            ).concat(text.as_str()).concat("'"),
            Error::UnresolvedReference { identity } => String::from_str(
                "Couldn't find package for ",
            ).concat(identity.render().as_str()),
            Error::InvalidSourceDirectory { path } => String::from_str(
                "Invalid source path directory '",
            ).concat(path.as_str()).concat("'"),
            Error::DownstreamConstructionFailure { identity } => String::from_str(
                "Couldn't make a source for ",
            ).concat(identity.render().as_str()),
        }
    }
}

} // verus!
