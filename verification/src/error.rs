//! The failures a parse can end in, with a specification-level mirror.

use vstd::prelude::*;

verus! {

/// A parse failure. Every variant carries the character offset at which
/// the problem was found.
#[derive(Debug, Clone)]
pub enum AdifError {
    /// A malformed `<...>` data specifier: empty name, missing `:`,
    /// missing digits, or missing `>`.
    InvalidDataSpecifier { position: usize, message: String },
    /// The declared value length exceeds what remains of the input.
    InvalidFieldLength { position: usize, expected: usize, found: usize },
    /// The input ended inside a type-indicator clause.
    UnexpectedEof(usize),
    /// Reserved for a strict mode; the lenient parse treats unknown type
    /// indicators as `DataType::Unspecified` and never produces this.
    InvalidDataType(char),
    /// A field parse began at a position that does not hold a `<`.
    ParseError { position: usize, message: String },
}

/// The mathematical image of an [`AdifError`].
#[verifier::ext_equal]
pub enum AdifErrorView {
    InvalidDataSpecifier { position: int, message: Seq<char> },
    InvalidFieldLength { position: int, expected: int, found: int },
    UnexpectedEof(int),
    InvalidDataType(char),
    ParseError { position: int, message: Seq<char> },
}

impl View for AdifError {
    type V = AdifErrorView;

    open spec fn view(&self) -> AdifErrorView {
        match self {
            AdifError::InvalidDataSpecifier { position, message } =>
                AdifErrorView::InvalidDataSpecifier {
                    position: *position as int,
                    message: message@,
                },
            AdifError::InvalidFieldLength { position, expected, found } =>
                AdifErrorView::InvalidFieldLength {
                    position: *position as int,
                    expected: *expected as int,
                    found: *found as int,
                },
            AdifError::UnexpectedEof(position) => AdifErrorView::UnexpectedEof(*position as int),
            AdifError::InvalidDataType(c) => AdifErrorView::InvalidDataType(*c),
            AdifError::ParseError { position, message } => AdifErrorView::ParseError {
                position: *position as int,
                message: message@,
            },
        }
    }
}

} // verus!
