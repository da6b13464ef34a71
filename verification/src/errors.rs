//! The error kinds the matcher and the writer surface. Every failure is a
//! typed value; the library never panics on any input.

use vstd::prelude::*;

verus! {

/// Why a file fails the check, or why the writer refuses to act.
#[derive(Debug)]
pub enum HeaderError {
    /// The file's extension is claimed by no language rule.
    UnsupportedExtension,
    /// The file has no lines at all.
    EmptyFile,
    /// The blank-line convention after a shebang is violated.
    MissingBlankAfterShebang,
    /// The file ends before the expected header does.
    UnexpectedEof,
    /// A file line does not match the expected header line; carries the
    /// expected pattern text and the offending line.
    TemplateMismatch { expected: Vec<u8>, actual: Vec<u8> },
    /// The blank-line convention after the header is violated.
    TrailingContentAfterTemplate,
    /// The writer refuses to insert: the insertion point already begins
    /// with the comment prefix, so a header seems to be there already.
    LooksLikeExistingHeader,
    /// Authorship history names no contributor.
    NoAuthorInfo,
}

/// The same kinds over byte sequences, for contracts.
pub enum HeaderErr {
    /// See `HeaderError::UnsupportedExtension`.
    UnsupportedExtension,
    /// See `HeaderError::EmptyFile`.
    EmptyFile,
    /// See `HeaderError::MissingBlankAfterShebang`.
    MissingBlankAfterShebang,
    /// See `HeaderError::UnexpectedEof`.
    UnexpectedEof,
    /// See `HeaderError::TemplateMismatch`.
    TemplateMismatch { expected: Seq<u8>, actual: Seq<u8> },
    /// See `HeaderError::TrailingContentAfterTemplate`.
    TrailingContentAfterTemplate,
    /// See `HeaderError::LooksLikeExistingHeader`.
    LooksLikeExistingHeader,
    /// See `HeaderError::NoAuthorInfo`.
    NoAuthorInfo,
}

/// The kind and payload an error value stands for.
pub open spec fn err_view(e: HeaderError) -> HeaderErr {
    match e {
        HeaderError::UnsupportedExtension => HeaderErr::UnsupportedExtension,
        HeaderError::EmptyFile => HeaderErr::EmptyFile,
        HeaderError::MissingBlankAfterShebang => HeaderErr::MissingBlankAfterShebang,
        HeaderError::UnexpectedEof => HeaderErr::UnexpectedEof,
        HeaderError::TemplateMismatch { expected, actual } => HeaderErr::TemplateMismatch {
            expected: expected@,
            actual: actual@,
        },
        HeaderError::TrailingContentAfterTemplate => HeaderErr::TrailingContentAfterTemplate,
        HeaderError::LooksLikeExistingHeader => HeaderErr::LooksLikeExistingHeader,
        HeaderError::NoAuthorInfo => HeaderErr::NoAuthorInfo,
    }
}

} // verus!
