//! The kinds of failure, and what each of them leads to.
//!
//! A failure on one item never aborts a batch; a failure of the structure,
//! such as an index that cannot be opened, aborts the operation and is shown
//! to the user.

use crate::rag::embeddings::EmbedError;
use crate::scrapper::auth::LoginError;
use crate::scrapper::processing::ProcessingError;
use vstd::prelude::*;

verus! {

/// The kinds of failure.
#[derive(Clone, Copy, Debug, PartialEq, Eq, Structural)]
pub enum ErrorKind {
    /// Reading or writing a file failed.
    IoError,
    /// The embedding model failed.
    EmbedderError,
    /// A request over the network failed.
    NetworkError,
    /// The session of the portal is no longer valid.
    AuthExpired,
    /// The credentials were rejected, or signing in took too long.
    LoginFailed,
    /// The extractor process ended with a nonzero exit code.
    PdfExtractionFailed,
    /// The index on disk is malformed.
    DecodeError,
    /// There is nothing to embed, or a stored id is malformed.
    InvalidInput,
}

/// What a failure leads to.
#[derive(Clone, Copy, Debug, PartialEq, Eq, Structural)]
pub enum Disposition {
    /// The failure is handed to the caller; the unit of work under way ends.
    Propagate,
    /// The item is passed over, with a note in the log; the batch goes on.
    SkipItem,
    /// The session is renewed in the tab.
    Reauthenticate,
    /// The cached credentials are forgotten, and the user is told.
    ForgetCredentials,
    /// The store starts empty.
    StartEmpty,
}

/// What a failure of a kind leads to.
pub fn disposition(kind: ErrorKind) -> (r: Disposition)
    ensures
        r == match kind {
            ErrorKind::IoError => Disposition::Propagate,
            ErrorKind::EmbedderError => Disposition::SkipItem,
            ErrorKind::NetworkError => Disposition::Propagate,
            ErrorKind::AuthExpired => Disposition::Reauthenticate,
            ErrorKind::LoginFailed => Disposition::ForgetCredentials,
            ErrorKind::PdfExtractionFailed => Disposition::SkipItem,
            ErrorKind::DecodeError => Disposition::StartEmpty,
            ErrorKind::InvalidInput => Disposition::Propagate,
        },
{
    match kind {
        ErrorKind::IoError => Disposition::Propagate,
        ErrorKind::EmbedderError => Disposition::SkipItem,
        ErrorKind::NetworkError => Disposition::Propagate,
        ErrorKind::AuthExpired => Disposition::Reauthenticate,
        ErrorKind::LoginFailed => Disposition::ForgetCredentials,
        ErrorKind::PdfExtractionFailed => Disposition::SkipItem,
        ErrorKind::DecodeError => Disposition::StartEmpty,
        ErrorKind::InvalidInput => Disposition::Propagate,
    }
}

/// What an expired session leads to while a subject is scraped: the session
/// is renewed once; where it has expired again, the subject is given up.
pub fn on_auth_expired(renewed_before: bool) -> (r: Disposition)
    ensures
        r == if renewed_before {
            Disposition::Propagate
        } else {
            Disposition::Reauthenticate
        },
{
    if renewed_before {
        Disposition::Propagate
    } else {
        Disposition::Reauthenticate
    }
}

/// The kind of a failure of the embedder.
pub fn kind_of_embed_error(e: EmbedError) -> (r: ErrorKind)
    ensures
        r == match e {
            EmbedError::InvalidInput => ErrorKind::InvalidInput,
            EmbedError::EmbedderError => ErrorKind::EmbedderError,
        },
{
    match e {
        EmbedError::InvalidInput => ErrorKind::InvalidInput,
        EmbedError::EmbedderError => ErrorKind::EmbedderError,
    }
}

/// The kind of a failure of signing in.
pub fn kind_of_login_error(e: LoginError) -> (r: ErrorKind)
    ensures
        r == ErrorKind::LoginFailed,
{
    ErrorKind::LoginFailed
}

/// The kind of a failure of the resource processor.
pub fn kind_of_processing_error(e: ProcessingError) -> (r: ErrorKind)
    ensures
        r == ErrorKind::PdfExtractionFailed,
{
    ErrorKind::PdfExtractionFailed
}

} // verus!
