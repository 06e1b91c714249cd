//! Failure taxonomy of the ingestion core.

use vstd::prelude::*;

verus! {

/// Every way an upload or a file lookup can fail.
///
/// The first group are client-input errors (rendered as 4xx by the HTTP
/// layer), `PathEscape` is a path-security error (4xx, logged at elevated
/// severity), and the last two are storage errors (5xx).
#[derive(Clone, Copy, Debug, PartialEq, Eq, Structural)]
pub enum UploadError {
    /// The candidate filename is empty or a bare `.` segment.
    InvalidName,
    /// The candidate filename would resolve outside the upload root:
    /// it is the `..` segment or smuggles a path separator.
    PathEscape,
    /// The `Content-Disposition` header does not follow its grammar.
    MalformedHeader,
    /// A raw-body upload arrived without a `Content-Disposition` header.
    MissingHeader,
    /// The disposition carries no filename parameter; a destination name
    /// is mandatory and is never substituted silently.
    MissingFilename,
    /// A multipart content type declares no `boundary` parameter.
    MissingBoundary,
    /// The multipart body is truncated or otherwise breaks its grammar.
    MalformedBody,
    /// No part of the multipart body carries the expected upload field.
    NoFilePart,
    /// The body exceeds the configured maximum upload size.
    SizeExceeded,
    /// The destination name is already taken and the collision policy
    /// refuses to replace it.
    Conflict,
    /// The storage backend failed mid-stream; reported by the transport
    /// layer, never by the verified core itself.
    IoFailure,
}

} // verus!
