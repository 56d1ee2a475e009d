//! Errors that the request handlers report.
use vstd::prelude::*;
use crate::base62::DecodeError;

verus! {

/// Why request data was refused.
#[derive(Debug, Clone, Copy, PartialEq, Eq, Structural)]
pub enum InputError {
    UnknownReportType,
    ProjectNotFound,
    VersionNotFound,
    UserNotFound,
    UnknownItemType,
    /// Only moderators may close or reopen a report.
    CannotChangeClosed,
    /// An edited report body is longer than `MAX_REPORT_BODY` characters.
    BodyTooLong,
    /// The expiry date does not fit a timestamp.
    ExpiryOutOfRange,
}

#[derive(Debug, Clone, Copy, PartialEq, Eq, Structural)]
pub enum ApiError {
    /// An identifier in the request is not valid base62.
    Decoding(DecodeError),
    InvalidInput(InputError),
    /// The entity does not exist, or the caller may not see it.
    NotFound,
    /// The caller is identified but lacks the moderator role.
    Forbidden,
    /// No fresh identifier could be minted.
    ResourceExhausted,
}

} // verus!
