//! Moderation reports and personal access tokens.
//!
//! The store (`database`) holds tokens, reports, discussion threads and
//! their messages. Tokens are issued, listed, edited, revoked and resolved
//! to their owner (`pats`, `pat`); reports are filed against a project,
//! version or user, listed, read, edited and deleted under the access rules
//! of `reports`, each bound to a thread (`thread_item`). Identifiers are
//! random (`ids`) and shown in base62 (`base62`). The current time is
//! passed in as seconds since the Unix epoch.
pub mod base62;
pub mod database;
pub mod error;
pub mod ids;
pub mod pat;
pub mod pats;
pub mod report_item;
pub mod reports;
pub mod thread_item;
pub mod users;
