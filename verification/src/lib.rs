//! The authorization boundary of a metadata-driven query engine.
//!
//! Two cores share a session-variable vocabulary:
//!
//! * request authentication: a pure request builder and response
//!   interpreter for an operator-supplied authentication webhook
//!   (`headers`, `webhook`), producing an [`session::Identity`];
//! * permission resolution: a validating compiler from declarative
//!   per-role permission blocks to a typed permission table
//!   (`command_permissions`).
//!
//! The surrounding HTTP client, configuration loading and tracing are
//! collaborators of this crate, not part of it: they hand the functions
//! here plain values and take plain values back.

pub mod command_permissions;
pub mod commands;
pub mod config;
pub mod headers;
pub mod json;
pub mod names;
pub mod relationship;
pub mod session;
pub mod webhook;
pub mod table;

use vstd::prelude::*;

verus! {

/// True of a character that may appear in a normalized (lower-case) header
/// or session-variable name.
pub open spec fn is_name_char(c: char) -> bool {
    ('a' <= c && c <= 'z') || ('0' <= c && c <= '9') || c == '-' || c == '_' || c == '.'
}

} // verus!
