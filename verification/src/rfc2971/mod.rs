//! ID: server/client identification.
//!
//! <https://www.rfc-editor.org/rfc/rfc2971>

pub mod id;
