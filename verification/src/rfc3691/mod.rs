//! UNSELECT: discard mailbox state without expunge.
//!
//! <https://www.rfc-editor.org/rfc/rfc3691>

pub mod unselect;
