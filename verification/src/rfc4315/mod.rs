//! UIDPLUS: UID EXPUNGE and APPENDUID.
//!
//! <https://www.rfc-editor.org/rfc/rfc4315>

pub mod appenduid;
pub mod expunge_uid;
