//! ENABLE: capability activation.
//!
//! <https://www.rfc-editor.org/rfc/rfc5161>

pub mod enable;
