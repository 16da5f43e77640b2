//! IDLE: push notification.
//!
//! <https://www.rfc-editor.org/rfc/rfc2177>

pub mod idle;
pub mod idle_laws;
