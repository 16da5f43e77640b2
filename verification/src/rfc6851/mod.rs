//! MOVE: atomic message move.
//!
//! <https://www.rfc-editor.org/rfc/rfc6851>

pub mod message_move;
