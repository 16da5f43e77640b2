//! SORT and THREAD: message sorting and threading.
//!
//! <https://www.rfc-editor.org/rfc/rfc5256>

pub mod order;
pub mod sort;
pub mod sort_laws;
pub mod thread;
