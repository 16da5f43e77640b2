//! I/O-free IMAP client coroutines.
//!
//! Every command exchange is a resumable state machine that emits read
//! and write requests instead of performing I/O itself: the caller owns
//! the socket and pumps the coroutine. The wire format is imap-codec's
//! work. It is re-exported as [`codec`], with imap-types as [`types`],
//! so that callers encode and decode with the same version.
//!
//! # The coroutine contract
//!
//! Every coroutine implements [`coroutine::ImapCoroutine`]. `resume`
//! takes the `Fragmentizer` (the connection-wide parser buffer, shared by
//! every coroutine run on that connection so that partial reads survive
//! between commands) and the bytes read, if any. It returns a yield or
//! the terminal result. The standard yield is [`coroutine::ImapYield`];
//! the IDLE coroutine adds events, and those that stream message bodies
//! add chunks.
//!
//! # The exchange
//!
//! Every command is one exchange ([`send`]): the command is written,
//! pausing at each synchronising literal until the server asks for it;
//! then the response is collected. Data and untagged status lines
//! accumulate; a tagged line, a BYE or a continuation request ends the
//! exchange; untagged lines that cannot be decoded are skipped.
//!
//! # The models
//!
//! The state of a coroutine is modelled by a state of its own, such as
//! [`send::SendState`], and the parser buffer by [`framing::Framing`].
//! The contract of `resume` says how both change and what is returned,
//! as a function of the bytes read; it leaves open only the tags of the
//! commands that a coroutine starts and, for IDLE, what the caller's flag
//! says and how much time elapsed.
//! [`outcome`] says how the answer to a command is judged.
//!
//! What all of this is for is stated apart from the models' own
//! definitions, as laws over the responses, messages and bytes on the
//! wire: [`laws`] for the outcomes of commands, [`send_laws`] for the
//! exchange, the modules whose names end in `_laws` for their neighbours.
//! [`models`] says what the models show of the values they stand for.
//!
//! # Layout
//!
//! There is one module per RFC: [`rfc3501`] (IMAP4rev1), [`rfc2177`]
//! (IDLE), [`rfc2971`] (ID), [`rfc3691`] (UNSELECT), [`rfc4315`]
//! (UIDPLUS), [`rfc5161`] (ENABLE), [`rfc5256`] (SORT and THREAD) and
//! [`rfc6851`] (MOVE). CONDSTORE and QRESYNC (RFC 7162) surface as
//! parameters and response fields of the SELECT, EXAMINE and FETCH
//! coroutines.

pub mod client;
pub mod command;
pub mod context;
pub mod coroutine;
pub mod framing;
pub mod laws;
pub mod models;
pub mod outcome;
pub mod response;
pub mod rfc2177;
pub mod rfc2971;
pub mod rfc3501;
pub mod rfc3691;
pub mod rfc4315;
pub mod rfc5161;
pub mod rfc5256;
pub mod rfc6851;
pub mod send;
pub mod send_laws;

pub use imap_codec as codec;
pub use imap_codec::imap_types as types;
