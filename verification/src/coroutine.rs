//! Generator-shaped coroutine contract.
//!
//! `Yield` covers intermediate progress, `Return` the terminal output,
//! [`ImapCoroutineState`] both.

use imap_codec::fragmentizer::Fragmentizer;
use vstd::prelude::*;

verus! {

/// Result of one [`ImapCoroutine::resume`] step.
#[derive(Debug)]
pub enum ImapCoroutineState<Y, R> {
    /// The coroutine needs I/O (or emitted an event) before it can
    /// progress.
    Yielded(Y),
    /// The coroutine is done; resuming it again is a logic error.
    Complete(R),
}

/// An I/O-free IMAP coroutine, resumed with the connection-wide
/// `Fragmentizer` and the bytes read by the caller.
pub trait ImapCoroutine {
    /// The request type yielded while the coroutine progresses.
    type Yield;

    /// The final value produced on completion.
    type Return;

    /// Pass `None` initially or after a `WantsWrite`, `Some(bytes)`
    /// after a `WantsRead`, `Some(&[])` on EOF.
    fn resume(
        &mut self,
        fragmentizer: &mut Fragmentizer,
        arg: Option<&[u8]>,
    ) -> ImapCoroutineState<Self::Yield, Self::Return>;
}

/// Standard socket-I/O yield variants; pick another type when extra
/// variants (events, etc.) are needed.
#[derive(Debug)]
pub enum ImapYield {
    /// The caller reads from its stream and resumes with the bytes.
    WantsRead,
    /// The caller writes the given bytes to its stream and resumes.
    WantsWrite(Vec<u8>),
}

/// Model of [`ImapYield`].
pub enum YieldView {
    WantsRead,
    WantsWrite(Seq<u8>),
}

impl View for ImapYield {
    type V = YieldView;

    open spec fn view(&self) -> YieldView {
        match *self {
            ImapYield::WantsRead => YieldView::WantsRead,
            ImapYield::WantsWrite(bytes) => YieldView::WantsWrite(bytes@),
        }
    }
}

/// The bytes that a coroutine is resumed with.
pub open spec fn arg_view(arg: Option<&[u8]>) -> Option<Seq<u8>> {
    match arg {
        Some(bytes) => Some(bytes@),
        None => None,
    }
}

} // verus!
