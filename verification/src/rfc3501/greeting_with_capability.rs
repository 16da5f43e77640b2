//! IMAP server greeting reader that always ends with the capabilities of
//! the server: those of the greeting, or those of a CAPABILITY
//! round-trip.

use imap_codec::fragmentizer::Fragmentizer;
use vstd::prelude::*;

use crate::coroutine::{arg_view, ImapCoroutine, ImapCoroutineState, ImapYield};
use crate::framing::framing;
use crate::outcome::{step_view, FailureView};
use crate::rfc3501::capability::ImapCapabilityGetError;
use crate::rfc3501::greeting::{
    GreetingResult, GreetingState, ImapGreetingGet, ImapGreetingGetError, ImapGreetingGetOptions,
    ImapGreetingOk,
};

verus! {

/// Failure causes while reading the greeting and the capabilities.
#[derive(Clone, Debug)]
pub enum ImapGreetingWithCapabilityGetError {
    /// Reading the greeting failed.
    Greeting(ImapGreetingGetError),
    /// The CAPABILITY round-trip failed.
    Capability(ImapCapabilityGetError),
}

impl View for ImapGreetingWithCapabilityGetError {
    type V = FailureView;

    open spec fn view(&self) -> FailureView {
        match *self {
            ImapGreetingWithCapabilityGetError::Greeting(err) => FailureView::Greeting(
                Box::new(err@),
            ),
            ImapGreetingWithCapabilityGetError::Capability(err) => FailureView::Capability(
                Box::new(err@),
            ),
        }
    }
}

/// A failure to read the greeting is told from one to get the
/// capabilities.
pub open spec fn attributed(err: FailureView) -> FailureView {
    match err {
        FailureView::Capability(err) => FailureView::Capability(err),
        err => FailureView::Greeting(Box::new(err)),
    }
}

/// What a step returns, when reading the greeting returns `result`.
pub open spec fn attributed_result(result: GreetingResult) -> GreetingResult {
    match result {
        ImapCoroutineState::Complete(Err(err)) => ImapCoroutineState::Complete(
            Err(attributed(err)),
        ),
        result => result,
    }
}

/// I/O-free coroutine reading the greeting, then the capabilities, of an
/// IMAP server.
pub struct ImapGreetingWithCapabilityGet {
    greeting: ImapGreetingGet,
}

impl View for ImapGreetingWithCapabilityGet {
    type V = GreetingState;

    closed spec fn view(&self) -> GreetingState {
        self.greeting@
    }
}

impl ImapGreetingWithCapabilityGet {
    /// Creates a coroutine that reads the greeting and the capabilities.
    pub fn new() -> (greeting: Self)
        ensures
            greeting@ == GreetingState::start(true),
    {
        let opts = ImapGreetingGetOptions { ensure_capabilities: true };
        ImapGreetingWithCapabilityGet { greeting: ImapGreetingGet::new(opts) }
    }
}

impl ImapCoroutine for ImapGreetingWithCapabilityGet {
    type Yield = ImapYield;

    type Return = Result<ImapGreetingOk, ImapGreetingWithCapabilityGetError>;

    fn resume(&mut self, fragmentizer: &mut Fragmentizer, arg: Option<&[u8]>) -> (step:
        ImapCoroutineState<ImapYield, Result<ImapGreetingOk, ImapGreetingWithCapabilityGetError>>)
        ensures
            exists|result: GreetingResult| #[trigger]
                attributed_result(result) == step_view(step) && old(self)@.steps(
                    framing(*old(fragmentizer)),
                    arg_view(arg),
                    (final(self)@, framing(*final(fragmentizer))),
                    result,
                ),
    {
        let inner = self.greeting.resume(fragmentizer, arg);
        let ghost result = step_view(inner);
        let step = match inner {
            ImapCoroutineState::Yielded(y) => ImapCoroutineState::Yielded(y),
            ImapCoroutineState::Complete(Ok(greeting)) => ImapCoroutineState::Complete(
                Ok(greeting),
            ),
            ImapCoroutineState::Complete(Err(ImapGreetingGetError::Capability(err))) => {
                ImapCoroutineState::Complete(
                    Err(ImapGreetingWithCapabilityGetError::Capability(err)),
                )
            },
            ImapCoroutineState::Complete(Err(err)) => ImapCoroutineState::Complete(
                Err(ImapGreetingWithCapabilityGetError::Greeting(err)),
            ),
        };
        assert(attributed_result(result) == step_view(step));
        step
    }
}

} // verus!
