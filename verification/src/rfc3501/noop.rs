//! IMAP NOOP coroutine, useful as keep-alive or update poll.

use imap_codec::fragmentizer::Fragmentizer;
use vstd::prelude::*;

use crate::command::{encode_bare, fresh_tag, BareCommand};
use crate::coroutine::{arg_view, ImapCoroutine, ImapCoroutineState, ImapYield};
use crate::framing::framing;
use crate::outcome::{is_step, judge, result_view, step_view, verdict, FailureView, Refusal};
use crate::send::{starts_bare, ImapSend, ImapSendError, ImapSendOutput, OutputView, SendState};

verus! {

/// Failure causes during the IMAP NOOP flow.
#[derive(Clone, Debug)]
pub enum ImapNoopError {
    /// The server rejected the command with a NO response.
    No(String),
    /// The server rejected the command with a BAD response.
    Bad(String),
    /// The server closed the connection with a BYE response.
    Bye(String),
    /// The server never answered with a tagged response.
    MissingTagged,
    /// The underlying exchange failed.
    Send(ImapSendError),
}

impl View for ImapNoopError {
    type V = FailureView;

    open spec fn view(&self) -> FailureView {
        match *self {
            ImapNoopError::No(text) => FailureView::No(text@),
            ImapNoopError::Bad(text) => FailureView::Bad(text@),
            ImapNoopError::Bye(text) => FailureView::Bye(text@),
            ImapNoopError::MissingTagged => FailureView::MissingTagged,
            ImapNoopError::Send(err) => FailureView::Send(err@),
        }
    }
}

impl ImapNoopError {
    fn refused(refusal: Refusal) -> (err: Self)
        ensures
            err@ == refusal@,
    {
        match refusal {
            Refusal::No(text) => ImapNoopError::No(text),
            Refusal::Bad(text) => ImapNoopError::Bad(text),
            Refusal::Bye(text) => ImapNoopError::Bye(text),
            Refusal::MissingTagged => ImapNoopError::MissingTagged,
        }
    }
}

/// What the answer to NOOP amounts to.
pub open spec fn noop_outcome(output: OutputView) -> Result<(), FailureView> {
    match verdict(output) {
        Ok(_) => Ok(()),
        Err(err) => Err(err),
    }
}

/// I/O-free IMAP NOOP coroutine.
pub struct ImapNoop {
    send: ImapSend,
}

impl View for ImapNoop {
    type V = SendState;

    closed spec fn view(&self) -> SendState {
        self.send@
    }
}

impl ImapNoop {
    /// Creates a coroutine that sends NOOP under a fresh tag.
    pub fn new() -> (noop: Self)
        ensures
            starts_bare(noop@, BareCommand::Noop),
    {
        ImapNoop { send: ImapSend::new(encode_bare(fresh_tag(), BareCommand::Noop)) }
    }

    /// What the answer to NOOP amounts to.
    pub fn finish(output: ImapSendOutput) -> (result: Result<(), ImapNoopError>)
        ensures
            result_view(result) == noop_outcome(output@),
    {
        match judge(output.bye, output.tagged) {
            Ok(_) => Ok(()),
            Err(refusal) => Err(ImapNoopError::refused(refusal)),
        }
    }
}

impl Default for ImapNoop {
    fn default() -> (noop: Self)
        ensures
            starts_bare(noop@, BareCommand::Noop),
    {
        Self::new()
    }
}

impl ImapCoroutine for ImapNoop {
    type Yield = ImapYield;

    type Return = Result<(), ImapNoopError>;

    fn resume(&mut self, fragmentizer: &mut Fragmentizer, arg: Option<&[u8]>) -> (step:
        ImapCoroutineState<ImapYield, Result<(), ImapNoopError>>)
        ensures
            is_step(
                (old(self)@, framing(*old(fragmentizer))),
                arg_view(arg),
                (final(self)@, framing(*final(fragmentizer))),
                step_view(step),
                |output: OutputView| noop_outcome(output),
            ),
    {
        match self.send.resume(fragmentizer, arg) {
            ImapCoroutineState::Yielded(y) => ImapCoroutineState::Yielded(y),
            ImapCoroutineState::Complete(Ok(output)) => ImapCoroutineState::Complete(
                Self::finish(output),
            ),
            ImapCoroutineState::Complete(Err(err)) => ImapCoroutineState::Complete(
                Err(ImapNoopError::Send(err)),
            ),
        }
    }
}

} // verus!
