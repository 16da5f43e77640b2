//! IMAP CHECK coroutine requesting a mailbox checkpoint.

use imap_codec::fragmentizer::Fragmentizer;
use vstd::prelude::*;

use crate::command::{encode_bare, fresh_tag, BareCommand};
use crate::coroutine::{arg_view, ImapCoroutine, ImapCoroutineState, ImapYield};
use crate::framing::framing;
use crate::outcome::{is_step, judge, result_view, step_view, verdict, FailureView, Refusal};
use crate::send::{starts_bare, ImapSend, ImapSendError, ImapSendOutput, OutputView, SendState};

verus! {

/// Failure causes during the IMAP CHECK flow.
#[derive(Clone, Debug)]
pub enum ImapMailboxCheckError {
    /// The server rejected the command with a NO response.
    No(String),
    /// The server rejected the command with a BAD response.
    Bad(String),
    /// The server closed the connection with a BYE response.
    Bye(String),
    /// The server never answered with a tagged response.
    MissingTagged,
    /// The underlying exchange failed.
    Send(ImapSendError),
}

impl View for ImapMailboxCheckError {
    type V = FailureView;

    open spec fn view(&self) -> FailureView {
        match *self {
            ImapMailboxCheckError::No(text) => FailureView::No(text@),
            ImapMailboxCheckError::Bad(text) => FailureView::Bad(text@),
            ImapMailboxCheckError::Bye(text) => FailureView::Bye(text@),
            ImapMailboxCheckError::MissingTagged => FailureView::MissingTagged,
            ImapMailboxCheckError::Send(err) => FailureView::Send(err@),
        }
    }
}

impl ImapMailboxCheckError {
    fn refused(refusal: Refusal) -> (err: Self)
        ensures
            err@ == refusal@,
    {
        match refusal {
            Refusal::No(text) => ImapMailboxCheckError::No(text),
            Refusal::Bad(text) => ImapMailboxCheckError::Bad(text),
            Refusal::Bye(text) => ImapMailboxCheckError::Bye(text),
            Refusal::MissingTagged => ImapMailboxCheckError::MissingTagged,
        }
    }
}

/// What the answer to CHECK amounts to.
pub open spec fn check_outcome(output: OutputView) -> Result<(), FailureView> {
    match verdict(output) {
        Ok(_) => Ok(()),
        Err(err) => Err(err),
    }
}

/// I/O-free IMAP CHECK coroutine.
pub struct ImapMailboxCheck {
    send: ImapSend,
}

impl View for ImapMailboxCheck {
    type V = SendState;

    closed spec fn view(&self) -> SendState {
        self.send@
    }
}

impl ImapMailboxCheck {
    /// Creates a coroutine that sends CHECK under a fresh tag.
    pub fn new() -> (check: Self)
        ensures
            starts_bare(check@, BareCommand::Check),
    {
        ImapMailboxCheck { send: ImapSend::new(encode_bare(fresh_tag(), BareCommand::Check)) }
    }

    /// What the answer to CHECK amounts to.
    pub fn finish(output: ImapSendOutput) -> (result: Result<(), ImapMailboxCheckError>)
        ensures
            result_view(result) == check_outcome(output@),
    {
        match judge(output.bye, output.tagged) {
            Ok(_) => Ok(()),
            Err(refusal) => Err(ImapMailboxCheckError::refused(refusal)),
        }
    }
}

impl Default for ImapMailboxCheck {
    fn default() -> (check: Self)
        ensures
            starts_bare(check@, BareCommand::Check),
    {
        Self::new()
    }
}

impl ImapCoroutine for ImapMailboxCheck {
    type Yield = ImapYield;

    type Return = Result<(), ImapMailboxCheckError>;

    fn resume(&mut self, fragmentizer: &mut Fragmentizer, arg: Option<&[u8]>) -> (step:
        ImapCoroutineState<ImapYield, Result<(), ImapMailboxCheckError>>)
        ensures
            is_step(
                (old(self)@, framing(*old(fragmentizer))),
                arg_view(arg),
                (final(self)@, framing(*final(fragmentizer))),
                step_view(step),
                |output: OutputView| check_outcome(output),
            ),
    {
        match self.send.resume(fragmentizer, arg) {
            ImapCoroutineState::Yielded(y) => ImapCoroutineState::Yielded(y),
            ImapCoroutineState::Complete(Ok(output)) => ImapCoroutineState::Complete(
                Self::finish(output),
            ),
            ImapCoroutineState::Complete(Err(err)) => ImapCoroutineState::Complete(
                Err(ImapMailboxCheckError::Send(err)),
            ),
        }
    }
}

} // verus!
