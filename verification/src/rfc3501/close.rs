//! IMAP CLOSE coroutine expunging deleted messages and unselecting the
//! mailbox.

use imap_codec::fragmentizer::Fragmentizer;
use vstd::prelude::*;

use crate::command::{encode_bare, fresh_tag, BareCommand};
use crate::coroutine::{arg_view, ImapCoroutine, ImapCoroutineState, ImapYield};
use crate::framing::framing;
use crate::outcome::{is_step, judge, result_view, step_view, verdict, FailureView, Refusal};
use crate::send::{starts_bare, ImapSend, ImapSendError, ImapSendOutput, OutputView, SendState};

verus! {

/// Failure causes during the IMAP CLOSE flow.
#[derive(Clone, Debug)]
pub enum ImapMailboxCloseError {
    /// The server rejected the command with a NO response.
    No(String),
    /// The server rejected the command with a BAD response.
    Bad(String),
    /// The server closed the connection with a BYE response.
    Bye(String),
    /// The server never answered with a tagged response.
    MissingTagged,
    /// The underlying exchange failed.
    Send(ImapSendError),
}

impl View for ImapMailboxCloseError {
    type V = FailureView;

    open spec fn view(&self) -> FailureView {
        match *self {
            ImapMailboxCloseError::No(text) => FailureView::No(text@),
            ImapMailboxCloseError::Bad(text) => FailureView::Bad(text@),
            ImapMailboxCloseError::Bye(text) => FailureView::Bye(text@),
            ImapMailboxCloseError::MissingTagged => FailureView::MissingTagged,
            ImapMailboxCloseError::Send(err) => FailureView::Send(err@),
        }
    }
}

impl ImapMailboxCloseError {
    fn refused(refusal: Refusal) -> (err: Self)
        ensures
            err@ == refusal@,
    {
        match refusal {
            Refusal::No(text) => ImapMailboxCloseError::No(text),
            Refusal::Bad(text) => ImapMailboxCloseError::Bad(text),
            Refusal::Bye(text) => ImapMailboxCloseError::Bye(text),
            Refusal::MissingTagged => ImapMailboxCloseError::MissingTagged,
        }
    }
}

/// What the answer to CLOSE amounts to.
pub open spec fn close_outcome(output: OutputView) -> Result<(), FailureView> {
    match verdict(output) {
        Ok(_) => Ok(()),
        Err(err) => Err(err),
    }
}

/// I/O-free IMAP CLOSE coroutine.
pub struct ImapMailboxClose {
    send: ImapSend,
}

impl View for ImapMailboxClose {
    type V = SendState;

    closed spec fn view(&self) -> SendState {
        self.send@
    }
}

impl ImapMailboxClose {
    /// Creates a coroutine that sends CLOSE under a fresh tag.
    pub fn new() -> (close: Self)
        ensures
            starts_bare(close@, BareCommand::Close),
    {
        ImapMailboxClose { send: ImapSend::new(encode_bare(fresh_tag(), BareCommand::Close)) }
    }

    /// What the answer to CLOSE amounts to.
    pub fn finish(output: ImapSendOutput) -> (result: Result<(), ImapMailboxCloseError>)
        ensures
            result_view(result) == close_outcome(output@),
    {
        match judge(output.bye, output.tagged) {
            Ok(_) => Ok(()),
            Err(refusal) => Err(ImapMailboxCloseError::refused(refusal)),
        }
    }
}

impl Default for ImapMailboxClose {
    fn default() -> (close: Self)
        ensures
            starts_bare(close@, BareCommand::Close),
    {
        Self::new()
    }
}

impl ImapCoroutine for ImapMailboxClose {
    type Yield = ImapYield;

    type Return = Result<(), ImapMailboxCloseError>;

    fn resume(&mut self, fragmentizer: &mut Fragmentizer, arg: Option<&[u8]>) -> (step:
        ImapCoroutineState<ImapYield, Result<(), ImapMailboxCloseError>>)
        ensures
            is_step(
                (old(self)@, framing(*old(fragmentizer))),
                arg_view(arg),
                (final(self)@, framing(*final(fragmentizer))),
                step_view(step),
                |output: OutputView| close_outcome(output),
            ),
    {
        match self.send.resume(fragmentizer, arg) {
            ImapCoroutineState::Yielded(y) => ImapCoroutineState::Yielded(y),
            ImapCoroutineState::Complete(Ok(output)) => ImapCoroutineState::Complete(
                Self::finish(output),
            ),
            ImapCoroutineState::Complete(Err(err)) => ImapCoroutineState::Complete(
                Err(ImapMailboxCloseError::Send(err)),
            ),
        }
    }
}

} // verus!
