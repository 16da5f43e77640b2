//! IMAP UNSELECT coroutine discarding the mailbox state without expunge.

use imap_codec::fragmentizer::Fragmentizer;
use vstd::prelude::*;

use crate::command::{encode_bare, fresh_tag, BareCommand};
use crate::coroutine::{arg_view, ImapCoroutine, ImapCoroutineState, ImapYield};
use crate::framing::framing;
use crate::outcome::{is_step, judge, result_view, step_view, verdict, FailureView, Refusal};
use crate::send::{starts_bare, ImapSend, ImapSendError, ImapSendOutput, OutputView, SendState};

verus! {

/// Failure causes during the IMAP UNSELECT flow.
#[derive(Clone, Debug)]
pub enum ImapMailboxUnselectError {
    /// The server rejected the command with a NO response.
    No(String),
    /// The server rejected the command with a BAD response.
    Bad(String),
    /// The server closed the connection with a BYE response.
    Bye(String),
    /// The server never answered with a tagged response.
    MissingTagged,
    /// The underlying exchange failed.
    Send(ImapSendError),
}

impl View for ImapMailboxUnselectError {
    type V = FailureView;

    open spec fn view(&self) -> FailureView {
        match *self {
            ImapMailboxUnselectError::No(text) => FailureView::No(text@),
            ImapMailboxUnselectError::Bad(text) => FailureView::Bad(text@),
            ImapMailboxUnselectError::Bye(text) => FailureView::Bye(text@),
            ImapMailboxUnselectError::MissingTagged => FailureView::MissingTagged,
            ImapMailboxUnselectError::Send(err) => FailureView::Send(err@),
        }
    }
}

impl ImapMailboxUnselectError {
    fn refused(refusal: Refusal) -> (err: Self)
        ensures
            err@ == refusal@,
    {
        match refusal {
            Refusal::No(text) => ImapMailboxUnselectError::No(text),
            Refusal::Bad(text) => ImapMailboxUnselectError::Bad(text),
            Refusal::Bye(text) => ImapMailboxUnselectError::Bye(text),
            Refusal::MissingTagged => ImapMailboxUnselectError::MissingTagged,
        }
    }
}

/// What the answer to UNSELECT amounts to.
pub open spec fn unselect_outcome(output: OutputView) -> Result<(), FailureView> {
    match verdict(output) {
        Ok(_) => Ok(()),
        Err(err) => Err(err),
    }
}

/// I/O-free IMAP UNSELECT coroutine.
pub struct ImapMailboxUnselect {
    send: ImapSend,
}

impl View for ImapMailboxUnselect {
    type V = SendState;

    closed spec fn view(&self) -> SendState {
        self.send@
    }
}

impl ImapMailboxUnselect {
    /// Creates a coroutine that sends UNSELECT under a fresh tag.
    pub fn new() -> (unselect: Self)
        ensures
            starts_bare(unselect@, BareCommand::Unselect),
    {
        ImapMailboxUnselect { send: ImapSend::new(encode_bare(fresh_tag(), BareCommand::Unselect)) }
    }

    /// What the answer to UNSELECT amounts to.
    pub fn finish(output: ImapSendOutput) -> (result: Result<(), ImapMailboxUnselectError>)
        ensures
            result_view(result) == unselect_outcome(output@),
    {
        match judge(output.bye, output.tagged) {
            Ok(_) => Ok(()),
            Err(refusal) => Err(ImapMailboxUnselectError::refused(refusal)),
        }
    }
}

impl Default for ImapMailboxUnselect {
    fn default() -> (unselect: Self)
        ensures
            starts_bare(unselect@, BareCommand::Unselect),
    {
        Self::new()
    }
}

impl ImapCoroutine for ImapMailboxUnselect {
    type Yield = ImapYield;

    type Return = Result<(), ImapMailboxUnselectError>;

    fn resume(&mut self, fragmentizer: &mut Fragmentizer, arg: Option<&[u8]>) -> (step:
        ImapCoroutineState<ImapYield, Result<(), ImapMailboxUnselectError>>)
        ensures
            is_step(
                (old(self)@, framing(*old(fragmentizer))),
                arg_view(arg),
                (final(self)@, framing(*final(fragmentizer))),
                step_view(step),
                |output: OutputView| unselect_outcome(output),
            ),
    {
        match self.send.resume(fragmentizer, arg) {
            ImapCoroutineState::Yielded(y) => ImapCoroutineState::Yielded(y),
            ImapCoroutineState::Complete(Ok(output)) => ImapCoroutineState::Complete(
                Self::finish(output),
            ),
            ImapCoroutineState::Complete(Err(err)) => ImapCoroutineState::Complete(
                Err(ImapMailboxUnselectError::Send(err)),
            ),
        }
    }
}

} // verus!
