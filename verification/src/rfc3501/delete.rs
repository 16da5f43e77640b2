//! IMAP DELETE coroutine.

use imap_codec::fragmentizer::Fragmentizer;
use imap_codec::imap_types::mailbox::Mailbox;
use vstd::prelude::*;

use crate::command::{encode_mailbox_command, fresh_tag, CommandView, MailboxCommand};
use crate::coroutine::{arg_view, ImapCoroutine, ImapCoroutineState, ImapYield};
use crate::framing::framing;
use crate::outcome::{is_step, judge, result_view, step_view, verdict, FailureView, Refusal};
use crate::rfc3501::mailbox::{encode_inplace, wire_form};
use crate::send::{starts, ImapSend, ImapSendError, ImapSendOutput, OutputView, SendState};

verus! {

/// Failure causes during the IMAP DELETE flow.
#[derive(Clone, Debug)]
pub enum ImapMailboxDeleteError {
    /// The server rejected the command with a NO response.
    No(String),
    /// The server rejected the command with a BAD response.
    Bad(String),
    /// The server closed the connection with a BYE response.
    Bye(String),
    /// The server never answered with a tagged response.
    MissingTagged,
    /// The underlying exchange failed.
    Send(ImapSendError),
}

impl View for ImapMailboxDeleteError {
    type V = FailureView;

    open spec fn view(&self) -> FailureView {
        match *self {
            ImapMailboxDeleteError::No(text) => FailureView::No(text@),
            ImapMailboxDeleteError::Bad(text) => FailureView::Bad(text@),
            ImapMailboxDeleteError::Bye(text) => FailureView::Bye(text@),
            ImapMailboxDeleteError::MissingTagged => FailureView::MissingTagged,
            ImapMailboxDeleteError::Send(err) => FailureView::Send(err@),
        }
    }
}

impl ImapMailboxDeleteError {
    fn refused(refusal: Refusal) -> (err: Self)
        ensures
            err@ == refusal@,
    {
        match refusal {
            Refusal::No(text) => ImapMailboxDeleteError::No(text),
            Refusal::Bad(text) => ImapMailboxDeleteError::Bad(text),
            Refusal::Bye(text) => ImapMailboxDeleteError::Bye(text),
            Refusal::MissingTagged => ImapMailboxDeleteError::MissingTagged,
        }
    }
}

/// What the answer to DELETE amounts to.
pub open spec fn delete_outcome(output: OutputView) -> Result<(), FailureView> {
    match verdict(output) {
        Ok(_) => Ok(()),
        Err(err) => Err(err),
    }
}

/// I/O-free IMAP DELETE coroutine.
pub struct ImapMailboxDelete {
    send: ImapSend,
}

impl View for ImapMailboxDelete {
    type V = SendState;

    closed spec fn view(&self) -> SendState {
        self.send@
    }
}

impl ImapMailboxDelete {
    /// Creates a coroutine that sends DELETE for `mailbox` under a fresh
    /// tag.
    pub fn new(mailbox: Mailbox<'static>) -> (delete: Self)
        ensures
            starts(
                delete@,
                CommandView::Mailbox {
                    command: MailboxCommand::Delete,
                    mailbox: wire_form(mailbox),
                },
            ),
    {
        let mut mailbox = mailbox;
        encode_inplace(&mut mailbox);
        let encoded = encode_mailbox_command(fresh_tag(), MailboxCommand::Delete, mailbox);
        ImapMailboxDelete { send: ImapSend::new(encoded) }
    }

    /// What the answer to DELETE amounts to.
    pub fn finish(output: ImapSendOutput) -> (result: Result<(), ImapMailboxDeleteError>)
        ensures
            result_view(result) == delete_outcome(output@),
    {
        match judge(output.bye, output.tagged) {
            Ok(_) => Ok(()),
            Err(refusal) => Err(ImapMailboxDeleteError::refused(refusal)),
        }
    }
}

impl ImapCoroutine for ImapMailboxDelete {
    type Yield = ImapYield;

    type Return = Result<(), ImapMailboxDeleteError>;

    fn resume(&mut self, fragmentizer: &mut Fragmentizer, arg: Option<&[u8]>) -> (step:
        ImapCoroutineState<ImapYield, Result<(), ImapMailboxDeleteError>>)
        ensures
            is_step(
                (old(self)@, framing(*old(fragmentizer))),
                arg_view(arg),
                (final(self)@, framing(*final(fragmentizer))),
                step_view(step),
                |output: OutputView| delete_outcome(output),
            ),
    {
        match self.send.resume(fragmentizer, arg) {
            ImapCoroutineState::Yielded(y) => ImapCoroutineState::Yielded(y),
            ImapCoroutineState::Complete(Ok(output)) => ImapCoroutineState::Complete(
                Self::finish(output),
            ),
            ImapCoroutineState::Complete(Err(err)) => ImapCoroutineState::Complete(
                Err(ImapMailboxDeleteError::Send(err)),
            ),
        }
    }
}

} // verus!
