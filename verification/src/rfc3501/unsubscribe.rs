//! IMAP UNSUBSCRIBE coroutine.

use imap_codec::fragmentizer::Fragmentizer;
use imap_codec::imap_types::mailbox::Mailbox;
use vstd::prelude::*;

use crate::command::{encode_mailbox_command, fresh_tag, CommandView, MailboxCommand};
use crate::coroutine::{arg_view, ImapCoroutine, ImapCoroutineState, ImapYield};
use crate::framing::framing;
use crate::outcome::{is_step, judge, result_view, step_view, verdict, FailureView, Refusal};
use crate::rfc3501::mailbox::{encode_inplace, wire_form};
use crate::send::{starts, ImapSend, ImapSendError, ImapSendOutput, OutputView, SendState};

verus! {

/// Failure causes during the IMAP UNSUBSCRIBE flow.
#[derive(Clone, Debug)]
pub enum ImapMailboxUnsubscribeError {
    /// The server rejected the command with a NO response.
    No(String),
    /// The server rejected the command with a BAD response.
    Bad(String),
    /// The server closed the connection with a BYE response.
    Bye(String),
    /// The server never answered with a tagged response.
    MissingTagged,
    /// The underlying exchange failed.
    Send(ImapSendError),
}

impl View for ImapMailboxUnsubscribeError {
    type V = FailureView;

    open spec fn view(&self) -> FailureView {
        match *self {
            ImapMailboxUnsubscribeError::No(text) => FailureView::No(text@),
            ImapMailboxUnsubscribeError::Bad(text) => FailureView::Bad(text@),
            ImapMailboxUnsubscribeError::Bye(text) => FailureView::Bye(text@),
            ImapMailboxUnsubscribeError::MissingTagged => FailureView::MissingTagged,
            ImapMailboxUnsubscribeError::Send(err) => FailureView::Send(err@),
        }
    }
}

impl ImapMailboxUnsubscribeError {
    fn refused(refusal: Refusal) -> (err: Self)
        ensures
            err@ == refusal@,
    {
        match refusal {
            Refusal::No(text) => ImapMailboxUnsubscribeError::No(text),
            Refusal::Bad(text) => ImapMailboxUnsubscribeError::Bad(text),
            Refusal::Bye(text) => ImapMailboxUnsubscribeError::Bye(text),
            Refusal::MissingTagged => ImapMailboxUnsubscribeError::MissingTagged,
        }
    }
}

/// What the answer to UNSUBSCRIBE amounts to.
pub open spec fn unsubscribe_outcome(output: OutputView) -> Result<(), FailureView> {
    match verdict(output) {
        Ok(_) => Ok(()),
        Err(err) => Err(err),
    }
}

/// I/O-free IMAP UNSUBSCRIBE coroutine.
pub struct ImapMailboxUnsubscribe {
    send: ImapSend,
}

impl View for ImapMailboxUnsubscribe {
    type V = SendState;

    closed spec fn view(&self) -> SendState {
        self.send@
    }
}

impl ImapMailboxUnsubscribe {
    /// Creates a coroutine that sends UNSUBSCRIBE for `mailbox` under a fresh
    /// tag.
    pub fn new(mailbox: Mailbox<'static>) -> (unsubscribe: Self)
        ensures
            starts(
                unsubscribe@,
                CommandView::Mailbox {
                    command: MailboxCommand::Unsubscribe,
                    mailbox: wire_form(mailbox),
                },
            ),
    {
        let mut mailbox = mailbox;
        encode_inplace(&mut mailbox);
        let encoded = encode_mailbox_command(fresh_tag(), MailboxCommand::Unsubscribe, mailbox);
        ImapMailboxUnsubscribe { send: ImapSend::new(encoded) }
    }

    /// What the answer to UNSUBSCRIBE amounts to.
    pub fn finish(output: ImapSendOutput) -> (result: Result<(), ImapMailboxUnsubscribeError>)
        ensures
            result_view(result) == unsubscribe_outcome(output@),
    {
        match judge(output.bye, output.tagged) {
            Ok(_) => Ok(()),
            Err(refusal) => Err(ImapMailboxUnsubscribeError::refused(refusal)),
        }
    }
}

impl ImapCoroutine for ImapMailboxUnsubscribe {
    type Yield = ImapYield;

    type Return = Result<(), ImapMailboxUnsubscribeError>;

    fn resume(&mut self, fragmentizer: &mut Fragmentizer, arg: Option<&[u8]>) -> (step:
        ImapCoroutineState<ImapYield, Result<(), ImapMailboxUnsubscribeError>>)
        ensures
            is_step(
                (old(self)@, framing(*old(fragmentizer))),
                arg_view(arg),
                (final(self)@, framing(*final(fragmentizer))),
                step_view(step),
                |output: OutputView| unsubscribe_outcome(output),
            ),
    {
        match self.send.resume(fragmentizer, arg) {
            ImapCoroutineState::Yielded(y) => ImapCoroutineState::Yielded(y),
            ImapCoroutineState::Complete(Ok(output)) => ImapCoroutineState::Complete(
                Self::finish(output),
            ),
            ImapCoroutineState::Complete(Err(err)) => ImapCoroutineState::Complete(
                Err(ImapMailboxUnsubscribeError::Send(err)),
            ),
        }
    }
}

} // verus!
