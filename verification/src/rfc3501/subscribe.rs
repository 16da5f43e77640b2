//! IMAP SUBSCRIBE coroutine.

use imap_codec::fragmentizer::Fragmentizer;
use imap_codec::imap_types::mailbox::Mailbox;
use vstd::prelude::*;

use crate::command::{encode_mailbox_command, fresh_tag, CommandView, MailboxCommand};
use crate::coroutine::{arg_view, ImapCoroutine, ImapCoroutineState, ImapYield};
use crate::framing::framing;
use crate::outcome::{is_step, judge, result_view, step_view, verdict, FailureView, Refusal};
use crate::rfc3501::mailbox::{encode_inplace, wire_form};
use crate::send::{starts, ImapSend, ImapSendError, ImapSendOutput, OutputView, SendState};

verus! {

/// Failure causes during the IMAP SUBSCRIBE flow.
#[derive(Clone, Debug)]
pub enum ImapMailboxSubscribeError {
    /// The server rejected the command with a NO response.
    No(String),
    /// The server rejected the command with a BAD response.
    Bad(String),
    /// The server closed the connection with a BYE response.
    Bye(String),
    /// The server never answered with a tagged response.
    MissingTagged,
    /// The underlying exchange failed.
    Send(ImapSendError),
}

impl View for ImapMailboxSubscribeError {
    type V = FailureView;

    open spec fn view(&self) -> FailureView {
        match *self {
            ImapMailboxSubscribeError::No(text) => FailureView::No(text@),
            ImapMailboxSubscribeError::Bad(text) => FailureView::Bad(text@),
            ImapMailboxSubscribeError::Bye(text) => FailureView::Bye(text@),
            ImapMailboxSubscribeError::MissingTagged => FailureView::MissingTagged,
            ImapMailboxSubscribeError::Send(err) => FailureView::Send(err@),
        }
    }
}

impl ImapMailboxSubscribeError {
    fn refused(refusal: Refusal) -> (err: Self)
        ensures
            err@ == refusal@,
    {
        match refusal {
            Refusal::No(text) => ImapMailboxSubscribeError::No(text),
            Refusal::Bad(text) => ImapMailboxSubscribeError::Bad(text),
            Refusal::Bye(text) => ImapMailboxSubscribeError::Bye(text),
            Refusal::MissingTagged => ImapMailboxSubscribeError::MissingTagged,
        }
    }
}

/// What the answer to SUBSCRIBE amounts to.
pub open spec fn subscribe_outcome(output: OutputView) -> Result<(), FailureView> {
    match verdict(output) {
        Ok(_) => Ok(()),
        Err(err) => Err(err),
    }
}

/// I/O-free IMAP SUBSCRIBE coroutine.
pub struct ImapMailboxSubscribe {
    send: ImapSend,
}

impl View for ImapMailboxSubscribe {
    type V = SendState;

    closed spec fn view(&self) -> SendState {
        self.send@
    }
}

impl ImapMailboxSubscribe {
    /// Creates a coroutine that sends SUBSCRIBE for `mailbox` under a fresh
    /// tag.
    pub fn new(mailbox: Mailbox<'static>) -> (subscribe: Self)
        ensures
            starts(
                subscribe@,
                CommandView::Mailbox {
                    command: MailboxCommand::Subscribe,
                    mailbox: wire_form(mailbox),
                },
            ),
    {
        let mut mailbox = mailbox;
        encode_inplace(&mut mailbox);
        let encoded = encode_mailbox_command(fresh_tag(), MailboxCommand::Subscribe, mailbox);
        ImapMailboxSubscribe { send: ImapSend::new(encoded) }
    }

    /// What the answer to SUBSCRIBE amounts to.
    pub fn finish(output: ImapSendOutput) -> (result: Result<(), ImapMailboxSubscribeError>)
        ensures
            result_view(result) == subscribe_outcome(output@),
    {
        match judge(output.bye, output.tagged) {
            Ok(_) => Ok(()),
            Err(refusal) => Err(ImapMailboxSubscribeError::refused(refusal)),
        }
    }
}

impl ImapCoroutine for ImapMailboxSubscribe {
    type Yield = ImapYield;

    type Return = Result<(), ImapMailboxSubscribeError>;

    fn resume(&mut self, fragmentizer: &mut Fragmentizer, arg: Option<&[u8]>) -> (step:
        ImapCoroutineState<ImapYield, Result<(), ImapMailboxSubscribeError>>)
        ensures
            is_step(
                (old(self)@, framing(*old(fragmentizer))),
                arg_view(arg),
                (final(self)@, framing(*final(fragmentizer))),
                step_view(step),
                |output: OutputView| subscribe_outcome(output),
            ),
    {
        match self.send.resume(fragmentizer, arg) {
            ImapCoroutineState::Yielded(y) => ImapCoroutineState::Yielded(y),
            ImapCoroutineState::Complete(Ok(output)) => ImapCoroutineState::Complete(
                Self::finish(output),
            ),
            ImapCoroutineState::Complete(Err(err)) => ImapCoroutineState::Complete(
                Err(ImapMailboxSubscribeError::Send(err)),
            ),
        }
    }
}

} // verus!
