//! IMAP CREATE coroutine.

use imap_codec::fragmentizer::Fragmentizer;
use imap_codec::imap_types::mailbox::Mailbox;
use vstd::prelude::*;

use crate::command::{encode_mailbox_command, fresh_tag, CommandView, MailboxCommand};
use crate::coroutine::{arg_view, ImapCoroutine, ImapCoroutineState, ImapYield};
use crate::framing::framing;
use crate::outcome::{is_step, judge, result_view, step_view, verdict, FailureView, Refusal};
use crate::rfc3501::mailbox::{encode_inplace, wire_form};
use crate::send::{starts, ImapSend, ImapSendError, ImapSendOutput, OutputView, SendState};

verus! {

/// Failure causes during the IMAP CREATE flow.
#[derive(Clone, Debug)]
pub enum ImapMailboxCreateError {
    /// The server rejected the command with a NO response.
    No(String),
    /// The server rejected the command with a BAD response.
    Bad(String),
    /// The server closed the connection with a BYE response.
    Bye(String),
    /// The server never answered with a tagged response.
    MissingTagged,
    /// The underlying exchange failed.
    Send(ImapSendError),
}

impl View for ImapMailboxCreateError {
    type V = FailureView;

    open spec fn view(&self) -> FailureView {
        match *self {
            ImapMailboxCreateError::No(text) => FailureView::No(text@),
            ImapMailboxCreateError::Bad(text) => FailureView::Bad(text@),
            ImapMailboxCreateError::Bye(text) => FailureView::Bye(text@),
            ImapMailboxCreateError::MissingTagged => FailureView::MissingTagged,
            ImapMailboxCreateError::Send(err) => FailureView::Send(err@),
        }
    }
}

impl ImapMailboxCreateError {
    fn refused(refusal: Refusal) -> (err: Self)
        ensures
            err@ == refusal@,
    {
        match refusal {
            Refusal::No(text) => ImapMailboxCreateError::No(text),
            Refusal::Bad(text) => ImapMailboxCreateError::Bad(text),
            Refusal::Bye(text) => ImapMailboxCreateError::Bye(text),
            Refusal::MissingTagged => ImapMailboxCreateError::MissingTagged,
        }
    }
}

/// What the answer to CREATE amounts to.
pub open spec fn create_outcome(output: OutputView) -> Result<(), FailureView> {
    match verdict(output) {
        Ok(_) => Ok(()),
        Err(err) => Err(err),
    }
}

/// I/O-free IMAP CREATE coroutine.
pub struct ImapMailboxCreate {
    send: ImapSend,
}

impl View for ImapMailboxCreate {
    type V = SendState;

    closed spec fn view(&self) -> SendState {
        self.send@
    }
}

impl ImapMailboxCreate {
    /// Creates a coroutine that sends CREATE for `mailbox` under a fresh
    /// tag.
    pub fn new(mailbox: Mailbox<'static>) -> (create: Self)
        ensures
            starts(
                create@,
                CommandView::Mailbox {
                    command: MailboxCommand::Create,
                    mailbox: wire_form(mailbox),
                },
            ),
    {
        let mut mailbox = mailbox;
        encode_inplace(&mut mailbox);
        let encoded = encode_mailbox_command(fresh_tag(), MailboxCommand::Create, mailbox);
        ImapMailboxCreate { send: ImapSend::new(encoded) }
    }

    /// What the answer to CREATE amounts to.
    pub fn finish(output: ImapSendOutput) -> (result: Result<(), ImapMailboxCreateError>)
        ensures
            result_view(result) == create_outcome(output@),
    {
        match judge(output.bye, output.tagged) {
            Ok(_) => Ok(()),
            Err(refusal) => Err(ImapMailboxCreateError::refused(refusal)),
        }
    }
}

impl ImapCoroutine for ImapMailboxCreate {
    type Yield = ImapYield;

    type Return = Result<(), ImapMailboxCreateError>;

    fn resume(&mut self, fragmentizer: &mut Fragmentizer, arg: Option<&[u8]>) -> (step:
        ImapCoroutineState<ImapYield, Result<(), ImapMailboxCreateError>>)
        ensures
            is_step(
                (old(self)@, framing(*old(fragmentizer))),
                arg_view(arg),
                (final(self)@, framing(*final(fragmentizer))),
                step_view(step),
                |output: OutputView| create_outcome(output),
            ),
    {
        match self.send.resume(fragmentizer, arg) {
            ImapCoroutineState::Yielded(y) => ImapCoroutineState::Yielded(y),
            ImapCoroutineState::Complete(Ok(output)) => ImapCoroutineState::Complete(
                Self::finish(output),
            ),
            ImapCoroutineState::Complete(Err(err)) => ImapCoroutineState::Complete(
                Err(ImapMailboxCreateError::Send(err)),
            ),
        }
    }
}

} // verus!
