//! IMAP RENAME coroutine.

use imap_codec::fragmentizer::Fragmentizer;
use imap_codec::imap_types::mailbox::Mailbox;
use vstd::prelude::*;

use crate::command::{encode_rename, fresh_tag, CommandView};
use crate::coroutine::{arg_view, ImapCoroutine, ImapCoroutineState, ImapYield};
use crate::framing::framing;
use crate::outcome::{is_step, judge, result_view, step_view, verdict, FailureView, Refusal};
use crate::rfc3501::mailbox::{encode_inplace, wire_form};
use crate::send::{starts, ImapSend, ImapSendError, ImapSendOutput, OutputView, SendState};

verus! {

/// Failure causes during the IMAP RENAME flow.
#[derive(Clone, Debug)]
pub enum ImapMailboxRenameError {
    /// The server rejected the command with a NO response.
    No(String),
    /// The server rejected the command with a BAD response.
    Bad(String),
    /// The server closed the connection with a BYE response.
    Bye(String),
    /// The server never answered with a tagged response.
    MissingTagged,
    /// The underlying exchange failed.
    Send(ImapSendError),
}

impl View for ImapMailboxRenameError {
    type V = FailureView;

    open spec fn view(&self) -> FailureView {
        match *self {
            ImapMailboxRenameError::No(text) => FailureView::No(text@),
            ImapMailboxRenameError::Bad(text) => FailureView::Bad(text@),
            ImapMailboxRenameError::Bye(text) => FailureView::Bye(text@),
            ImapMailboxRenameError::MissingTagged => FailureView::MissingTagged,
            ImapMailboxRenameError::Send(err) => FailureView::Send(err@),
        }
    }
}

impl ImapMailboxRenameError {
    fn refused(refusal: Refusal) -> (err: Self)
        ensures
            err@ == refusal@,
    {
        match refusal {
            Refusal::No(text) => ImapMailboxRenameError::No(text),
            Refusal::Bad(text) => ImapMailboxRenameError::Bad(text),
            Refusal::Bye(text) => ImapMailboxRenameError::Bye(text),
            Refusal::MissingTagged => ImapMailboxRenameError::MissingTagged,
        }
    }
}

/// What the answer to RENAME amounts to.
pub open spec fn rename_outcome(output: OutputView) -> Result<(), FailureView> {
    match verdict(output) {
        Ok(_) => Ok(()),
        Err(err) => Err(err),
    }
}

/// I/O-free IMAP RENAME coroutine.
pub struct ImapMailboxRename {
    send: ImapSend,
}

impl View for ImapMailboxRename {
    type V = SendState;

    closed spec fn view(&self) -> SendState {
        self.send@
    }
}

impl ImapMailboxRename {
    /// Creates a coroutine that renames mailbox `source` to `target`, under
    /// a fresh tag.
    pub fn new(source: Mailbox<'static>, target: Mailbox<'static>) -> (rename: Self)
        ensures
            starts(
                rename@,
                CommandView::Rename { source: wire_form(source), target: wire_form(target) },
            ),
    {
        let mut source = source;
        let mut target = target;
        encode_inplace(&mut source);
        encode_inplace(&mut target);
        ImapMailboxRename { send: ImapSend::new(encode_rename(fresh_tag(), source, target)) }
    }

    /// What the answer to RENAME amounts to.
    pub fn finish(output: ImapSendOutput) -> (result: Result<(), ImapMailboxRenameError>)
        ensures
            result_view(result) == rename_outcome(output@),
    {
        match judge(output.bye, output.tagged) {
            Ok(_) => Ok(()),
            Err(refusal) => Err(ImapMailboxRenameError::refused(refusal)),
        }
    }
}

impl ImapCoroutine for ImapMailboxRename {
    type Yield = ImapYield;

    type Return = Result<(), ImapMailboxRenameError>;

    fn resume(&mut self, fragmentizer: &mut Fragmentizer, arg: Option<&[u8]>) -> (step:
        ImapCoroutineState<ImapYield, Result<(), ImapMailboxRenameError>>)
        ensures
            is_step(
                (old(self)@, framing(*old(fragmentizer))),
                arg_view(arg),
                (final(self)@, framing(*final(fragmentizer))),
                step_view(step),
                |output: OutputView| rename_outcome(output),
            ),
    {
        match self.send.resume(fragmentizer, arg) {
            ImapCoroutineState::Yielded(y) => ImapCoroutineState::Yielded(y),
            ImapCoroutineState::Complete(Ok(output)) => ImapCoroutineState::Complete(
                Self::finish(output),
            ),
            ImapCoroutineState::Complete(Err(err)) => ImapCoroutineState::Complete(
                Err(ImapMailboxRenameError::Send(err)),
            ),
        }
    }
}

} // verus!
