//! IMAP EXAMINE coroutine opening a mailbox read-only.
//!
//! Read-only counterpart of SELECT: same response shape (FLAGS / EXISTS /
//! RECENT / UNSEEN / PERMANENTFLAGS / UIDNEXT / UIDVALIDITY) plus the
//! CONDSTORE / QRESYNC extras (HIGHESTMODSEQ, VANISHED (EARLIER), implicit
//! FETCH) when the caller supplies the matching parameters.

use imap_codec::fragmentizer::Fragmentizer;
use imap_codec::imap_types::command::SelectParameter;
use imap_codec::imap_types::mailbox::Mailbox;
use vstd::prelude::*;

use crate::command::{encode_open, fresh_tag, CommandView, OpenCommand};
use crate::coroutine::{arg_view, ImapCoroutine, ImapCoroutineState, ImapYield};
use crate::framing::framing;
use crate::outcome::{is_step, judge, result_view, step_view, verdict, FailureView, Refusal};
use crate::rfc3501::mailbox::{encode_inplace, wire_form};
use crate::rfc3501::select::{mailbox_data, with_statuses, SelectData, SelectFetch, SelectView};
use crate::send::{starts, ImapSend, ImapSendError, ImapSendOutput, OutputView, SendState};

verus! {

/// Alias for [`SelectData`] returned by EXAMINE.
pub type ExamineData = SelectData;

/// Alias for [`SelectFetch`] returned by EXAMINE under QRESYNC.
pub type ExamineFetch = SelectFetch;

/// Failure causes during the IMAP EXAMINE flow.
#[derive(Clone, Debug)]
pub enum ImapMailboxExamineError {
    /// The server rejected the command with a NO response.
    No(String),
    /// The server rejected the command with a BAD response.
    Bad(String),
    /// The server closed the connection with a BYE response.
    Bye(String),
    /// The server never answered with a tagged response.
    MissingTagged,
    /// The underlying exchange failed.
    Send(ImapSendError),
}

impl View for ImapMailboxExamineError {
    type V = FailureView;

    open spec fn view(&self) -> FailureView {
        match *self {
            ImapMailboxExamineError::No(text) => FailureView::No(text@),
            ImapMailboxExamineError::Bad(text) => FailureView::Bad(text@),
            ImapMailboxExamineError::Bye(text) => FailureView::Bye(text@),
            ImapMailboxExamineError::MissingTagged => FailureView::MissingTagged,
            ImapMailboxExamineError::Send(err) => FailureView::Send(err@),
        }
    }
}

impl ImapMailboxExamineError {
    fn refused(refusal: Refusal) -> (err: Self)
        ensures
            err@ == refusal@,
    {
        match refusal {
            Refusal::No(text) => ImapMailboxExamineError::No(text),
            Refusal::Bad(text) => ImapMailboxExamineError::Bad(text),
            Refusal::Bye(text) => ImapMailboxExamineError::Bye(text),
            Refusal::MissingTagged => ImapMailboxExamineError::MissingTagged,
        }
    }
}

/// Options for [`ImapMailboxExamine::new`].
#[derive(Debug)]
pub struct ImapMailboxExamineOptions {
    /// SELECT/EXAMINE parameters (RFC 4466). Pass CONDSTORE or QRESYNC to
    /// opt into the matching extras in the response. Default: empty
    /// (plain EXAMINE).
    pub parameters: Vec<SelectParameter>,
}

impl Default for ImapMailboxExamineOptions {
    fn default() -> (opts: Self)
        ensures
            opts.parameters@.len() == 0,
    {
        ImapMailboxExamineOptions { parameters: Vec::new() }
    }
}

/// What the answer to EXAMINE amounts to.
pub open spec fn examine_outcome(output: OutputView) -> Result<SelectView, FailureView> {
    match verdict(output) {
        Ok(_) => Ok(with_statuses(mailbox_data(output.data), output.untagged)),
        Err(err) => Err(err),
    }
}

/// I/O-free IMAP EXAMINE coroutine.
pub struct ImapMailboxExamine {
    send: ImapSend,
}

impl View for ImapMailboxExamine {
    type V = SendState;

    closed spec fn view(&self) -> SendState {
        self.send@
    }
}

impl ImapMailboxExamine {
    /// Creates a coroutine that opens `mailbox`, under a fresh tag.
    pub fn new(mailbox: Mailbox<'static>, opts: ImapMailboxExamineOptions) -> (examine: Self)
        ensures
            starts(
                examine@,
                CommandView::Open {
                    command: OpenCommand::Examine,
                    mailbox: wire_form(mailbox),
                    parameters: opts.parameters@,
                },
            ),
    {
        let mut mailbox = mailbox;
        encode_inplace(&mut mailbox);
        let encoded = encode_open(fresh_tag(), OpenCommand::Examine, mailbox, opts.parameters);
        ImapMailboxExamine { send: ImapSend::new(encoded) }
    }

    /// What the answer to EXAMINE amounts to.
    pub fn finish(output: ImapSendOutput) -> (result: Result<ExamineData, ImapMailboxExamineError>)
        ensures
            result_view(result) == examine_outcome(output@),
    {
        match judge(output.bye, output.tagged) {
            Ok(_) => Ok(ExamineData::collect(output.data, output.untagged)),
            Err(refusal) => Err(ImapMailboxExamineError::refused(refusal)),
        }
    }
}

impl ImapCoroutine for ImapMailboxExamine {
    type Yield = ImapYield;

    type Return = Result<ExamineData, ImapMailboxExamineError>;

    fn resume(&mut self, fragmentizer: &mut Fragmentizer, arg: Option<&[u8]>) -> (step:
        ImapCoroutineState<ImapYield, Result<ExamineData, ImapMailboxExamineError>>)
        ensures
            is_step(
                (old(self)@, framing(*old(fragmentizer))),
                arg_view(arg),
                (final(self)@, framing(*final(fragmentizer))),
                step_view(step),
                |output: OutputView| examine_outcome(output),
            ),
    {
        match self.send.resume(fragmentizer, arg) {
            ImapCoroutineState::Yielded(y) => ImapCoroutineState::Yielded(y),
            ImapCoroutineState::Complete(Ok(output)) => ImapCoroutineState::Complete(
                Self::finish(output),
            ),
            ImapCoroutineState::Complete(Err(err)) => ImapCoroutineState::Complete(
                Err(ImapMailboxExamineError::Send(err)),
            ),
        }
    }
}

} // verus!
