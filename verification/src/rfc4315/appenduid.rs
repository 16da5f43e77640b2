//! IMAP APPEND coroutine returning only the APPENDUID pair.
//!
//! Lighter than the streaming APPEND; drops EXISTS.

use imap_codec::fragmentizer::Fragmentizer;
use imap_codec::imap_types::datetime::DateTime;
use imap_codec::imap_types::extensions::binary::LiteralOrLiteral8;
use imap_codec::imap_types::flag::Flag;
use imap_codec::imap_types::mailbox::Mailbox;
use vstd::prelude::*;

use crate::command::{encode_append, fresh_tag, CommandView};
use crate::coroutine::{arg_view, ImapCoroutine, ImapCoroutineState, ImapYield};
use crate::framing::framing;
use crate::outcome::{is_step, judge, result_view, step_view, verdict, FailureView, Refusal};
use crate::response::{code_view, CodeView, ServerCode};
use crate::rfc3501::mailbox::{encode_inplace, wire_form};
use crate::send::{starts, ImapSend, ImapSendError, ImapSendOutput, OutputView, SendState};

verus! {

/// Failure causes during the IMAP APPEND flow.
#[derive(Clone, Debug)]
pub enum ImapAppendUidError {
    /// The server rejected the command with a NO response.
    No(String),
    /// The server rejected the command with a BAD response.
    Bad(String),
    /// The server closed the connection with a BYE response.
    Bye(String),
    /// The server never answered with a tagged response.
    MissingTagged,
    /// The underlying exchange failed.
    Send(ImapSendError),
}

impl View for ImapAppendUidError {
    type V = FailureView;

    open spec fn view(&self) -> FailureView {
        match *self {
            ImapAppendUidError::No(text) => FailureView::No(text@),
            ImapAppendUidError::Bad(text) => FailureView::Bad(text@),
            ImapAppendUidError::Bye(text) => FailureView::Bye(text@),
            ImapAppendUidError::MissingTagged => FailureView::MissingTagged,
            ImapAppendUidError::Send(err) => FailureView::Send(err@),
        }
    }
}

impl ImapAppendUidError {
    fn refused(refusal: Refusal) -> (err: Self)
        ensures
            err@ == refusal@,
    {
        match refusal {
            Refusal::No(text) => ImapAppendUidError::No(text),
            Refusal::Bad(text) => ImapAppendUidError::Bad(text),
            Refusal::Bye(text) => ImapAppendUidError::Bye(text),
            Refusal::MissingTagged => ImapAppendUidError::MissingTagged,
        }
    }
}

/// Options for [`ImapAppendUid::new`].
#[derive(Debug)]
pub struct ImapAppendUidOptions {
    /// Flags set on the appended message; defaults to none.
    pub flags: Vec<Flag<'static>>,
    /// Internal date of the appended message; defaults to the moment the
    /// server receives it.
    pub date: Option<DateTime>,
}

impl Default for ImapAppendUidOptions {
    fn default() -> (opts: Self)
        ensures
            opts.flags@.len() == 0,
            opts.date is None,
    {
        ImapAppendUidOptions { flags: Vec::new(), date: None }
    }
}

/// The UIDVALIDITY and the UID of an APPENDUID code.
pub open spec fn append_uid(code: Option<CodeView>) -> Option<(u32, u32)> {
    match code {
        Some(CodeView::AppendUid { uid_validity, uid }) => Some((uid_validity, uid)),
        _ => None,
    }
}

/// The UIDVALIDITY and the UID of an APPENDUID code.
pub(crate) fn append_uid_from_code(code: &Option<ServerCode>) -> (pair: Option<(u32, u32)>)
    ensures
        pair == append_uid(code_view(*code)),
{
    match code {
        Some(ServerCode::AppendUid { uid_validity, uid }) => Some((*uid_validity, *uid)),
        _ => None,
    }
}

/// What the answer to APPEND amounts to.
pub open spec fn append_uid_outcome(output: OutputView) -> Result<Option<(u32, u32)>, FailureView> {
    match verdict(output) {
        Ok(status) => Ok(append_uid(status.code)),
        Err(err) => Err(err),
    }
}

/// I/O-free IMAP APPEND coroutine returning the APPENDUID pair.
pub struct ImapAppendUid {
    send: ImapSend,
}

impl View for ImapAppendUid {
    type V = SendState;

    closed spec fn view(&self) -> SendState {
        self.send@
    }
}

impl ImapAppendUid {
    /// Creates a coroutine that appends `message` to `mailbox` and returns
    /// the APPENDUID pair when present, under a fresh tag.
    pub fn new(
        mailbox: Mailbox<'static>,
        message: LiteralOrLiteral8<'static>,
        opts: ImapAppendUidOptions,
    ) -> (append: Self)
        ensures
            starts(
                append@,
                CommandView::Append {
                    mailbox: wire_form(mailbox),
                    flags: opts.flags@,
                    date: opts.date,
                    message,
                },
            ),
    {
        let mut mailbox = mailbox;
        encode_inplace(&mut mailbox);
        let encoded = encode_append(fresh_tag(), mailbox, opts.flags, opts.date, message);
        ImapAppendUid { send: ImapSend::new(encoded) }
    }

    /// What the answer to APPEND amounts to.
    pub fn finish(output: ImapSendOutput) -> (result: Result<
        Option<(u32, u32)>,
        ImapAppendUidError,
    >)
        ensures
            result_view(result) == append_uid_outcome(output@),
    {
        match judge(output.bye, output.tagged) {
            Ok(status) => Ok(append_uid_from_code(&status.code)),
            Err(refusal) => Err(ImapAppendUidError::refused(refusal)),
        }
    }
}

impl ImapCoroutine for ImapAppendUid {
    type Yield = ImapYield;

    type Return = Result<Option<(u32, u32)>, ImapAppendUidError>;

    fn resume(&mut self, fragmentizer: &mut Fragmentizer, arg: Option<&[u8]>) -> (step:
        ImapCoroutineState<ImapYield, Result<Option<(u32, u32)>, ImapAppendUidError>>)
        ensures
            is_step(
                (old(self)@, framing(*old(fragmentizer))),
                arg_view(arg),
                (final(self)@, framing(*final(fragmentizer))),
                step_view(step),
                |output: OutputView| append_uid_outcome(output),
            ),
    {
        match self.send.resume(fragmentizer, arg) {
            ImapCoroutineState::Yielded(y) => ImapCoroutineState::Yielded(y),
            ImapCoroutineState::Complete(Ok(output)) => ImapCoroutineState::Complete(
                Self::finish(output),
            ),
            ImapCoroutineState::Complete(Err(err)) => ImapCoroutineState::Complete(
                Err(ImapAppendUidError::Send(err)),
            ),
        }
    }
}

} // verus!
