//! IMAP MOVE coroutine surfacing the optional COPYUID triple.

use imap_codec::fragmentizer::Fragmentizer;
use imap_codec::imap_types::mailbox::Mailbox;
use imap_codec::imap_types::sequence::SequenceSet;
use vstd::prelude::*;

use crate::command::{encode_transfer, fresh_tag, CommandView, TransferCommand};
use crate::coroutine::{arg_view, ImapCoroutine, ImapCoroutineState, ImapYield};
use crate::framing::framing;
use crate::outcome::{is_step, judge, result_view_by, step_view_by, verdict, FailureView, Refusal};
use crate::response::StatusView;
use crate::rfc3501::copy::{copy_uid, copy_uid_view, copyuid_from_code, CopyUidView, ImapCopyUid};
use crate::rfc3501::mailbox::{encode_inplace, wire_form};
use crate::send::{
    starts, status_views, ImapSend, ImapSendError, ImapSendOutput, OutputView, SendState,
};

verus! {

/// Failure causes during the IMAP MOVE flow.
#[derive(Clone, Debug)]
pub enum ImapMessageMoveError {
    /// The server rejected the command with a NO response.
    No(String),
    /// The server rejected the command with a BAD response.
    Bad(String),
    /// The server closed the connection with a BYE response.
    Bye(String),
    /// The server never answered with a tagged response.
    MissingTagged,
    /// The underlying exchange failed.
    Send(ImapSendError),
}

impl View for ImapMessageMoveError {
    type V = FailureView;

    open spec fn view(&self) -> FailureView {
        match *self {
            ImapMessageMoveError::No(text) => FailureView::No(text@),
            ImapMessageMoveError::Bad(text) => FailureView::Bad(text@),
            ImapMessageMoveError::Bye(text) => FailureView::Bye(text@),
            ImapMessageMoveError::MissingTagged => FailureView::MissingTagged,
            ImapMessageMoveError::Send(err) => FailureView::Send(err@),
        }
    }
}

impl ImapMessageMoveError {
    fn refused(refusal: Refusal) -> (err: Self)
        ensures
            err@ == refusal@,
    {
        match refusal {
            Refusal::No(text) => ImapMessageMoveError::No(text),
            Refusal::Bad(text) => ImapMessageMoveError::Bad(text),
            Refusal::Bye(text) => ImapMessageMoveError::Bye(text),
            Refusal::MissingTagged => ImapMessageMoveError::MissingTagged,
        }
    }
}

/// Options for [`ImapMessageMove::new`].
#[derive(Clone, Debug, Eq, PartialEq)]
pub struct ImapMessageMoveOptions {
    /// When `true`, send `UID MOVE` and treat `sequence_set` as UIDs.
    pub uid: bool,
}

impl Default for ImapMessageMoveOptions {
    fn default() -> (opts: Self)
        ensures
            opts == (ImapMessageMoveOptions { uid: false }),
    {
        ImapMessageMoveOptions { uid: false }
    }
}

/// The COPYUID triple of the first untagged status that has one.
pub open spec fn untagged_copy_uid(untagged: Seq<StatusView>) -> CopyUidView
    decreases untagged.len(),
{
    if untagged.len() == 0 {
        None
    } else {
        match untagged_copy_uid(untagged.drop_last()) {
            Some(triple) => Some(triple),
            None => copy_uid(untagged.last().code),
        }
    }
}

/// What the answer to MOVE amounts to.
pub open spec fn move_outcome(output: OutputView) -> Result<CopyUidView, FailureView> {
    match verdict(output) {
        Ok(status) => Ok(
            match copy_uid(status.code) {
                Some(triple) => Some(triple),
                None => untagged_copy_uid(output.untagged),
            },
        ),
        Err(err) => Err(err),
    }
}

/// I/O-free IMAP MOVE coroutine.
pub struct ImapMessageMove {
    send: ImapSend,
}

impl View for ImapMessageMove {
    type V = SendState;

    closed spec fn view(&self) -> SendState {
        self.send@
    }
}

impl ImapMessageMove {
    /// Creates a coroutine that moves the messages in `sequence_set` to
    /// `mailbox` and returns the COPYUID triple when present, under a
    /// fresh tag.
    pub fn new(
        sequence_set: SequenceSet,
        mailbox: Mailbox<'static>,
        opts: ImapMessageMoveOptions,
    ) -> (transfer: Self)
        ensures
            starts(
                transfer@,
                CommandView::Transfer {
                    command: TransferCommand::Move,
                    messages: sequence_set,
                    mailbox: wire_form(mailbox),
                    uid: opts.uid,
                },
            ),
    {
        let mut mailbox = mailbox;
        encode_inplace(&mut mailbox);
        let encoded = encode_transfer(
            fresh_tag(),
            TransferCommand::Move,
            sequence_set,
            mailbox,
            opts.uid,
        );
        ImapMessageMove { send: ImapSend::new(encoded) }
    }

    /// What the answer to MOVE amounts to.
    pub fn finish(output: ImapSendOutput) -> (result: Result<ImapCopyUid, ImapMessageMoveError>)
        ensures
            result_view_by(result, |triple: ImapCopyUid| copy_uid_view(triple)) == move_outcome(
                output@,
            ),
    {
        let status = match judge(output.bye, output.tagged) {
            Ok(status) => status,
            Err(refusal) => {
                return Err(ImapMessageMoveError::refused(refusal));
            },
        };
        // COPY carries COPYUID in the tagged OK (RFC 4315), but MOVE
        // (RFC 6851 §4.4) emits it in an untagged OK before the EXPUNGE,
        // so accept either placement, tagged first.
        if let Some(triple) = copyuid_from_code(status.code) {
            return Ok(Some(triple));
        }
        let ghost statuses = status_views(output.untagged@);
        let mut triple: ImapCopyUid = None;
        for status in it: output.untagged
            invariant
                it.seq() == output.untagged@,
                statuses == status_views(output.untagged@),
                copy_uid_view(triple) == untagged_copy_uid(statuses.take(it.index())),
        {
            proof {
                let seen = statuses.take(it.index() + 1);
                assert(seen.drop_last() =~= statuses.take(it.index()));
                assert(seen.last() == status@);
            }
            if triple.is_none() {
                triple = copyuid_from_code(status.code);
            }
        }
        assert(statuses.take(statuses.len() as int) =~= statuses);
        Ok(triple)
    }
}

impl ImapCoroutine for ImapMessageMove {
    type Yield = ImapYield;

    type Return = Result<ImapCopyUid, ImapMessageMoveError>;

    fn resume(&mut self, fragmentizer: &mut Fragmentizer, arg: Option<&[u8]>) -> (step:
        ImapCoroutineState<ImapYield, Result<ImapCopyUid, ImapMessageMoveError>>)
        ensures
            is_step(
                (old(self)@, framing(*old(fragmentizer))),
                arg_view(arg),
                (final(self)@, framing(*final(fragmentizer))),
                step_view_by(step, |triple: ImapCopyUid| copy_uid_view(triple)),
                |output: OutputView| move_outcome(output),
            ),
    {
        match self.send.resume(fragmentizer, arg) {
            ImapCoroutineState::Yielded(y) => ImapCoroutineState::Yielded(y),
            ImapCoroutineState::Complete(Ok(output)) => ImapCoroutineState::Complete(
                Self::finish(output),
            ),
            ImapCoroutineState::Complete(Err(err)) => ImapCoroutineState::Complete(
                Err(ImapMessageMoveError::Send(err)),
            ),
        }
    }
}

} // verus!
