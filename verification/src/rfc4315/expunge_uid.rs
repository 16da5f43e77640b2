//! IMAP UID EXPUNGE coroutine returning the expunged sequence numbers.
//!
//! Only messages that are both marked as deleted and in the given set
//! are removed.

use imap_codec::fragmentizer::Fragmentizer;
use imap_codec::imap_types::sequence::SequenceSet;
use vstd::prelude::*;

use crate::command::{encode_expunge_uid, fresh_tag, CommandView};
use crate::coroutine::{arg_view, ImapCoroutine, ImapCoroutineState, ImapYield};
use crate::framing::framing;
use crate::outcome::{is_step, judge, result_view, step_view, verdict, FailureView, Refusal};
use crate::response::ServerData;
use crate::rfc3501::expunge::expunged;
use crate::send::{
    data_views, starts, ImapSend, ImapSendError, ImapSendOutput, OutputView, SendState,
};

verus! {

/// Failure causes during the IMAP UID EXPUNGE flow.
#[derive(Clone, Debug)]
pub enum ImapMessageExpungeUidError {
    /// The server rejected the command with a NO response.
    No(String),
    /// The server rejected the command with a BAD response.
    Bad(String),
    /// The server closed the connection with a BYE response.
    Bye(String),
    /// The server never answered with a tagged response.
    MissingTagged,
    /// The underlying exchange failed.
    Send(ImapSendError),
}

impl View for ImapMessageExpungeUidError {
    type V = FailureView;

    open spec fn view(&self) -> FailureView {
        match *self {
            ImapMessageExpungeUidError::No(text) => FailureView::No(text@),
            ImapMessageExpungeUidError::Bad(text) => FailureView::Bad(text@),
            ImapMessageExpungeUidError::Bye(text) => FailureView::Bye(text@),
            ImapMessageExpungeUidError::MissingTagged => FailureView::MissingTagged,
            ImapMessageExpungeUidError::Send(err) => FailureView::Send(err@),
        }
    }
}

impl ImapMessageExpungeUidError {
    fn refused(refusal: Refusal) -> (err: Self)
        ensures
            err@ == refusal@,
    {
        match refusal {
            Refusal::No(text) => ImapMessageExpungeUidError::No(text),
            Refusal::Bad(text) => ImapMessageExpungeUidError::Bad(text),
            Refusal::Bye(text) => ImapMessageExpungeUidError::Bye(text),
            Refusal::MissingTagged => ImapMessageExpungeUidError::MissingTagged,
        }
    }
}

/// What the answer to UID EXPUNGE amounts to.
pub open spec fn expunge_uid_outcome(output: OutputView) -> Result<Seq<u32>, FailureView> {
    match verdict(output) {
        Ok(_) => Ok(expunged(output.data)),
        Err(err) => Err(err),
    }
}

/// I/O-free IMAP UID EXPUNGE coroutine.
pub struct ImapMessageExpungeUid {
    send: ImapSend,
}

impl View for ImapMessageExpungeUid {
    type V = SendState;

    closed spec fn view(&self) -> SendState {
        self.send@
    }
}

impl ImapMessageExpungeUid {
    /// Creates a coroutine that expunges the messages of `sequence_set`
    /// that are marked as deleted, under a fresh tag.
    pub fn new(sequence_set: SequenceSet) -> (expunge: Self)
        ensures
            starts(expunge@, CommandView::ExpungeUid { messages: sequence_set }),
    {
        let encoded = encode_expunge_uid(fresh_tag(), sequence_set);
        ImapMessageExpungeUid { send: ImapSend::new(encoded) }
    }

    /// What the answer to UID EXPUNGE amounts to.
    pub fn finish(output: ImapSendOutput) -> (result: Result<Vec<u32>, ImapMessageExpungeUidError>)
        ensures
            result_view(result) == expunge_uid_outcome(output@),
    {
        match judge(output.bye, output.tagged) {
            Ok(_) => {},
            Err(refusal) => {
                return Err(ImapMessageExpungeUidError::refused(refusal));
            },
        }
        let ghost views = data_views(output.data@);
        let mut numbers = Vec::new();
        for data in it: output.data
            invariant
                it.seq() == output.data@,
                views == data_views(output.data@),
                numbers@ == expunged(views.take(it.index())),
        {
            proof {
                let seen = views.take(it.index() + 1);
                assert(seen.drop_last() =~= views.take(it.index()));
                assert(seen.last() == data@);
            }
            if let ServerData::Expunge(seq) = data {
                numbers.push(seq);
            }
        }
        assert(views.take(views.len() as int) =~= views);
        Ok(numbers)
    }
}

impl ImapCoroutine for ImapMessageExpungeUid {
    type Yield = ImapYield;

    type Return = Result<Vec<u32>, ImapMessageExpungeUidError>;

    fn resume(&mut self, fragmentizer: &mut Fragmentizer, arg: Option<&[u8]>) -> (step:
        ImapCoroutineState<ImapYield, Result<Vec<u32>, ImapMessageExpungeUidError>>)
        ensures
            is_step(
                (old(self)@, framing(*old(fragmentizer))),
                arg_view(arg),
                (final(self)@, framing(*final(fragmentizer))),
                step_view(step),
                |output: OutputView| expunge_uid_outcome(output),
            ),
    {
        match self.send.resume(fragmentizer, arg) {
            ImapCoroutineState::Yielded(y) => ImapCoroutineState::Yielded(y),
            ImapCoroutineState::Complete(Ok(output)) => ImapCoroutineState::Complete(
                Self::finish(output),
            ),
            ImapCoroutineState::Complete(Err(err)) => ImapCoroutineState::Complete(
                Err(ImapMessageExpungeUidError::Send(err)),
            ),
        }
    }
}

} // verus!
