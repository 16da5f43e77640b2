//! IMAP EXPUNGE coroutine returning the expunged sequence numbers.

use imap_codec::fragmentizer::Fragmentizer;
use vstd::prelude::*;

use crate::command::{encode_bare, fresh_tag, BareCommand};
use crate::coroutine::{arg_view, ImapCoroutine, ImapCoroutineState, ImapYield};
use crate::framing::framing;
use crate::outcome::{
    each_of, is_step, judge, result_view, step_view, verdict, FailureView, Refusal,
};
use crate::response::{DataView, ServerData};
use crate::send::{
    data_views, starts_bare, ImapSend, ImapSendError, ImapSendOutput, OutputView, SendState,
};

verus! {

/// Failure causes during the IMAP EXPUNGE flow.
#[derive(Clone, Debug)]
pub enum ImapMailboxExpungeError {
    /// The server rejected the command with a NO response.
    No(String),
    /// The server rejected the command with a BAD response.
    Bad(String),
    /// The server closed the connection with a BYE response.
    Bye(String),
    /// The server never answered with a tagged response.
    MissingTagged,
    /// The underlying exchange failed.
    Send(ImapSendError),
}

impl View for ImapMailboxExpungeError {
    type V = FailureView;

    open spec fn view(&self) -> FailureView {
        match *self {
            ImapMailboxExpungeError::No(text) => FailureView::No(text@),
            ImapMailboxExpungeError::Bad(text) => FailureView::Bad(text@),
            ImapMailboxExpungeError::Bye(text) => FailureView::Bye(text@),
            ImapMailboxExpungeError::MissingTagged => FailureView::MissingTagged,
            ImapMailboxExpungeError::Send(err) => FailureView::Send(err@),
        }
    }
}

impl ImapMailboxExpungeError {
    fn refused(refusal: Refusal) -> (err: Self)
        ensures
            err@ == refusal@,
    {
        match refusal {
            Refusal::No(text) => ImapMailboxExpungeError::No(text),
            Refusal::Bad(text) => ImapMailboxExpungeError::Bad(text),
            Refusal::Bye(text) => ImapMailboxExpungeError::Bye(text),
            Refusal::MissingTagged => ImapMailboxExpungeError::MissingTagged,
        }
    }
}

/// The sequence numbers that EXPUNGE responses report, in order.
pub open spec fn expunged(data: Seq<DataView>) -> Seq<u32> {
    each_of(
        data,
        |item: DataView|
            match item {
                DataView::Expunge(seq) => Some(seq),
                _ => None,
            },
    )
}

/// What the answer to EXPUNGE amounts to.
pub open spec fn expunge_outcome(output: OutputView) -> Result<Seq<u32>, FailureView> {
    match verdict(output) {
        Ok(_) => Ok(expunged(output.data)),
        Err(err) => Err(err),
    }
}

/// I/O-free IMAP EXPUNGE coroutine.
pub struct ImapMailboxExpunge {
    send: ImapSend,
}

impl View for ImapMailboxExpunge {
    type V = SendState;

    closed spec fn view(&self) -> SendState {
        self.send@
    }
}

impl ImapMailboxExpunge {
    /// Creates a coroutine that sends EXPUNGE under a fresh tag.
    pub fn new() -> (expunge: Self)
        ensures
            starts_bare(expunge@, BareCommand::Expunge),
    {
        ImapMailboxExpunge { send: ImapSend::new(encode_bare(fresh_tag(), BareCommand::Expunge)) }
    }

    /// What the answer to EXPUNGE amounts to.
    pub fn finish(output: ImapSendOutput) -> (result: Result<Vec<u32>, ImapMailboxExpungeError>)
        ensures
            result_view(result) == expunge_outcome(output@),
    {
        match judge(output.bye, output.tagged) {
            Ok(_) => {},
            Err(refusal) => {
                return Err(ImapMailboxExpungeError::refused(refusal));
            },
        }
        let ghost views = data_views(output.data@);
        let mut numbers = Vec::new();
        for data in it: output.data
            invariant
                it.seq() == output.data@,
                views == data_views(output.data@),
                numbers@ == expunged(views.take(it.index())),
        {
            proof {
                let seen = views.take(it.index() + 1);
                assert(seen.drop_last() =~= views.take(it.index()));
                assert(seen.last() == data@);
            }
            if let ServerData::Expunge(seq) = data {
                numbers.push(seq);
            }
        }
        assert(views.take(views.len() as int) =~= views);
        Ok(numbers)
    }
}

impl Default for ImapMailboxExpunge {
    fn default() -> (expunge: Self)
        ensures
            starts_bare(expunge@, BareCommand::Expunge),
    {
        Self::new()
    }
}

impl ImapCoroutine for ImapMailboxExpunge {
    type Yield = ImapYield;

    type Return = Result<Vec<u32>, ImapMailboxExpungeError>;

    fn resume(&mut self, fragmentizer: &mut Fragmentizer, arg: Option<&[u8]>) -> (step:
        ImapCoroutineState<ImapYield, Result<Vec<u32>, ImapMailboxExpungeError>>)
        ensures
            is_step(
                (old(self)@, framing(*old(fragmentizer))),
                arg_view(arg),
                (final(self)@, framing(*final(fragmentizer))),
                step_view(step),
                |output: OutputView| expunge_outcome(output),
            ),
    {
        match self.send.resume(fragmentizer, arg) {
            ImapCoroutineState::Yielded(y) => ImapCoroutineState::Yielded(y),
            ImapCoroutineState::Complete(Ok(output)) => ImapCoroutineState::Complete(
                Self::finish(output),
            ),
            ImapCoroutineState::Complete(Err(err)) => ImapCoroutineState::Complete(
                Err(ImapMailboxExpungeError::Send(err)),
            ),
        }
    }
}

} // verus!
