//! IMAP THREAD coroutine returning the message threads.

use imap_codec::fragmentizer::Fragmentizer;
use imap_codec::imap_types;
use imap_codec::imap_types::extensions::thread::{Thread, ThreadingAlgorithm};
use imap_codec::imap_types::search::SearchKey;
use vstd::prelude::*;

use crate::command::{encode_thread, fresh_tag, utf_8, utf_8_name, CommandView};
use crate::coroutine::{arg_view, ImapCoroutine, ImapCoroutineState, ImapYield};
use crate::framing::framing;
use crate::outcome::{
    is_step, judge, last_of, result_view, step_view, verdict, FailureView, Refusal,
};
use crate::response::{DataView, ServerData};
use crate::send::{
    data_views, starts, ImapSend, ImapSendError, ImapSendOutput, OutputView, SendState,
};

verus! {

/// Failure causes during the IMAP THREAD flow.
#[derive(Clone, Debug)]
pub enum ImapMessageThreadError {
    /// The server rejected the command with a NO response.
    No(String),
    /// The server rejected the command with a BAD response.
    Bad(String),
    /// The server closed the connection with a BYE response.
    Bye(String),
    /// The server never answered with a tagged response.
    MissingTagged,
    /// The server completed the command without the data asked for.
    MissingData,
    /// The underlying exchange failed.
    Send(ImapSendError),
}

impl View for ImapMessageThreadError {
    type V = FailureView;

    open spec fn view(&self) -> FailureView {
        match *self {
            ImapMessageThreadError::No(text) => FailureView::No(text@),
            ImapMessageThreadError::Bad(text) => FailureView::Bad(text@),
            ImapMessageThreadError::Bye(text) => FailureView::Bye(text@),
            ImapMessageThreadError::MissingTagged => FailureView::MissingTagged,
            ImapMessageThreadError::MissingData => FailureView::MissingData,
            ImapMessageThreadError::Send(err) => FailureView::Send(err@),
        }
    }
}

impl ImapMessageThreadError {
    fn refused(refusal: Refusal) -> (err: Self)
        ensures
            err@ == refusal@,
    {
        match refusal {
            Refusal::No(text) => ImapMessageThreadError::No(text),
            Refusal::Bad(text) => ImapMessageThreadError::Bad(text),
            Refusal::Bye(text) => ImapMessageThreadError::Bye(text),
            Refusal::MissingTagged => ImapMessageThreadError::MissingTagged,
        }
    }
}

/// Options for [`ImapMessageThread::new`].
#[derive(Clone, Debug, Eq, PartialEq)]
pub struct ImapMessageThreadOptions {
    /// When `true`, send `UID THREAD`; the returned ids are UIDs rather
    /// than sequence numbers.
    pub uid: bool,
}

impl Default for ImapMessageThreadOptions {
    fn default() -> (opts: Self)
        ensures
            opts == (ImapMessageThreadOptions { uid: false }),
    {
        ImapMessageThreadOptions { uid: false }
    }
}

/// The threads of the last THREAD response.
pub open spec fn found_threads(data: Seq<DataView>) -> Option<Seq<Thread>> {
    last_of(
        data,
        |item: DataView|
            match item {
                DataView::Thread(found) => Some(found),
                _ => None,
            },
    )
}

/// What the answer to THREAD amounts to.
pub open spec fn thread_outcome(output: OutputView) -> Result<Seq<Thread>, FailureView> {
    match verdict(output) {
        Ok(_) => match found_threads(output.data) {
            Some(threads) => Ok(threads),
            None => Err(FailureView::MissingData),
        },
        Err(err) => Err(err),
    }
}

/// I/O-free IMAP THREAD coroutine.
pub struct ImapMessageThread {
    send: ImapSend,
}

impl View for ImapMessageThread {
    type V = SendState;

    closed spec fn view(&self) -> SendState {
        self.send@
    }
}

impl ImapMessageThread {
    /// Creates a coroutine that threads the messages matching
    /// `search_criteria`, under a fresh tag.
    pub fn new(
        algorithm: ThreadingAlgorithm<'static>,
        search_criteria: imap_types::core::Vec1<SearchKey<'static>>,
        opts: ImapMessageThreadOptions,
    ) -> (thread: Self)
        ensures
            starts(
                thread@,
                CommandView::Thread {
                    algorithm,
                    charset: utf_8(),
                    criteria: search_criteria,
                    uid: opts.uid,
                },
            ),
    {
        let charset = utf_8_name();
        let encoded = encode_thread(fresh_tag(), algorithm, charset, search_criteria, opts.uid);
        ImapMessageThread { send: ImapSend::new(encoded) }
    }

    /// What the answer to THREAD amounts to.
    pub fn finish(output: ImapSendOutput) -> (result: Result<Vec<Thread>, ImapMessageThreadError>)
        ensures
            result_view(result) == thread_outcome(output@),
    {
        match judge(output.bye, output.tagged) {
            Ok(_) => {},
            Err(refusal) => {
                return Err(ImapMessageThreadError::refused(refusal));
            },
        }
        let ghost views = data_views(output.data@);
        let mut threads: Option<Vec<Thread>> = None;
        for data in it: output.data
            invariant
                it.seq() == output.data@,
                views == data_views(output.data@),
                match found_threads(views.take(it.index())) {
                    Some(found) => threads is Some && threads->0@ == found,
                    None => threads is None,
                },
        {
            proof {
                let seen = views.take(it.index() + 1);
                assert(seen.drop_last() =~= views.take(it.index()));
                assert(seen.last() == data@);
            }
            if let ServerData::Thread(found) = data {
                threads = Some(found);
            }
        }
        assert(views.take(views.len() as int) =~= views);
        match threads {
            Some(threads) => Ok(threads),
            None => Err(ImapMessageThreadError::MissingData),
        }
    }
}

impl ImapCoroutine for ImapMessageThread {
    type Yield = ImapYield;

    type Return = Result<Vec<Thread>, ImapMessageThreadError>;

    fn resume(&mut self, fragmentizer: &mut Fragmentizer, arg: Option<&[u8]>) -> (step:
        ImapCoroutineState<ImapYield, Result<Vec<Thread>, ImapMessageThreadError>>)
        ensures
            is_step(
                (old(self)@, framing(*old(fragmentizer))),
                arg_view(arg),
                (final(self)@, framing(*final(fragmentizer))),
                step_view(step),
                |output: OutputView| thread_outcome(output),
            ),
    {
        match self.send.resume(fragmentizer, arg) {
            ImapCoroutineState::Yielded(y) => ImapCoroutineState::Yielded(y),
            ImapCoroutineState::Complete(Ok(output)) => ImapCoroutineState::Complete(
                Self::finish(output),
            ),
            ImapCoroutineState::Complete(Err(err)) => ImapCoroutineState::Complete(
                Err(ImapMessageThreadError::Send(err)),
            ),
        }
    }
}

} // verus!
