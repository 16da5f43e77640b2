//! IMAP SEARCH coroutine returning the matching ids.

use imap_codec::fragmentizer::Fragmentizer;
use imap_codec::imap_types;
use imap_codec::imap_types::search::SearchKey;
use vstd::prelude::*;

use crate::command::{encode_search, fresh_tag, CommandView};
use crate::coroutine::{arg_view, ImapCoroutine, ImapCoroutineState, ImapYield};
use crate::framing::framing;
use crate::outcome::{
    is_step, judge, last_of, result_view, step_view, verdict, FailureView, Refusal,
};
use crate::response::{DataView, ServerData};
use crate::send::{
    data_views, starts, ImapSend, ImapSendError, ImapSendOutput, OutputView, SendState,
};

verus! {

/// Failure causes during the IMAP SEARCH flow.
#[derive(Clone, Debug)]
pub enum ImapMessageSearchError {
    /// The server rejected the command with a NO response.
    No(String),
    /// The server rejected the command with a BAD response.
    Bad(String),
    /// The server closed the connection with a BYE response.
    Bye(String),
    /// The server never answered with a tagged response.
    MissingTagged,
    /// The underlying exchange failed.
    Send(ImapSendError),
}

impl View for ImapMessageSearchError {
    type V = FailureView;

    open spec fn view(&self) -> FailureView {
        match *self {
            ImapMessageSearchError::No(text) => FailureView::No(text@),
            ImapMessageSearchError::Bad(text) => FailureView::Bad(text@),
            ImapMessageSearchError::Bye(text) => FailureView::Bye(text@),
            ImapMessageSearchError::MissingTagged => FailureView::MissingTagged,
            ImapMessageSearchError::Send(err) => FailureView::Send(err@),
        }
    }
}

impl ImapMessageSearchError {
    fn refused(refusal: Refusal) -> (err: Self)
        ensures
            err@ == refusal@,
    {
        match refusal {
            Refusal::No(text) => ImapMessageSearchError::No(text),
            Refusal::Bad(text) => ImapMessageSearchError::Bad(text),
            Refusal::Bye(text) => ImapMessageSearchError::Bye(text),
            Refusal::MissingTagged => ImapMessageSearchError::MissingTagged,
        }
    }
}

/// Options for [`ImapMessageSearch::new`].
#[derive(Clone, Debug, Eq, PartialEq)]
pub struct ImapMessageSearchOptions {
    /// When `true`, send `UID SEARCH`; the returned numbers are UIDs
    /// rather than sequence numbers.
    pub uid: bool,
}

impl Default for ImapMessageSearchOptions {
    fn default() -> (opts: Self)
        ensures
            opts == (ImapMessageSearchOptions { uid: false }),
    {
        ImapMessageSearchOptions { uid: false }
    }
}

/// The ids of the last SEARCH response.
pub open spec fn found_ids(data: Seq<DataView>) -> Option<Seq<u32>> {
    last_of(
        data,
        |item: DataView|
            match item {
                DataView::Search(found) => Some(found),
                _ => None,
            },
    )
}

/// What the answer to SEARCH amounts to.
pub open spec fn search_outcome(output: OutputView) -> Result<Seq<u32>, FailureView> {
    match verdict(output) {
        Ok(_) => Ok(
            match found_ids(output.data) {
                Some(ids) => ids,
                None => Seq::empty(),
            },
        ),
        Err(err) => Err(err),
    }
}

/// I/O-free IMAP SEARCH coroutine.
pub struct ImapMessageSearch {
    send: ImapSend,
}

impl View for ImapMessageSearch {
    type V = SendState;

    closed spec fn view(&self) -> SendState {
        self.send@
    }
}

impl ImapMessageSearch {
    /// Creates a coroutine that searches for the messages matching
    /// `criteria`, without a charset, under a fresh tag.
    pub fn new(
        criteria: imap_types::core::Vec1<SearchKey<'static>>,
        opts: ImapMessageSearchOptions,
    ) -> (search: Self)
        ensures
            starts(search@, CommandView::Search { charset: None, criteria, uid: opts.uid }),
    {
        let encoded = encode_search(fresh_tag(), None, criteria, opts.uid);
        ImapMessageSearch { send: ImapSend::new(encoded) }
    }

    /// What the answer to SEARCH amounts to.
    pub fn finish(output: ImapSendOutput) -> (result: Result<Vec<u32>, ImapMessageSearchError>)
        ensures
            result_view(result) == search_outcome(output@),
    {
        match judge(output.bye, output.tagged) {
            Ok(_) => {},
            Err(refusal) => {
                return Err(ImapMessageSearchError::refused(refusal));
            },
        }
        let ghost views = data_views(output.data@);
        let mut ids: Vec<u32> = Vec::new();
        let ghost none: Seq<u32> = Seq::empty();
        assert(ids@ =~= none);
        for data in it: output.data
            invariant
                it.seq() == output.data@,
                views == data_views(output.data@),
                none == Seq::<u32>::empty(),
                ids@ == match found_ids(views.take(it.index())) {
                    Some(found) => found,
                    None => none,
                },
        {
            proof {
                let seen = views.take(it.index() + 1);
                assert(seen.drop_last() =~= views.take(it.index()));
                assert(seen.last() == data@);
            }
            if let ServerData::Search(found) = data {
                ids = found;
            }
        }
        assert(views.take(views.len() as int) =~= views);
        Ok(ids)
    }
}

impl ImapCoroutine for ImapMessageSearch {
    type Yield = ImapYield;

    type Return = Result<Vec<u32>, ImapMessageSearchError>;

    fn resume(&mut self, fragmentizer: &mut Fragmentizer, arg: Option<&[u8]>) -> (step:
        ImapCoroutineState<ImapYield, Result<Vec<u32>, ImapMessageSearchError>>)
        ensures
            is_step(
                (old(self)@, framing(*old(fragmentizer))),
                arg_view(arg),
                (final(self)@, framing(*final(fragmentizer))),
                step_view(step),
                |output: OutputView| search_outcome(output),
            ),
    {
        match self.send.resume(fragmentizer, arg) {
            ImapCoroutineState::Yielded(y) => ImapCoroutineState::Yielded(y),
            ImapCoroutineState::Complete(Ok(output)) => ImapCoroutineState::Complete(
                Self::finish(output),
            ),
            ImapCoroutineState::Complete(Err(err)) => ImapCoroutineState::Complete(
                Err(ImapMessageSearchError::Send(err)),
            ),
        }
    }
}

} // verus!
