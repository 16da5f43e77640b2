//! IMAP FETCH coroutines returning message data items.

use std::collections::BTreeMap;

use imap_codec::fragmentizer::Fragmentizer;
use imap_codec::imap_types::command::FetchModifier;
use imap_codec::imap_types::fetch::{MacroOrMessageDataItemNames, MessageDataItem};
use imap_codec::imap_types::sequence::SequenceSet;
use vstd::prelude::*;

use crate::command::{encode_fetch, fresh_tag, sequence_of, single_message, CommandView};
use crate::coroutine::{arg_view, ImapCoroutine, ImapCoroutineState, ImapYield};
use crate::framing::framing;
use crate::outcome::{
    is_step, judge, last_of, result_view, result_view_by, step_view, step_view_by, verdict,
    FailureView, Refusal,
};
use crate::response::{DataView, ServerData};
use crate::rfc3501::store::{items_view, MessageItems};
use crate::send::{
    data_views, starts, ImapSend, ImapSendError, ImapSendOutput, OutputView, SendState,
};

verus! {

/// Failure causes during the IMAP FETCH flow.
#[derive(Clone, Debug)]
pub enum ImapMessageFetchError {
    /// The server rejected the command with a NO response.
    No(String),
    /// The server rejected the command with a BAD response.
    Bad(String),
    /// The server closed the connection with a BYE response.
    Bye(String),
    /// The server never answered with a tagged response.
    MissingTagged,
    /// The server completed the command without the data asked for.
    MissingData,
    /// The underlying exchange failed.
    Send(ImapSendError),
}

impl View for ImapMessageFetchError {
    type V = FailureView;

    open spec fn view(&self) -> FailureView {
        match *self {
            ImapMessageFetchError::No(text) => FailureView::No(text@),
            ImapMessageFetchError::Bad(text) => FailureView::Bad(text@),
            ImapMessageFetchError::Bye(text) => FailureView::Bye(text@),
            ImapMessageFetchError::MissingTagged => FailureView::MissingTagged,
            ImapMessageFetchError::MissingData => FailureView::MissingData,
            ImapMessageFetchError::Send(err) => FailureView::Send(err@),
        }
    }
}

impl ImapMessageFetchError {
    fn refused(refusal: Refusal) -> (err: Self)
        ensures
            err@ == refusal@,
    {
        match refusal {
            Refusal::No(text) => ImapMessageFetchError::No(text),
            Refusal::Bad(text) => ImapMessageFetchError::Bad(text),
            Refusal::Bye(text) => ImapMessageFetchError::Bye(text),
            Refusal::MissingTagged => ImapMessageFetchError::MissingTagged,
        }
    }
}

/// Options for the IMAP FETCH coroutines.
#[derive(Debug)]
pub struct ImapMessageFetchOptions {
    /// When `true`, send `UID FETCH` and treat ids as UIDs.
    pub uid: bool,
    /// FETCH modifiers (RFC 4466): CONDSTORE `CHANGEDSINCE`, QRESYNC
    /// `VANISHED`, ...
    pub modifiers: Vec<FetchModifier>,
}

impl Default for ImapMessageFetchOptions {
    fn default() -> (opts: Self)
        ensures
            opts.uid == false,
            opts.modifiers@.len() == 0,
    {
        ImapMessageFetchOptions { uid: false, modifiers: Vec::new() }
    }
}

/// The items of a message, or nothing.
pub open spec fn items_of(
    items: Map<u32, Seq<MessageDataItem<'static>>>,
    seq: u32,
) -> Seq<MessageDataItem<'static>> {
    if items.contains_key(seq) {
        items[seq]
    } else {
        Seq::empty()
    }
}

/// The items of all FETCH responses, grouped by message, in order.
pub open spec fn grouped(data: Seq<DataView>) -> Map<u32, Seq<MessageDataItem<'static>>>
    decreases data.len(),
{
    if data.len() == 0 {
        Map::empty()
    } else {
        let before = grouped(data.drop_last());
        match data.last() {
            DataView::Fetch { seq, items } => before.insert(seq, items_of(before, seq) + items),
            _ => before,
        }
    }
}

/// What the answer to FETCH amounts to.
pub open spec fn fetch_outcome(output: OutputView) -> Result<
    Map<u32, Seq<MessageDataItem<'static>>>,
    FailureView,
> {
    match verdict(output) {
        Ok(_) => Ok(grouped(output.data)),
        Err(err) => Err(err),
    }
}

/// FETCH over an arbitrary sequence set.
pub struct ImapMessageFetch {
    send: ImapSend,
}

impl View for ImapMessageFetch {
    type V = SendState;

    closed spec fn view(&self) -> SendState {
        self.send@
    }
}

impl ImapMessageFetch {
    /// Creates a coroutine that fetches `items` of every message in
    /// `sequence_set`, under a fresh tag.
    pub fn new(
        sequence_set: SequenceSet,
        items: MacroOrMessageDataItemNames<'static>,
        opts: ImapMessageFetchOptions,
    ) -> (fetch: Self)
        ensures
            starts(
                fetch@,
                CommandView::Fetch {
                    messages: sequence_set,
                    items,
                    uid: opts.uid,
                    modifiers: opts.modifiers@,
                },
            ),
    {
        let encoded = encode_fetch(fresh_tag(), sequence_set, items, opts.uid, opts.modifiers);
        ImapMessageFetch { send: ImapSend::new(encoded) }
    }

    /// What the answer to FETCH amounts to.
    pub fn finish(output: ImapSendOutput) -> (result: Result<MessageItems, ImapMessageFetchError>)
        ensures
            result_view_by(result, |items: MessageItems| items_view(items@)) == fetch_outcome(
                output@,
            ),
    {
        broadcast use vstd::std_specs::btree::group_btree_axioms;

        match judge(output.bye, output.tagged) {
            Ok(_) => {},
            Err(refusal) => {
                return Err(ImapMessageFetchError::refused(refusal));
            },
        }
        let ghost views = data_views(output.data@);
        let mut items: MessageItems = BTreeMap::new();
        assert(items_view(items@) =~= Map::empty());
        for data in it: output.data
            invariant
                it.seq() == output.data@,
                views == data_views(output.data@),
                items_view(items@) == grouped(views.take(it.index())),
        {
            let ghost before = items@;
            proof {
                let seen = views.take(it.index() + 1);
                assert(seen.drop_last() =~= views.take(it.index()));
                assert(seen.last() == data@);
            }
            if let ServerData::Fetch { seq, items: found } = data {
                let mut found = found;
                let ghost added = found@;
                let mut all = match items.remove(&seq) {
                    Some(all) => all,
                    None => Vec::new(),
                };
                assert(all@ == items_of(items_view(before), seq));
                all.append(&mut found);
                items.insert(seq, all);
                assert(items_view(items@) =~= items_view(before).insert(seq, all@));
            }
        }
        assert(views.take(views.len() as int) =~= views);
        Ok(items)
    }
}

impl ImapCoroutine for ImapMessageFetch {
    type Yield = ImapYield;

    type Return = Result<MessageItems, ImapMessageFetchError>;

    fn resume(&mut self, fragmentizer: &mut Fragmentizer, arg: Option<&[u8]>) -> (step:
        ImapCoroutineState<ImapYield, Result<MessageItems, ImapMessageFetchError>>)
        ensures
            is_step(
                (old(self)@, framing(*old(fragmentizer))),
                arg_view(arg),
                (final(self)@, framing(*final(fragmentizer))),
                step_view_by(step, |items: MessageItems| items_view(items@)),
                |output: OutputView| fetch_outcome(output),
            ),
    {
        match self.send.resume(fragmentizer, arg) {
            ImapCoroutineState::Yielded(y) => ImapCoroutineState::Yielded(y),
            ImapCoroutineState::Complete(Ok(output)) => ImapCoroutineState::Complete(
                Self::finish(output),
            ),
            ImapCoroutineState::Complete(Err(err)) => ImapCoroutineState::Complete(
                Err(ImapMessageFetchError::Send(err)),
            ),
        }
    }
}

/// The items of the last FETCH response.
pub open spec fn fetched_last(data: Seq<DataView>) -> Option<Seq<MessageDataItem<'static>>> {
    last_of(
        data,
        |item: DataView|
            match item {
                DataView::Fetch { items: found, .. } => Some(found),
                _ => None,
            },
    )
}

/// What the answer to FETCH amounts to.
pub open spec fn fetch_first_outcome(output: OutputView) -> Result<
    Seq<MessageDataItem<'static>>,
    FailureView,
> {
    match verdict(output) {
        Ok(_) => match fetched_last(output.data) {
            Some(items) => Ok(items),
            None => Err(FailureView::MissingData),
        },
        Err(err) => Err(err),
    }
}

/// FETCH restricted to a single message.
pub struct ImapMessageFetchFirst {
    send: ImapSend,
}

impl View for ImapMessageFetchFirst {
    type V = SendState;

    closed spec fn view(&self) -> SendState {
        self.send@
    }
}

impl ImapMessageFetchFirst {
    /// Creates a coroutine that fetches `items` of the single message
    /// `id`, under a fresh tag.
    pub fn new(
        id: u32,
        items: MacroOrMessageDataItemNames<'static>,
        opts: ImapMessageFetchOptions,
    ) -> (fetch: Self)
        requires
            id != 0,
        ensures
            starts(
                fetch@,
                CommandView::Fetch {
                    messages: single_message(id),
                    items,
                    uid: opts.uid,
                    modifiers: opts.modifiers@,
                },
            ),
    {
        let encoded = encode_fetch(fresh_tag(), sequence_of(id), items, opts.uid, opts.modifiers);
        ImapMessageFetchFirst { send: ImapSend::new(encoded) }
    }

    /// What the answer to FETCH amounts to.
    pub fn finish(output: ImapSendOutput) -> (result: Result<
        Vec<MessageDataItem<'static>>,
        ImapMessageFetchError,
    >)
        ensures
            result_view(result) == fetch_first_outcome(output@),
    {
        match judge(output.bye, output.tagged) {
            Ok(_) => {},
            Err(refusal) => {
                return Err(ImapMessageFetchError::refused(refusal));
            },
        }
        let ghost views = data_views(output.data@);
        let mut items: Option<Vec<MessageDataItem<'static>>> = None;
        for data in it: output.data
            invariant
                it.seq() == output.data@,
                views == data_views(output.data@),
                match fetched_last(views.take(it.index())) {
                    Some(found) => items is Some && items->0@ == found,
                    None => items is None,
                },
        {
            proof {
                let seen = views.take(it.index() + 1);
                assert(seen.drop_last() =~= views.take(it.index()));
                assert(seen.last() == data@);
            }
            if let ServerData::Fetch { items: found, .. } = data {
                items = Some(found);
            }
        }
        assert(views.take(views.len() as int) =~= views);
        match items {
            Some(items) => Ok(items),
            None => Err(ImapMessageFetchError::MissingData),
        }
    }
}

impl ImapCoroutine for ImapMessageFetchFirst {
    type Yield = ImapYield;

    type Return = Result<Vec<MessageDataItem<'static>>, ImapMessageFetchError>;

    fn resume(&mut self, fragmentizer: &mut Fragmentizer, arg: Option<&[u8]>) -> (step:
        ImapCoroutineState<ImapYield, Result<Vec<MessageDataItem<'static>>, ImapMessageFetchError>>)
        ensures
            is_step(
                (old(self)@, framing(*old(fragmentizer))),
                arg_view(arg),
                (final(self)@, framing(*final(fragmentizer))),
                step_view(step),
                |output: OutputView| fetch_first_outcome(output),
            ),
    {
        match self.send.resume(fragmentizer, arg) {
            ImapCoroutineState::Yielded(y) => ImapCoroutineState::Yielded(y),
            ImapCoroutineState::Complete(Ok(output)) => ImapCoroutineState::Complete(
                Self::finish(output),
            ),
            ImapCoroutineState::Complete(Err(err)) => ImapCoroutineState::Complete(
                Err(ImapMessageFetchError::Send(err)),
            ),
        }
    }
}

} // verus!
