//! IMAP STORE coroutines changing the flags of messages.

use std::collections::BTreeMap;

use imap_codec::fragmentizer::Fragmentizer;
use imap_codec::imap_types::command::StoreModifier;
use imap_codec::imap_types::fetch::MessageDataItem;
use imap_codec::imap_types::flag::{Flag, StoreType};
use imap_codec::imap_types::sequence::SequenceSet;
use vstd::prelude::*;

use crate::command::{encode_store, fresh_tag, CommandView, StoreEcho};
use crate::coroutine::{arg_view, ImapCoroutine, ImapCoroutineState, ImapYield};
use crate::framing::framing;
use crate::outcome::{
    is_step, judge, result_view, result_view_by, step_view, step_view_by, verdict, FailureView,
    Refusal,
};
use crate::response::{DataView, ServerData};
use crate::send::{
    data_views, starts, ImapSend, ImapSendError, ImapSendOutput, OutputView, SendState,
};

verus! {

/// Failure causes during the IMAP STORE flow.
#[derive(Clone, Debug)]
pub enum ImapMessageStoreError {
    /// The server rejected the command with a NO response.
    No(String),
    /// The server rejected the command with a BAD response.
    Bad(String),
    /// The server closed the connection with a BYE response.
    Bye(String),
    /// The server never answered with a tagged response.
    MissingTagged,
    /// The underlying exchange failed.
    Send(ImapSendError),
}

impl View for ImapMessageStoreError {
    type V = FailureView;

    open spec fn view(&self) -> FailureView {
        match *self {
            ImapMessageStoreError::No(text) => FailureView::No(text@),
            ImapMessageStoreError::Bad(text) => FailureView::Bad(text@),
            ImapMessageStoreError::Bye(text) => FailureView::Bye(text@),
            ImapMessageStoreError::MissingTagged => FailureView::MissingTagged,
            ImapMessageStoreError::Send(err) => FailureView::Send(err@),
        }
    }
}

impl ImapMessageStoreError {
    fn refused(refusal: Refusal) -> (err: Self)
        ensures
            err@ == refusal@,
    {
        match refusal {
            Refusal::No(text) => ImapMessageStoreError::No(text),
            Refusal::Bad(text) => ImapMessageStoreError::Bad(text),
            Refusal::Bye(text) => ImapMessageStoreError::Bye(text),
            Refusal::MissingTagged => ImapMessageStoreError::MissingTagged,
        }
    }
}

/// Options for the IMAP STORE coroutines.
#[derive(Clone, Debug, Eq, PartialEq)]
pub struct ImapMessageStoreOptions {
    /// When `true`, send `UID STORE` and treat `sequence_set` as UIDs.
    pub uid: bool,
}

impl Default for ImapMessageStoreOptions {
    fn default() -> (opts: Self)
        ensures
            opts == (ImapMessageStoreOptions { uid: false }),
    {
        ImapMessageStoreOptions { uid: false }
    }
}

/// Items by message, as FETCH responses report them.
pub type MessageItems = BTreeMap<u32, Vec<MessageDataItem<'static>>>;

/// Model of [`MessageItems`].
pub open spec fn items_view(items: Map<u32, Vec<MessageDataItem<'static>>>) -> Map<
    u32,
    Seq<MessageDataItem<'static>>,
> {
    items.map_values(|list: Vec<MessageDataItem<'static>>| list@)
}

/// The items of the last FETCH response of each message.
pub open spec fn echoes(data: Seq<DataView>) -> Map<u32, Seq<MessageDataItem<'static>>>
    decreases data.len(),
{
    if data.len() == 0 {
        Map::empty()
    } else {
        let before = echoes(data.drop_last());
        match data.last() {
            DataView::Fetch { seq, items } => before.insert(seq, items),
            _ => before,
        }
    }
}

/// What the answer to STORE amounts to.
pub open spec fn store_outcome(output: OutputView) -> Result<
    Map<u32, Seq<MessageDataItem<'static>>>,
    FailureView,
> {
    match verdict(output) {
        Ok(_) => Ok(echoes(output.data)),
        Err(err) => Err(err),
    }
}

/// Echo variant: server returns FETCH for each modified message.
pub struct ImapMessageStore {
    send: ImapSend,
}

impl View for ImapMessageStore {
    type V = SendState;

    closed spec fn view(&self) -> SendState {
        self.send@
    }
}

impl ImapMessageStore {
    /// Creates a coroutine that applies the `kind` flag change with
    /// `flags` to the `sequence_set` messages, under a fresh tag.
    pub fn new(
        sequence_set: SequenceSet,
        kind: StoreType,
        flags: Vec<Flag<'static>>,
        opts: ImapMessageStoreOptions,
    ) -> (store: Self)
        ensures
            starts(
                store@,
                CommandView::Store {
                    messages: sequence_set,
                    kind,
                    echo: StoreEcho::Answer,
                    flags: flags@,
                    uid: opts.uid,
                    modifiers: Seq::empty(),
                },
            ),
    {
        let modifiers: Vec<StoreModifier> = Vec::new();
        assert(modifiers@ =~= Seq::empty());
        let encoded = encode_store(
            fresh_tag(),
            sequence_set,
            kind,
            StoreEcho::Answer,
            flags,
            opts.uid,
            modifiers,
        );
        ImapMessageStore { send: ImapSend::new(encoded) }
    }

    /// What the answer to STORE amounts to.
    pub fn finish(output: ImapSendOutput) -> (result: Result<MessageItems, ImapMessageStoreError>)
        ensures
            result_view_by(result, |items: MessageItems| items_view(items@)) == store_outcome(
                output@,
            ),
    {
        broadcast use vstd::std_specs::btree::group_btree_axioms;

        match judge(output.bye, output.tagged) {
            Ok(_) => {},
            Err(refusal) => {
                return Err(ImapMessageStoreError::refused(refusal));
            },
        }
        let ghost views = data_views(output.data@);
        let mut items: MessageItems = BTreeMap::new();
        assert(items_view(items@) =~= Map::empty());
        for data in it: output.data
            invariant
                it.seq() == output.data@,
                views == data_views(output.data@),
                items_view(items@) == echoes(views.take(it.index())),
        {
            let ghost before = items@;
            proof {
                let seen = views.take(it.index() + 1);
                assert(seen.drop_last() =~= views.take(it.index()));
                assert(seen.last() == data@);
            }
            if let ServerData::Fetch { seq, items: found } = data {
                items.insert(seq, found);
                assert(items_view(items@) =~= items_view(before).insert(seq, found@));
            }
        }
        assert(views.take(views.len() as int) =~= views);
        Ok(items)
    }
}

impl ImapCoroutine for ImapMessageStore {
    type Yield = ImapYield;

    type Return = Result<MessageItems, ImapMessageStoreError>;

    fn resume(&mut self, fragmentizer: &mut Fragmentizer, arg: Option<&[u8]>) -> (step:
        ImapCoroutineState<ImapYield, Result<MessageItems, ImapMessageStoreError>>)
        ensures
            is_step(
                (old(self)@, framing(*old(fragmentizer))),
                arg_view(arg),
                (final(self)@, framing(*final(fragmentizer))),
                step_view_by(step, |items: MessageItems| items_view(items@)),
                |output: OutputView| store_outcome(output),
            ),
    {
        match self.send.resume(fragmentizer, arg) {
            ImapCoroutineState::Yielded(y) => ImapCoroutineState::Yielded(y),
            ImapCoroutineState::Complete(Ok(output)) => ImapCoroutineState::Complete(
                Self::finish(output),
            ),
            ImapCoroutineState::Complete(Err(err)) => ImapCoroutineState::Complete(
                Err(ImapMessageStoreError::Send(err)),
            ),
        }
    }
}

/// What the answer to STORE.SILENT amounts to.
pub open spec fn store_silent_outcome(output: OutputView) -> Result<(), FailureView> {
    match verdict(output) {
        Ok(_) => Ok(()),
        Err(err) => Err(err),
    }
}

/// Silent variant: server suppresses the FETCH echoes.
pub struct ImapMessageStoreSilent {
    send: ImapSend,
}

impl View for ImapMessageStoreSilent {
    type V = SendState;

    closed spec fn view(&self) -> SendState {
        self.send@
    }
}

impl ImapMessageStoreSilent {
    /// Creates a coroutine that applies the `kind` flag change with
    /// `flags` to the `sequence_set` messages without FETCH echoes, under
    /// a fresh tag.
    pub fn new(
        sequence_set: SequenceSet,
        kind: StoreType,
        flags: Vec<Flag<'static>>,
        opts: ImapMessageStoreOptions,
    ) -> (store: Self)
        ensures
            starts(
                store@,
                CommandView::Store {
                    messages: sequence_set,
                    kind,
                    echo: StoreEcho::Silent,
                    flags: flags@,
                    uid: opts.uid,
                    modifiers: Seq::empty(),
                },
            ),
    {
        let modifiers: Vec<StoreModifier> = Vec::new();
        assert(modifiers@ =~= Seq::empty());
        let encoded = encode_store(
            fresh_tag(),
            sequence_set,
            kind,
            StoreEcho::Silent,
            flags,
            opts.uid,
            modifiers,
        );
        ImapMessageStoreSilent { send: ImapSend::new(encoded) }
    }

    /// What the answer to STORE.SILENT amounts to.
    pub fn finish(output: ImapSendOutput) -> (result: Result<(), ImapMessageStoreError>)
        ensures
            result_view(result) == store_silent_outcome(output@),
    {
        match judge(output.bye, output.tagged) {
            Ok(_) => Ok(()),
            Err(refusal) => Err(ImapMessageStoreError::refused(refusal)),
        }
    }
}

impl ImapCoroutine for ImapMessageStoreSilent {
    type Yield = ImapYield;

    type Return = Result<(), ImapMessageStoreError>;

    fn resume(&mut self, fragmentizer: &mut Fragmentizer, arg: Option<&[u8]>) -> (step:
        ImapCoroutineState<ImapYield, Result<(), ImapMessageStoreError>>)
        ensures
            is_step(
                (old(self)@, framing(*old(fragmentizer))),
                arg_view(arg),
                (final(self)@, framing(*final(fragmentizer))),
                step_view(step),
                |output: OutputView| store_silent_outcome(output),
            ),
    {
        match self.send.resume(fragmentizer, arg) {
            ImapCoroutineState::Yielded(y) => ImapCoroutineState::Yielded(y),
            ImapCoroutineState::Complete(Ok(output)) => ImapCoroutineState::Complete(
                Self::finish(output),
            ),
            ImapCoroutineState::Complete(Err(err)) => ImapCoroutineState::Complete(
                Err(ImapMessageStoreError::Send(err)),
            ),
        }
    }
}

} // verus!
