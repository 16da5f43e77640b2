//! IMAP STATUS coroutine returning the requested status items.

use imap_codec::fragmentizer::Fragmentizer;
use imap_codec::imap_types::mailbox::Mailbox;
use imap_codec::imap_types::status::{StatusDataItem, StatusDataItemName};
use vstd::prelude::*;

use crate::command::{encode_status, fresh_tag, CommandView};
use crate::coroutine::{arg_view, ImapCoroutine, ImapCoroutineState, ImapYield};
use crate::framing::framing;
use crate::outcome::{is_step, judge, result_view, step_view, verdict, FailureView, Refusal};
use crate::response::{DataView, ServerData};
use crate::rfc3501::mailbox::{encode_inplace, wire_form};
use crate::send::{
    data_views, starts, ImapSend, ImapSendError, ImapSendOutput, OutputView, SendState,
};

verus! {

/// Failure causes during the IMAP STATUS flow.
#[derive(Clone, Debug)]
pub enum ImapMailboxStatusError {
    /// The server rejected the command with a NO response.
    No(String),
    /// The server rejected the command with a BAD response.
    Bad(String),
    /// The server closed the connection with a BYE response.
    Bye(String),
    /// The server never answered with a tagged response.
    MissingTagged,
    /// The underlying exchange failed.
    Send(ImapSendError),
}

impl View for ImapMailboxStatusError {
    type V = FailureView;

    open spec fn view(&self) -> FailureView {
        match *self {
            ImapMailboxStatusError::No(text) => FailureView::No(text@),
            ImapMailboxStatusError::Bad(text) => FailureView::Bad(text@),
            ImapMailboxStatusError::Bye(text) => FailureView::Bye(text@),
            ImapMailboxStatusError::MissingTagged => FailureView::MissingTagged,
            ImapMailboxStatusError::Send(err) => FailureView::Send(err@),
        }
    }
}

impl ImapMailboxStatusError {
    fn refused(refusal: Refusal) -> (err: Self)
        ensures
            err@ == refusal@,
    {
        match refusal {
            Refusal::No(text) => ImapMailboxStatusError::No(text),
            Refusal::Bad(text) => ImapMailboxStatusError::Bad(text),
            Refusal::Bye(text) => ImapMailboxStatusError::Bye(text),
            Refusal::MissingTagged => ImapMailboxStatusError::MissingTagged,
        }
    }
}

/// The items of all STATUS responses, in order.
pub open spec fn status_items(data: Seq<DataView>) -> Seq<StatusDataItem>
    decreases data.len(),
{
    if data.len() == 0 {
        Seq::empty()
    } else {
        let before = status_items(data.drop_last());
        match data.last() {
            DataView::Status { items, .. } => before + items,
            _ => before,
        }
    }
}

/// What the answer to STATUS amounts to.
pub open spec fn status_outcome(output: OutputView) -> Result<Seq<StatusDataItem>, FailureView> {
    match verdict(output) {
        Ok(_) => Ok(status_items(output.data)),
        Err(err) => Err(err),
    }
}

/// I/O-free IMAP STATUS coroutine.
pub struct ImapMailboxStatus {
    send: ImapSend,
}

impl View for ImapMailboxStatus {
    type V = SendState;

    closed spec fn view(&self) -> SendState {
        self.send@
    }
}

impl ImapMailboxStatus {
    /// Creates a coroutine that asks for the status items `item_names` of
    /// `mailbox`, under a fresh tag.
    pub fn new(mailbox: Mailbox<'static>, item_names: Vec<StatusDataItemName>) -> (status: Self)
        ensures
            starts(
                status@,
                CommandView::Status { mailbox: wire_form(mailbox), names: item_names@ },
            ),
    {
        let mut mailbox = mailbox;
        encode_inplace(&mut mailbox);
        let encoded = encode_status(fresh_tag(), mailbox, item_names);
        ImapMailboxStatus { send: ImapSend::new(encoded) }
    }

    /// What the answer to STATUS amounts to.
    pub fn finish(output: ImapSendOutput) -> (result: Result<
        Vec<StatusDataItem>,
        ImapMailboxStatusError,
    >)
        ensures
            result_view(result) == status_outcome(output@),
    {
        match judge(output.bye, output.tagged) {
            Ok(_) => {},
            Err(refusal) => {
                return Err(ImapMailboxStatusError::refused(refusal));
            },
        }
        let ghost views = data_views(output.data@);
        let mut items = Vec::new();
        for data in it: output.data
            invariant
                it.seq() == output.data@,
                views == data_views(output.data@),
                items@ == status_items(views.take(it.index())),
        {
            proof {
                let seen = views.take(it.index() + 1);
                assert(seen.drop_last() =~= views.take(it.index()));
                assert(seen.last() == data@);
            }
            if let ServerData::Status { items: found, .. } = data {
                let mut found = found;
                items.append(&mut found);
            }
        }
        assert(views.take(views.len() as int) =~= views);
        Ok(items)
    }
}

impl ImapCoroutine for ImapMailboxStatus {
    type Yield = ImapYield;

    type Return = Result<Vec<StatusDataItem>, ImapMailboxStatusError>;

    fn resume(&mut self, fragmentizer: &mut Fragmentizer, arg: Option<&[u8]>) -> (step:
        ImapCoroutineState<ImapYield, Result<Vec<StatusDataItem>, ImapMailboxStatusError>>)
        ensures
            is_step(
                (old(self)@, framing(*old(fragmentizer))),
                arg_view(arg),
                (final(self)@, framing(*final(fragmentizer))),
                step_view(step),
                |output: OutputView| status_outcome(output),
            ),
    {
        match self.send.resume(fragmentizer, arg) {
            ImapCoroutineState::Yielded(y) => ImapCoroutineState::Yielded(y),
            ImapCoroutineState::Complete(Ok(output)) => ImapCoroutineState::Complete(
                Self::finish(output),
            ),
            ImapCoroutineState::Complete(Err(err)) => ImapCoroutineState::Complete(
                Err(ImapMailboxStatusError::Send(err)),
            ),
        }
    }
}

} // verus!
