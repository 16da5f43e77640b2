//! IMAP LSUB coroutine returning the matching subscribed mailboxes.

use imap_codec::fragmentizer::Fragmentizer;
use imap_codec::imap_types::mailbox::{ListMailbox, Mailbox};
use vstd::prelude::*;

use crate::command::{encode_list, fresh_tag, CommandView, ListCommand};
use crate::coroutine::{arg_view, ImapCoroutine, ImapCoroutineState, ImapYield};
use crate::framing::framing;
use crate::outcome::{
    each_of, is_step, judge, result_view_by, step_view_by, verdict, FailureView, Refusal,
};
use crate::response::{DataView, ServerData};
use crate::rfc3501::list::{listing_view, ImapMailboxListing, ListingRow};
use crate::rfc3501::mailbox::{decode_inplace, encode_inplace, plain_form, wire_form};
use crate::send::{
    data_views, starts, ImapSend, ImapSendError, ImapSendOutput, OutputView, SendState,
};

verus! {

/// Failure causes during the IMAP LSUB flow.
#[derive(Clone, Debug)]
pub enum ImapMailboxLsubError {
    /// The server rejected the command with a NO response.
    No(String),
    /// The server rejected the command with a BAD response.
    Bad(String),
    /// The server closed the connection with a BYE response.
    Bye(String),
    /// The server never answered with a tagged response.
    MissingTagged,
    /// The underlying exchange failed.
    Send(ImapSendError),
}

impl View for ImapMailboxLsubError {
    type V = FailureView;

    open spec fn view(&self) -> FailureView {
        match *self {
            ImapMailboxLsubError::No(text) => FailureView::No(text@),
            ImapMailboxLsubError::Bad(text) => FailureView::Bad(text@),
            ImapMailboxLsubError::Bye(text) => FailureView::Bye(text@),
            ImapMailboxLsubError::MissingTagged => FailureView::MissingTagged,
            ImapMailboxLsubError::Send(err) => FailureView::Send(err@),
        }
    }
}

impl ImapMailboxLsubError {
    fn refused(refusal: Refusal) -> (err: Self)
        ensures
            err@ == refusal@,
    {
        match refusal {
            Refusal::No(text) => ImapMailboxLsubError::No(text),
            Refusal::Bad(text) => ImapMailboxLsubError::Bad(text),
            Refusal::Bye(text) => ImapMailboxLsubError::Bye(text),
            Refusal::MissingTagged => ImapMailboxLsubError::MissingTagged,
        }
    }
}

/// The rows of all LSUB responses, in order, under decoded names.
pub open spec fn lsub_rows(data: Seq<DataView>) -> Seq<ListingRow> {
    each_of(
        data,
        |item: DataView|
            match item {
                DataView::Lsub { mailbox, delimiter, items } => Some(
                    (plain_form(mailbox), delimiter, items),
                ),
                _ => None,
            },
    )
}

/// What the answer to LSUB amounts to.
pub open spec fn lsub_outcome(output: OutputView) -> Result<Seq<ListingRow>, FailureView> {
    match verdict(output) {
        Ok(_) => Ok(lsub_rows(output.data)),
        Err(err) => Err(err),
    }
}

/// I/O-free IMAP LSUB coroutine.
pub struct ImapMailboxLsub {
    send: ImapSend,
}

impl View for ImapMailboxLsub {
    type V = SendState;

    closed spec fn view(&self) -> SendState {
        self.send@
    }
}

impl ImapMailboxLsub {
    /// Creates a coroutine that lists the mailboxes matching `reference`
    /// and `mailbox_wildcard`, under a fresh tag.
    pub fn new(reference: Mailbox<'static>, mailbox_wildcard: ListMailbox<'static>) -> (lsub: Self)
        ensures
            starts(
                lsub@,
                CommandView::List {
                    command: ListCommand::Lsub,
                    reference: wire_form(reference),
                    pattern: mailbox_wildcard,
                },
            ),
    {
        let mut reference = reference;
        encode_inplace(&mut reference);
        let encoded = encode_list(fresh_tag(), ListCommand::Lsub, reference, mailbox_wildcard);
        ImapMailboxLsub { send: ImapSend::new(encoded) }
    }

    /// What the answer to LSUB amounts to.
    pub fn finish(output: ImapSendOutput) -> (result: Result<
        ImapMailboxListing,
        ImapMailboxLsubError,
    >)
        ensures
            result_view_by(result, |listing: ImapMailboxListing| listing_view(listing@))
                == lsub_outcome(output@),
    {
        match judge(output.bye, output.tagged) {
            Ok(_) => {},
            Err(refusal) => {
                return Err(ImapMailboxLsubError::refused(refusal));
            },
        }
        let ghost views = data_views(output.data@);
        let mut listing: ImapMailboxListing = Vec::new();
        assert(listing_view(listing@) =~= Seq::empty());
        for data in it: output.data
            invariant
                it.seq() == output.data@,
                views == data_views(output.data@),
                listing_view(listing@) == lsub_rows(views.take(it.index())),
        {
            let ghost before = listing_view(listing@);
            proof {
                let seen = views.take(it.index() + 1);
                assert(seen.drop_last() =~= views.take(it.index()));
                assert(seen.last() == data@);
            }
            if let ServerData::Lsub { mailbox, delimiter, items } = data {
                let mut mailbox = mailbox;
                decode_inplace(&mut mailbox);
                listing.push((mailbox, delimiter, items));
                assert(listing_view(listing@) =~= before.push((mailbox, delimiter, items@)));
            }
        }
        assert(views.take(views.len() as int) =~= views);
        Ok(listing)
    }
}

impl ImapCoroutine for ImapMailboxLsub {
    type Yield = ImapYield;

    type Return = Result<ImapMailboxListing, ImapMailboxLsubError>;

    fn resume(&mut self, fragmentizer: &mut Fragmentizer, arg: Option<&[u8]>) -> (step:
        ImapCoroutineState<ImapYield, Result<ImapMailboxListing, ImapMailboxLsubError>>)
        ensures
            is_step(
                (old(self)@, framing(*old(fragmentizer))),
                arg_view(arg),
                (final(self)@, framing(*final(fragmentizer))),
                step_view_by(step, |listing: ImapMailboxListing| listing_view(listing@)),
                |output: OutputView| lsub_outcome(output),
            ),
    {
        match self.send.resume(fragmentizer, arg) {
            ImapCoroutineState::Yielded(y) => ImapCoroutineState::Yielded(y),
            ImapCoroutineState::Complete(Ok(output)) => ImapCoroutineState::Complete(
                Self::finish(output),
            ),
            ImapCoroutineState::Complete(Err(err)) => ImapCoroutineState::Complete(
                Err(ImapMailboxLsubError::Send(err)),
            ),
        }
    }
}

} // verus!
