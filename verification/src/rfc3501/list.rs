//! IMAP LIST coroutine returning the matching mailboxes.

use imap_codec::fragmentizer::Fragmentizer;
use imap_codec::imap_types;
use imap_codec::imap_types::flag::FlagNameAttribute;
use imap_codec::imap_types::mailbox::{ListMailbox, Mailbox};
use vstd::prelude::*;

use crate::command::{encode_list, fresh_tag, CommandView, ListCommand};
use crate::coroutine::{arg_view, ImapCoroutine, ImapCoroutineState, ImapYield};
use crate::framing::framing;
use crate::outcome::{
    each_of, is_step, judge, result_view_by, step_view_by, verdict, FailureView, Refusal,
};
use crate::response::{DataView, ServerData};
use crate::rfc3501::mailbox::{decode_inplace, encode_inplace, plain_form, wire_form};
use crate::send::{
    data_views, starts, ImapSend, ImapSendError, ImapSendOutput, OutputView, SendState,
};

verus! {

/// Failure causes during the IMAP LIST flow.
#[derive(Clone, Debug)]
pub enum ImapMailboxListError {
    /// The server rejected the command with a NO response.
    No(String),
    /// The server rejected the command with a BAD response.
    Bad(String),
    /// The server closed the connection with a BYE response.
    Bye(String),
    /// The server never answered with a tagged response.
    MissingTagged,
    /// The underlying exchange failed.
    Send(ImapSendError),
}

impl View for ImapMailboxListError {
    type V = FailureView;

    open spec fn view(&self) -> FailureView {
        match *self {
            ImapMailboxListError::No(text) => FailureView::No(text@),
            ImapMailboxListError::Bad(text) => FailureView::Bad(text@),
            ImapMailboxListError::Bye(text) => FailureView::Bye(text@),
            ImapMailboxListError::MissingTagged => FailureView::MissingTagged,
            ImapMailboxListError::Send(err) => FailureView::Send(err@),
        }
    }
}

impl ImapMailboxListError {
    fn refused(refusal: Refusal) -> (err: Self)
        ensures
            err@ == refusal@,
    {
        match refusal {
            Refusal::No(text) => ImapMailboxListError::No(text),
            Refusal::Bad(text) => ImapMailboxListError::Bad(text),
            Refusal::Bye(text) => ImapMailboxListError::Bye(text),
            Refusal::MissingTagged => ImapMailboxListError::MissingTagged,
        }
    }
}

/// The mailboxes that a server lists, with the hierarchy delimiter and
/// the name attributes of each.
pub type ImapMailboxListing = Vec<
    (
        Mailbox<'static>,
        Option<imap_types::core::QuotedChar>,
        Vec<FlagNameAttribute<'static>>,
    ),
>;

/// Model of one row of an [`ImapMailboxListing`].
pub type ListingRow = (
    Mailbox<'static>,
    Option<imap_types::core::QuotedChar>,
    Seq<FlagNameAttribute<'static>>,
);

/// Model of an [`ImapMailboxListing`].
pub open spec fn listing_view(
    listing: Seq<
        (
            Mailbox<'static>,
            Option<imap_types::core::QuotedChar>,
            Vec<FlagNameAttribute<'static>>,
        ),
    >,
) -> Seq<ListingRow> {
    listing.map_values(
        |row: (
            Mailbox<'static>,
            Option<imap_types::core::QuotedChar>,
            Vec<FlagNameAttribute<'static>>,
        )| (row.0, row.1, row.2@),
    )
}

/// The rows of all LIST responses, in order, under decoded names.
pub open spec fn list_rows(data: Seq<DataView>) -> Seq<ListingRow> {
    each_of(
        data,
        |item: DataView|
            match item {
                DataView::List { mailbox, delimiter, items } => Some(
                    (plain_form(mailbox), delimiter, items),
                ),
                _ => None,
            },
    )
}

/// What the answer to LIST amounts to.
pub open spec fn list_outcome(output: OutputView) -> Result<Seq<ListingRow>, FailureView> {
    match verdict(output) {
        Ok(_) => Ok(list_rows(output.data)),
        Err(err) => Err(err),
    }
}

/// I/O-free IMAP LIST coroutine.
pub struct ImapMailboxList {
    send: ImapSend,
}

impl View for ImapMailboxList {
    type V = SendState;

    closed spec fn view(&self) -> SendState {
        self.send@
    }
}

impl ImapMailboxList {
    /// Creates a coroutine that lists the mailboxes matching `reference`
    /// and `mailbox_wildcard`, under a fresh tag.
    pub fn new(reference: Mailbox<'static>, mailbox_wildcard: ListMailbox<'static>) -> (list: Self)
        ensures
            starts(
                list@,
                CommandView::List {
                    command: ListCommand::List,
                    reference: wire_form(reference),
                    pattern: mailbox_wildcard,
                },
            ),
    {
        let mut reference = reference;
        encode_inplace(&mut reference);
        let encoded = encode_list(fresh_tag(), ListCommand::List, reference, mailbox_wildcard);
        ImapMailboxList { send: ImapSend::new(encoded) }
    }

    /// What the answer to LIST amounts to.
    pub fn finish(output: ImapSendOutput) -> (result: Result<
        ImapMailboxListing,
        ImapMailboxListError,
    >)
        ensures
            result_view_by(result, |listing: ImapMailboxListing| listing_view(listing@))
                == list_outcome(output@),
    {
        match judge(output.bye, output.tagged) {
            Ok(_) => {},
            Err(refusal) => {
                return Err(ImapMailboxListError::refused(refusal));
            },
        }
        let ghost views = data_views(output.data@);
        let mut listing: ImapMailboxListing = Vec::new();
        assert(listing_view(listing@) =~= Seq::empty());
        for data in it: output.data
            invariant
                it.seq() == output.data@,
                views == data_views(output.data@),
                listing_view(listing@) == list_rows(views.take(it.index())),
        {
            let ghost before = listing_view(listing@);
            proof {
                let seen = views.take(it.index() + 1);
                assert(seen.drop_last() =~= views.take(it.index()));
                assert(seen.last() == data@);
            }
            if let ServerData::List { mailbox, delimiter, items } = data {
                let mut mailbox = mailbox;
                decode_inplace(&mut mailbox);
                listing.push((mailbox, delimiter, items));
                assert(listing_view(listing@) =~= before.push((mailbox, delimiter, items@)));
            }
        }
        assert(views.take(views.len() as int) =~= views);
        Ok(listing)
    }
}

impl ImapCoroutine for ImapMailboxList {
    type Yield = ImapYield;

    type Return = Result<ImapMailboxListing, ImapMailboxListError>;

    fn resume(&mut self, fragmentizer: &mut Fragmentizer, arg: Option<&[u8]>) -> (step:
        ImapCoroutineState<ImapYield, Result<ImapMailboxListing, ImapMailboxListError>>)
        ensures
            is_step(
                (old(self)@, framing(*old(fragmentizer))),
                arg_view(arg),
                (final(self)@, framing(*final(fragmentizer))),
                step_view_by(step, |listing: ImapMailboxListing| listing_view(listing@)),
                |output: OutputView| list_outcome(output),
            ),
    {
        match self.send.resume(fragmentizer, arg) {
            ImapCoroutineState::Yielded(y) => ImapCoroutineState::Yielded(y),
            ImapCoroutineState::Complete(Ok(output)) => ImapCoroutineState::Complete(
                Self::finish(output),
            ),
            ImapCoroutineState::Complete(Err(err)) => ImapCoroutineState::Complete(
                Err(ImapMailboxListError::Send(err)),
            ),
        }
    }
}

} // verus!
