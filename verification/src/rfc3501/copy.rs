//! IMAP COPY coroutine surfacing the optional COPYUID triple.

use imap_codec::fragmentizer::Fragmentizer;
use imap_codec::imap_types::extensions::uidplus;
use imap_codec::imap_types::extensions::uidplus::UidSet;
use imap_codec::imap_types::mailbox::Mailbox;
use imap_codec::imap_types::sequence::SequenceSet;
use vstd::prelude::*;
use vstd::relations::sorted_by;
use vstd::seq_lib::lemma_sorted_unique;

use crate::command::{encode_transfer, fresh_tag, CommandView, TransferCommand};
use crate::coroutine::{arg_view, ImapCoroutine, ImapCoroutineState, ImapYield};
use crate::framing::framing;
use crate::outcome::{is_step, judge, result_view_by, step_view_by, verdict, FailureView, Refusal};
use crate::response::{code_view, CodeView, ServerCode};
use crate::rfc3501::mailbox::{encode_inplace, wire_form};
use crate::send::{starts, ImapSend, ImapSendError, ImapSendOutput, OutputView, SendState};

verus! {

/// Failure causes during the IMAP COPY flow.
#[derive(Clone, Debug)]
pub enum ImapMessageCopyError {
    /// The server rejected the command with a NO response.
    No(String),
    /// The server rejected the command with a BAD response.
    Bad(String),
    /// The server closed the connection with a BYE response.
    Bye(String),
    /// The server never answered with a tagged response.
    MissingTagged,
    /// The underlying exchange failed.
    Send(ImapSendError),
}

impl View for ImapMessageCopyError {
    type V = FailureView;

    open spec fn view(&self) -> FailureView {
        match *self {
            ImapMessageCopyError::No(text) => FailureView::No(text@),
            ImapMessageCopyError::Bad(text) => FailureView::Bad(text@),
            ImapMessageCopyError::Bye(text) => FailureView::Bye(text@),
            ImapMessageCopyError::MissingTagged => FailureView::MissingTagged,
            ImapMessageCopyError::Send(err) => FailureView::Send(err@),
        }
    }
}

impl ImapMessageCopyError {
    fn refused(refusal: Refusal) -> (err: Self)
        ensures
            err@ == refusal@,
    {
        match refusal {
            Refusal::No(text) => ImapMessageCopyError::No(text),
            Refusal::Bad(text) => ImapMessageCopyError::Bad(text),
            Refusal::Bye(text) => ImapMessageCopyError::Bye(text),
            Refusal::MissingTagged => ImapMessageCopyError::MissingTagged,
        }
    }
}

/// Options for [`ImapMessageCopy::new`].
#[derive(Clone, Debug, Eq, PartialEq)]
pub struct ImapMessageCopyOptions {
    /// When `true`, send `UID COPY` and treat `sequence_set` as UIDs.
    pub uid: bool,
}

impl Default for ImapMessageCopyOptions {
    fn default() -> (opts: Self)
        ensures
            opts == (ImapMessageCopyOptions { uid: false }),
    {
        ImapMessageCopyOptions { uid: false }
    }
}

/// `(uid_validity, source UIDs, destination UIDs)` from COPYUID.
pub type ImapCopyUid = Option<(u32, Vec<u32>, Vec<u32>)>;

/// Model of [`ImapCopyUid`].
pub type CopyUidView = Option<(u32, Seq<u32>, Seq<u32>)>;

pub open spec fn copy_uid_view(copy_uid: ImapCopyUid) -> CopyUidView {
    match copy_uid {
        Some((uid_validity, source, destination)) => Some(
            (uid_validity, source@, destination@),
        ),
        None => None,
    }
}

/// One element of a UID set.
#[derive(Clone, Copy, Debug, PartialEq, Eq, Structural)]
pub enum UidElement {
    Single(u32),
    Range(u32, u32),
}

/// The elements of a UID set.
pub uninterp spec fn uid_elements(set: UidSet) -> Seq<UidElement>;

/// Matches on the elements of a `UidSet`, in order.
#[verifier::external_body]
fn elements_of(set: UidSet) -> (elements: Vec<UidElement>)
    ensures
        elements@ == uid_elements(set),
{
    let convert = |element| match element {
        uidplus::UidElement::Single(uid) => UidElement::Single(uid.get()),
        uidplus::UidElement::Range(start, end) => UidElement::Range(start.get(), end.get()),
    };
    set.0.into_iter().map(convert).collect()
}

/// The numbers from `low` to `high`, both included.
pub open spec fn numbers(low: u32, high: u32) -> Seq<u32> {
    Seq::new((high - low + 1) as nat, |i: int| (low + i) as u32)
}

/// The UIDs of one element; the bounds of a range may come in any order.
pub open spec fn element_uids(element: UidElement) -> Seq<u32> {
    match element {
        UidElement::Single(uid) => seq![uid],
        UidElement::Range(start, end) => if start <= end {
            numbers(start, end)
        } else {
            numbers(end, start)
        },
    }
}

/// The UIDs of all elements, in order.
pub open spec fn all_uids(elements: Seq<UidElement>) -> Seq<u32>
    decreases elements.len(),
{
    if elements.len() == 0 {
        Seq::empty()
    } else {
        all_uids(elements.drop_last()) + element_uids(elements.last())
    }
}

/// The UIDs of all elements, in ascending order.
pub open spec fn ascending_uids(elements: Seq<UidElement>) -> Seq<u32> {
    all_uids(elements).sort_by(|a: u32, b: u32| a <= b)
}

/// The UIDs of a UID set, in ascending order.
pub open spec fn sorted_uids(set: UidSet) -> Seq<u32> {
    ascending_uids(uid_elements(set))
}

/// `<[u32]>::sort_unstable`: sorts in ascending order.
#[verifier::external_body]
fn sort_unstable(values: &mut Vec<u32>)
    ensures
        sorted_by(final(values)@, |a: u32, b: u32| a <= b),
        final(values)@.to_multiset() == old(values)@.to_multiset(),
{
    values.sort_unstable()
}

/// Appends the numbers from `low` to `high`.
fn push_numbers(low: u32, high: u32, out: &mut Vec<u32>)
    requires
        low <= high,
    ensures
        final(out)@ == old(out)@ + numbers(low, high),
{
    let mut next: u32 = low;
    loop
        invariant_except_break
            low <= next <= high,
            out@ == old(out)@ + numbers(low, high).take(next - low),
        ensures
            out@ == old(out)@ + numbers(low, high),
        decreases high - next,
    {
        out.push(next);
        assert(out@ =~= old(out)@ + numbers(low, high).take(next - low + 1));
        if next == high {
            assert(numbers(low, high).take(next - low + 1) =~= numbers(low, high));
            break;
        }
        next = next + 1;
    }
}

/// Expands a UID set into its UIDs, in ascending order; shared with MOVE.
pub(crate) fn uid_set_to_vec(uid_set: UidSet) -> (uids: Vec<u32>)
    ensures
        uids@ == sorted_uids(uid_set),
{
    expand(&elements_of(uid_set))
}

/// Expands the elements of a UID set into its UIDs, in ascending order.
pub fn expand(elements: &Vec<UidElement>) -> (uids: Vec<u32>)
    ensures
        uids@ == ascending_uids(elements@),
{
    let mut uids: Vec<u32> = Vec::new();
    for index in 0..elements.len()
        invariant
            uids@ == all_uids(elements@.take(index as int)),
    {
        proof {
            let seen = elements@.take(index + 1);
            assert(seen.drop_last() =~= elements@.take(index as int));
        }
        match elements[index] {
            UidElement::Single(uid) => {
                uids.push(uid);
                assert(uids@ =~= all_uids(elements@.take(index as int)) + seq![uid]);
            },
            UidElement::Range(start, end) => {
                if start <= end {
                    push_numbers(start, end, &mut uids);
                } else {
                    push_numbers(end, start, &mut uids);
                }
            },
        }
    }
    assert(elements@.take(elements@.len() as int) =~= elements@);
    let ghost unsorted = uids@;
    sort_unstable(&mut uids);
    proof {
        let leq = |a: u32, b: u32| a <= b;
        unsorted.lemma_sort_by_ensures(leq);
        lemma_sorted_unique(uids@, unsorted.sort_by(leq), leq);
    }
    uids
}

/// The COPYUID triple of a response code.
pub open spec fn copy_uid(code: Option<CodeView>) -> CopyUidView {
    match code {
        Some(CodeView::CopyUid { uid_validity, source, destination }) => Some(
            (uid_validity, sorted_uids(source), sorted_uids(destination)),
        ),
        _ => None,
    }
}

/// The COPYUID triple of a response code; shared with MOVE.
pub(crate) fn copyuid_from_code(code: Option<ServerCode>) -> (triple: ImapCopyUid)
    ensures
        copy_uid_view(triple) == copy_uid(code_view(code)),
{
    match code {
        Some(ServerCode::CopyUid { uid_validity, source, destination }) => Some(
            (uid_validity, uid_set_to_vec(source), uid_set_to_vec(destination)),
        ),
        _ => None,
    }
}

/// What the answer to COPY amounts to.
pub open spec fn copy_outcome(output: OutputView) -> Result<CopyUidView, FailureView> {
    match verdict(output) {
        Ok(status) => Ok(copy_uid(status.code)),
        Err(err) => Err(err),
    }
}

/// I/O-free IMAP COPY coroutine.
pub struct ImapMessageCopy {
    send: ImapSend,
}

impl View for ImapMessageCopy {
    type V = SendState;

    closed spec fn view(&self) -> SendState {
        self.send@
    }
}

impl ImapMessageCopy {
    /// Creates a coroutine that copies the messages in `sequence_set` to
    /// `mailbox` and returns the COPYUID triple when present, under a
    /// fresh tag.
    pub fn new(
        sequence_set: SequenceSet,
        mailbox: Mailbox<'static>,
        opts: ImapMessageCopyOptions,
    ) -> (transfer: Self)
        ensures
            starts(
                transfer@,
                CommandView::Transfer {
                    command: TransferCommand::Copy,
                    messages: sequence_set,
                    mailbox: wire_form(mailbox),
                    uid: opts.uid,
                },
            ),
    {
        let mut mailbox = mailbox;
        encode_inplace(&mut mailbox);
        let encoded = encode_transfer(
            fresh_tag(),
            TransferCommand::Copy,
            sequence_set,
            mailbox,
            opts.uid,
        );
        ImapMessageCopy { send: ImapSend::new(encoded) }
    }

    /// What the answer to COPY amounts to.
    pub fn finish(output: ImapSendOutput) -> (result: Result<ImapCopyUid, ImapMessageCopyError>)
        ensures
            result_view_by(result, |triple: ImapCopyUid| copy_uid_view(triple)) == copy_outcome(
                output@,
            ),
    {
        match judge(output.bye, output.tagged) {
            Ok(status) => Ok(copyuid_from_code(status.code)),
            Err(refusal) => Err(ImapMessageCopyError::refused(refusal)),
        }
    }
}

impl ImapCoroutine for ImapMessageCopy {
    type Yield = ImapYield;

    type Return = Result<ImapCopyUid, ImapMessageCopyError>;

    fn resume(&mut self, fragmentizer: &mut Fragmentizer, arg: Option<&[u8]>) -> (step:
        ImapCoroutineState<ImapYield, Result<ImapCopyUid, ImapMessageCopyError>>)
        ensures
            is_step(
                (old(self)@, framing(*old(fragmentizer))),
                arg_view(arg),
                (final(self)@, framing(*final(fragmentizer))),
                step_view_by(step, |triple: ImapCopyUid| copy_uid_view(triple)),
                |output: OutputView| copy_outcome(output),
            ),
    {
        match self.send.resume(fragmentizer, arg) {
            ImapCoroutineState::Yielded(y) => ImapCoroutineState::Yielded(y),
            ImapCoroutineState::Complete(Ok(output)) => ImapCoroutineState::Complete(
                Self::finish(output),
            ),
            ImapCoroutineState::Complete(Err(err)) => ImapCoroutineState::Complete(
                Err(ImapMessageCopyError::Send(err)),
            ),
        }
    }
}

} // verus!
