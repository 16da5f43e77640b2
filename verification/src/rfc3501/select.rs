//! IMAP SELECT coroutine opening a mailbox for read-write.

use imap_codec::fragmentizer::Fragmentizer;
use imap_codec::imap_types::command::SelectParameter;
use imap_codec::imap_types::fetch::MessageDataItem;
use imap_codec::imap_types::flag::{Flag, FlagPerm};
use imap_codec::imap_types::mailbox::Mailbox;
use imap_codec::imap_types::sequence::SequenceSet;
use vstd::prelude::*;

use crate::command::{encode_open, fresh_tag, CommandView, OpenCommand};
use crate::coroutine::{arg_view, ImapCoroutine, ImapCoroutineState, ImapYield};
use crate::framing::framing;
use crate::outcome::{is_step, judge, result_view, step_view, verdict, FailureView, Refusal};
use crate::response::{
    CodeView, DataView, ServerCode, ServerData, StatusBody, StatusKind, StatusView,
};
use crate::rfc3501::copy::numbers;
use crate::rfc3501::mailbox::{encode_inplace, wire_form};
use crate::send::{
    data_views, starts, status_views, ImapSend, ImapSendError, ImapSendOutput, OutputView,
    SendState,
};

verus! {

/// Failure causes during the IMAP SELECT flow.
#[derive(Clone, Debug)]
pub enum ImapMailboxSelectError {
    /// The server rejected the command with a NO response.
    No(String),
    /// The server rejected the command with a BAD response.
    Bad(String),
    /// The server closed the connection with a BYE response.
    Bye(String),
    /// The server never answered with a tagged response.
    MissingTagged,
    /// The underlying exchange failed.
    Send(ImapSendError),
}

impl View for ImapMailboxSelectError {
    type V = FailureView;

    open spec fn view(&self) -> FailureView {
        match *self {
            ImapMailboxSelectError::No(text) => FailureView::No(text@),
            ImapMailboxSelectError::Bad(text) => FailureView::Bad(text@),
            ImapMailboxSelectError::Bye(text) => FailureView::Bye(text@),
            ImapMailboxSelectError::MissingTagged => FailureView::MissingTagged,
            ImapMailboxSelectError::Send(err) => FailureView::Send(err@),
        }
    }
}

impl ImapMailboxSelectError {
    fn refused(refusal: Refusal) -> (err: Self)
        ensures
            err@ == refusal@,
    {
        match refusal {
            Refusal::No(text) => ImapMailboxSelectError::No(text),
            Refusal::Bad(text) => ImapMailboxSelectError::Bad(text),
            Refusal::Bye(text) => ImapMailboxSelectError::Bye(text),
            Refusal::MissingTagged => ImapMailboxSelectError::MissingTagged,
        }
    }
}

/// Data collected from a SELECT (or EXAMINE) response.
///
/// `highest_mod_seq`, `vanished_earlier`, and `changed` populate only
/// when CONDSTORE / QRESYNC was requested via
/// [`ImapMailboxSelectOptions::parameters`]; the base SELECT call returns
/// them empty.
#[derive(Debug)]
pub struct SelectData {
    pub flags: Option<Vec<Flag<'static>>>,
    pub exists: Option<u32>,
    pub recent: Option<u32>,
    pub unseen: Option<u32>,
    pub permanent_flags: Option<Vec<FlagPerm<'static>>>,
    pub uid_next: Option<u32>,
    pub uid_validity: Option<u32>,
    /// `[HIGHESTMODSEQ n]` from the OK response, when CONDSTORE / QRESYNC
    /// was requested or the server volunteers it.
    pub highest_mod_seq: Option<u64>,
    /// UIDs reported by an implicit `* VANISHED (EARLIER) <uid-set>`
    /// response (QRESYNC only).
    pub vanished_earlier: Vec<u32>,
    /// Implicit `* FETCH` payloads emitted by the server as part of the
    /// QRESYNC resync.
    pub changed: Vec<SelectFetch>,
}

/// One implicit `* FETCH` returned during SELECT (QRESYNC) for a message
/// whose flags / mod-sequence changed since the checkpoint.
#[derive(Debug)]
pub struct SelectFetch {
    pub seq: u32,
    pub items: Vec<MessageDataItem<'static>>,
}

/// Model of [`SelectData`].
pub struct SelectView {
    pub flags: Option<Seq<Flag<'static>>>,
    pub exists: Option<u32>,
    pub recent: Option<u32>,
    pub unseen: Option<u32>,
    pub permanent_flags: Option<Seq<FlagPerm<'static>>>,
    pub uid_next: Option<u32>,
    pub uid_validity: Option<u32>,
    pub highest_mod_seq: Option<u64>,
    pub vanished_earlier: Seq<u32>,
    pub changed: Seq<(u32, Seq<MessageDataItem<'static>>)>,
}

pub open spec fn flags_view(flags: Option<Vec<Flag<'static>>>) -> Option<Seq<Flag<'static>>> {
    match flags {
        Some(flags) => Some(flags@),
        None => None,
    }
}

pub open spec fn permanent_flags_view(flags: Option<Vec<FlagPerm<'static>>>) -> Option<
    Seq<FlagPerm<'static>>,
> {
    match flags {
        Some(flags) => Some(flags@),
        None => None,
    }
}

pub open spec fn changed_view(changed: Seq<SelectFetch>) -> Seq<
    (u32, Seq<MessageDataItem<'static>>),
> {
    changed.map_values(|fetch: SelectFetch| (fetch.seq, fetch.items@))
}

impl View for SelectData {
    type V = SelectView;

    open spec fn view(&self) -> SelectView {
        SelectView {
            flags: flags_view(self.flags),
            exists: self.exists,
            recent: self.recent,
            unseen: self.unseen,
            permanent_flags: permanent_flags_view(self.permanent_flags),
            uid_next: self.uid_next,
            uid_validity: self.uid_validity,
            highest_mod_seq: self.highest_mod_seq,
            vanished_earlier: self.vanished_earlier@,
            changed: changed_view(self.changed@),
        }
    }
}

impl SelectView {
    pub open spec fn empty() -> SelectView {
        SelectView {
            flags: None,
            exists: None,
            recent: None,
            unseen: None,
            permanent_flags: None,
            uid_next: None,
            uid_validity: None,
            highest_mod_seq: None,
            vanished_earlier: Seq::empty(),
            changed: Seq::empty(),
        }
    }

    /// Adds what one untagged response says about the mailbox.
    pub open spec fn with_data(self, data: DataView) -> SelectView {
        match data {
            DataView::Flags(flags) => SelectView { flags: Some(flags), ..self },
            DataView::Exists(count) => SelectView { exists: Some(count), ..self },
            DataView::Recent(count) => SelectView { recent: Some(count), ..self },
            DataView::Fetch { seq, items } => SelectView {
                changed: self.changed.push((seq, items)),
                ..self
            },
            DataView::Vanished { earlier: true, known_uids } => SelectView {
                vanished_earlier: self.vanished_earlier + expanded(known_uids),
                ..self
            },
            _ => self,
        }
    }

    /// Adds what one untagged status says about the mailbox; only an OK
    /// says anything.
    pub open spec fn with_status(self, status: StatusView) -> SelectView {
        if status.kind != StatusKind::Success {
            self
        } else {
            match status.code {
                Some(CodeView::Unseen(seq)) => SelectView { unseen: Some(seq), ..self },
                Some(CodeView::PermanentFlags(flags)) => SelectView {
                    permanent_flags: Some(flags),
                    ..self
                },
                Some(CodeView::UidNext(uid)) => SelectView { uid_next: Some(uid), ..self },
                Some(CodeView::UidValidity(value)) => SelectView {
                    uid_validity: Some(value),
                    ..self
                },
                Some(CodeView::HighestModSeq(value)) => SelectView {
                    highest_mod_seq: Some(value),
                    ..self
                },
                _ => self,
            }
        }
    }
}

/// What untagged responses say about a mailbox.
pub open spec fn mailbox_data(data: Seq<DataView>) -> SelectView
    decreases data.len(),
{
    if data.len() == 0 {
        SelectView::empty()
    } else {
        mailbox_data(data.drop_last()).with_data(data.last())
    }
}

/// What untagged statuses add to it.
pub open spec fn with_statuses(view: SelectView, untagged: Seq<StatusView>) -> SelectView
    decreases untagged.len(),
{
    if untagged.len() == 0 {
        view
    } else {
        with_statuses(view, untagged.drop_last()).with_status(untagged.last())
    }
}

/// Model of one element of a sequence set; `None` is `*`.
pub enum SetElement {
    Single(Option<u32>),
    Range(Option<u32>, Option<u32>),
}

/// The elements of a sequence set, in order.
pub uninterp spec fn set_elements(set: SequenceSet) -> Seq<SetElement>;

/// `*` stands for the largest UID there can be.
pub open spec fn end_of(end: Option<u32>) -> u32 {
    match end {
        Some(uid) => uid,
        None => u32::MAX,
    }
}

/// Whether an element covers a UID; the ends of a range may come in any
/// order.
pub open spec fn covers(element: SetElement, uid: u32) -> bool {
    match element {
        SetElement::Single(end) => uid == end_of(end),
        SetElement::Range(start, end) => end_of(start) <= uid <= end_of(end) || end_of(end) <= uid
            <= end_of(start),
    }
}

/// Whether one of the elements covers a UID.
pub open spec fn is_member(elements: Seq<SetElement>, uid: u32) -> bool {
    exists|k: int| 0 <= k < elements.len() && covers(#[trigger] elements[k], uid)
}

/// The UIDs that the elements cover, each once, in ascending order.
pub open spec fn members(elements: Seq<SetElement>) -> Seq<u32> {
    numbers(1, u32::MAX).filter(|uid: u32| is_member(elements, uid))
}

/// The UIDs of a sequence set, each once, in ascending order.
pub open spec fn expanded(set: SequenceSet) -> Seq<u32> {
    members(set_elements(set))
}

/// `SequenceSet::iter` with the largest UID there can be: the UIDs that
/// the elements cover, each once, in ascending order.
#[verifier::external_body]
fn expand_uid_set(uid_set: &SequenceSet) -> (uids: Vec<u32>)
    ensures
        uids@ == members(set_elements(*uid_set)),
{
    uid_set.iter(std::num::NonZeroU32::MAX).map(u32::from).collect()
}

proof fn lemma_filter_ascending(uids: Seq<u32>, keep: spec_fn(u32) -> bool)
    requires
        forall|i: int, j: int| 0 <= i < j < uids.len() ==> uids[i] < uids[j],
    ensures
        forall|i: int, j: int|
            0 <= i < j < uids.filter(keep).len() ==> uids.filter(keep)[i] < uids.filter(keep)[j],
        forall|uid: u32| #[trigger]
            uids.filter(keep).contains(uid) <==> uids.contains(uid) && keep(uid),
    decreases uids.len(),
{
    reveal(Seq::filter);
    if uids.len() > 0 {
        let head = uids.drop_last();
        let last = uids.last();
        let kept = head.filter(keep);
        lemma_filter_ascending(head, keep);
        assert forall|uid: u32| #[trigger]
            uids.filter(keep).contains(uid) <==> uids.contains(uid) && keep(uid) by {
            assert(head.push(last) =~= uids);
            lemma_pushed(head, last, uid);
            lemma_pushed(kept, last, uid);
            assert(kept.contains(uid) <==> head.contains(uid) && keep(uid));
        }
        assert forall|i: int| 0 <= i < kept.len() implies #[trigger] kept[i] < last by {
            assert(kept.contains(kept[i]));
            let k = choose|k: int| 0 <= k < head.len() && head[k] == kept[i];
            assert(uids[k] < uids[uids.len() - 1]);
        }
    }
}

proof fn lemma_pushed(uids: Seq<u32>, last: u32, uid: u32)
    ensures
        uids.push(last).contains(uid) <==> uids.contains(uid) || uid == last,
{
    let all = uids.push(last);
    assert(all[uids.len() as int] == last);
    if uids.contains(uid) {
        let k = choose|k: int| 0 <= k < uids.len() && uids[k] == uid;
        assert(all[k] == uid);
    }
}

/// A sequence set is expanded to exactly the UIDs that its elements
/// cover, in ascending order.
pub proof fn expansion_is_exact(elements: Seq<SetElement>)
    ensures
        forall|uid: u32| #[trigger]
            members(elements).contains(uid) <==> uid > 0 && is_member(elements, uid),
        forall|i: int, j: int|
            0 <= i < j < members(elements).len() ==> members(elements)[i] < members(elements)[j],
{
    let all = numbers(1, u32::MAX);
    lemma_filter_ascending(all, |uid: u32| is_member(elements, uid));
    assert forall|uid: u32| #[trigger] all.contains(uid) <==> uid > 0 by {
        if uid > 0 {
            assert(all[uid - 1] == uid);
        }
    }
}

impl Default for SelectData {
    fn default() -> (data: Self)
        ensures
            data@ == SelectView::empty(),
    {
        let data = SelectData {
            flags: None,
            exists: None,
            recent: None,
            unseen: None,
            permanent_flags: None,
            uid_next: None,
            uid_validity: None,
            highest_mod_seq: None,
            vanished_earlier: Vec::new(),
            changed: Vec::new(),
        };
        assert(data@.vanished_earlier =~= Seq::empty());
        assert(data@.changed =~= Seq::empty());
        data
    }
}

impl SelectData {
    /// Adds what one untagged response says about the mailbox.
    fn add_data(&mut self, data: ServerData)
        ensures
            final(self)@ == old(self)@.with_data(data@),
    {
        match data {
            ServerData::Flags(flags) => {
                self.flags = Some(flags);
            },
            ServerData::Exists(count) => {
                self.exists = Some(count);
            },
            ServerData::Recent(count) => {
                self.recent = Some(count);
            },
            ServerData::Fetch { seq, items } => {
                self.changed.push(SelectFetch { seq, items });
            },
            ServerData::Vanished { earlier: true, known_uids } => {
                let mut uids = expand_uid_set(&known_uids);
                self.vanished_earlier.append(&mut uids);
            },
            _ => {},
        }
        proof {
            let view = old(self)@.with_data(data@);
            assert(self@.changed =~= view.changed);
        }
    }

    /// Adds what one untagged status says about the mailbox.
    fn add_status(&mut self, status: StatusBody)
        ensures
            final(self)@ == old(self)@.with_status(status@),
    {
        if status.kind != StatusKind::Success {
            return;
        }
        match status.code {
            Some(ServerCode::Unseen(seq)) => {
                self.unseen = Some(seq);
            },
            Some(ServerCode::PermanentFlags(flags)) => {
                self.permanent_flags = Some(flags);
            },
            Some(ServerCode::UidNext(uid)) => {
                self.uid_next = Some(uid);
            },
            Some(ServerCode::UidValidity(value)) => {
                self.uid_validity = Some(value);
            },
            Some(ServerCode::HighestModSeq(value)) => {
                self.highest_mod_seq = Some(value);
            },
            _ => {},
        }
    }

    /// What untagged responses and statuses say about a mailbox.
    pub(crate) fn collect(data: Vec<ServerData>, untagged: Vec<StatusBody>) -> (collected: Self)
        ensures
            collected@ == with_statuses(
                mailbox_data(data_views(data@)),
                status_views(untagged@),
            ),
    {
        let mut collected = SelectData::default();
        let ghost views = data_views(data@);
        for item in it: data
            invariant
                it.seq() == data@,
                views == data_views(data@),
                collected@ == mailbox_data(views.take(it.index())),
        {
            proof {
                let seen = views.take(it.index() + 1);
                assert(seen.drop_last() =~= views.take(it.index()));
                assert(seen.last() == item@);
            }
            collected.add_data(item);
        }
        assert(views.take(views.len() as int) =~= views);
        let ghost statuses = status_views(untagged@);
        assert(statuses.take(0) =~= Seq::empty());
        for status in it: untagged
            invariant
                it.seq() == untagged@,
                statuses == status_views(untagged@),
                collected@ == with_statuses(mailbox_data(views), statuses.take(it.index())),
        {
            proof {
                let seen = statuses.take(it.index() + 1);
                assert(seen.drop_last() =~= statuses.take(it.index()));
                assert(seen.last() == status@);
            }
            collected.add_status(status);
        }
        assert(statuses.take(statuses.len() as int) =~= statuses);
        collected
    }
}

/// Options for [`ImapMailboxSelect::new`].
#[derive(Debug)]
pub struct ImapMailboxSelectOptions {
    /// SELECT/EXAMINE parameters (RFC 4466). Pass CONDSTORE or QRESYNC to
    /// opt into the matching extras in the response. Default: empty
    /// (plain SELECT).
    pub parameters: Vec<SelectParameter>,
}

impl Default for ImapMailboxSelectOptions {
    fn default() -> (opts: Self)
        ensures
            opts.parameters@.len() == 0,
    {
        ImapMailboxSelectOptions { parameters: Vec::new() }
    }
}

/// What the answer to SELECT amounts to.
pub open spec fn select_outcome(output: OutputView) -> Result<SelectView, FailureView> {
    match verdict(output) {
        Ok(_) => Ok(with_statuses(mailbox_data(output.data), output.untagged)),
        Err(err) => Err(err),
    }
}

/// I/O-free IMAP SELECT coroutine.
pub struct ImapMailboxSelect {
    send: ImapSend,
}

impl View for ImapMailboxSelect {
    type V = SendState;

    closed spec fn view(&self) -> SendState {
        self.send@
    }
}

impl ImapMailboxSelect {
    /// Creates a coroutine that opens `mailbox`, under a fresh tag.
    pub fn new(mailbox: Mailbox<'static>, opts: ImapMailboxSelectOptions) -> (select: Self)
        ensures
            starts(
                select@,
                CommandView::Open {
                    command: OpenCommand::Select,
                    mailbox: wire_form(mailbox),
                    parameters: opts.parameters@,
                },
            ),
    {
        let mut mailbox = mailbox;
        encode_inplace(&mut mailbox);
        let encoded = encode_open(fresh_tag(), OpenCommand::Select, mailbox, opts.parameters);
        ImapMailboxSelect { send: ImapSend::new(encoded) }
    }

    /// What the answer to SELECT amounts to.
    pub fn finish(output: ImapSendOutput) -> (result: Result<SelectData, ImapMailboxSelectError>)
        ensures
            result_view(result) == select_outcome(output@),
    {
        match judge(output.bye, output.tagged) {
            Ok(_) => Ok(SelectData::collect(output.data, output.untagged)),
            Err(refusal) => Err(ImapMailboxSelectError::refused(refusal)),
        }
    }
}

impl ImapCoroutine for ImapMailboxSelect {
    type Yield = ImapYield;

    type Return = Result<SelectData, ImapMailboxSelectError>;

    fn resume(&mut self, fragmentizer: &mut Fragmentizer, arg: Option<&[u8]>) -> (step:
        ImapCoroutineState<ImapYield, Result<SelectData, ImapMailboxSelectError>>)
        ensures
            is_step(
                (old(self)@, framing(*old(fragmentizer))),
                arg_view(arg),
                (final(self)@, framing(*final(fragmentizer))),
                step_view(step),
                |output: OutputView| select_outcome(output),
            ),
    {
        match self.send.resume(fragmentizer, arg) {
            ImapCoroutineState::Yielded(y) => ImapCoroutineState::Yielded(y),
            ImapCoroutineState::Complete(Ok(output)) => ImapCoroutineState::Complete(
                Self::finish(output),
            ),
            ImapCoroutineState::Complete(Err(err)) => ImapCoroutineState::Complete(
                Err(ImapMailboxSelectError::Send(err)),
            ),
        }
    }
}

} // verus!
