//! IMAP raw passthrough coroutine; writes one or more caller-tagged
//! command lines byte-for-byte and returns the verbatim server response.
//!
//! The input is sent to the server exactly as given: no tag is injected,
//! no CRLF is trimmed or appended. Callers are therefore responsible for
//! tagging every command and separating them with CRLF, which makes it
//! possible to pipeline a whole batch in a single exchange, e.g.
//!
//! ```text
//! a1 SELECT INBOX\r\na2 SEARCH ALL\r\na3 FETCH 1 BODY[]\r\n
//! ```
//!
//! Before anything hits the wire the input is parsed to extract the tag
//! of every command; the exchange then reads responses until *all* those
//! tags have been acknowledged by a matching tagged completion line. This
//! tolerates the server answering pipelined commands out of order (RFC
//! 3501 §5.5), which a "wait for the last tag" strategy would not.

use imap_codec::fragmentizer::Fragmentizer;
use vstd::prelude::*;
use vstd::utf8::{
    decode_utf8, is_leading_byte_width_1, partial_valid_utf8_extend_ascii_block, valid_utf8,
};

use crate::coroutine::{arg_view, ImapCoroutine, ImapCoroutineState, ImapYield, YieldView};
use crate::framing::{
    enqueue_bytes, framing, is_message_complete, message_bytes, new_fragmentizer, progress, Framing,
};
use crate::outcome::{step_view, FailureView};
use crate::rfc3501::mailbox::bytes_view;
use crate::send::part_views;

verus! {

/// Upper bound on the size of a single parsed command.
pub const MAX_COMMAND_SIZE: u32 = 52_428_800;

/// Failure causes during the IMAP raw passthrough flow.
#[derive(Clone, Debug)]
pub enum ImapRawError {
    /// The input carried no complete, tagged command.
    NoCommand,
    /// A command line carried no valid tag (untagged `*`/`+` line, a bare
    /// word with no command, or otherwise malformed).
    MissingTag,
    /// The same tag was reused by more than one command in the batch,
    /// which would make its completion ambiguous.
    DuplicateTag(String),
    /// The final command was not terminated by CRLF (or a literal was
    /// truncated), so it would reach the server incomplete.
    IncompleteCommand,
    /// The stream reached EOF before every tagged completion line
    /// arrived.
    Eof,
}

impl View for ImapRawError {
    type V = FailureView;

    open spec fn view(&self) -> FailureView {
        match *self {
            ImapRawError::NoCommand => FailureView::NoCommand,
            ImapRawError::MissingTag => FailureView::MissingTag,
            ImapRawError::DuplicateTag(tag) => FailureView::DuplicateTag(tag@),
            ImapRawError::IncompleteCommand => FailureView::IncompleteCommand,
            ImapRawError::Eof => FailureView::Eof,
        }
    }
}

/// Bytes that a tag can be made of.
pub open spec fn is_tag_char(b: u8) -> bool {
    &&& 0x21 <= b <= 0x7e
    &&& b != 0x22
    &&& b != 0x25
    &&& b != 0x28
    &&& b != 0x29
    &&& b != 0x2a
    &&& b != 0x2b
    &&& b != 0x5c
    &&& b != 0x7b
}

/// The tag of a message: what precedes its first space, when that is a
/// valid tag.
pub open spec fn message_tag(message: Seq<u8>) -> Option<Seq<u8>> {
    match message.index_of_first(0x20) {
        Some(index) => {
            let word = message.take(index);
            if word.len() > 0 && forall|i: int|
                0 <= i < word.len() ==> is_tag_char(#[trigger] word[i]) {
                Some(word)
            } else {
                None
            }
        },
        None => None,
    }
}

/// `Fragmentizer::decode_tag`: the tag of the current message.
#[verifier::external_body]
fn decode_tag(fragmentizer: &Fragmentizer) -> (tag: Option<Vec<u8>>)
    ensures
        bytes_view(tag) == message_tag(framing(*fragmentizer).message),
{
    fragmentizer.decode_tag().map(|tag| tag.as_ref().as_bytes().to_vec())
}

/// The text that bytes stand for which are not UTF-8, with replacement
/// characters.
pub uninterp spec fn lossy_text(bytes: Seq<u8>) -> Seq<char>;

/// The text that bytes stand for. UTF-8 is kept as it is.
pub open spec fn response_text(bytes: Seq<u8>) -> Seq<char> {
    if valid_utf8(bytes) {
        decode_utf8(bytes)
    } else {
        lossy_text(bytes)
    }
}

/// `String::from_utf8_lossy`: UTF-8 is kept as it is.
#[verifier::external_body]
fn utf8_lossy(bytes: &Vec<u8>) -> (text: String)
    ensures
        text@ == if valid_utf8(bytes@) {
            decode_utf8(bytes@)
        } else {
            lossy_text(bytes@)
        },
{
    String::from_utf8_lossy(bytes).into_owned()
}

/// The tags of the commands in the buffer, after the ones in `seen`, or
/// why the commands cannot be sent.
pub open spec fn tags_of(framing: Framing, seen: Seq<Seq<u8>>) -> Result<
    Seq<Seq<u8>>,
    FailureView,
>
    decreases framing.unparsed.len(), framing.owed(),
{
    proof {
        framing.lemma_progress();
    }
    let (next, fragment) = framing.progress();
    if fragment is None {
        if next.message.len() > 0 {
            Err(FailureView::IncompleteCommand)
        } else if seen.len() == 0 {
            Err(FailureView::NoCommand)
        } else {
            Ok(seen)
        }
    } else if !next.complete() {
        tags_of(next, seen)
    } else {
        match message_tag(next.message) {
            Some(tag) => if seen.contains(tag) {
                Err(FailureView::DuplicateTag(decode_utf8(tag)))
            } else {
                tags_of(next, seen.push(tag))
            },
            None => Err(FailureView::MissingTag),
        }
    }
}

/// The tags of the commands in `command`, or why they cannot be sent.
pub open spec fn command_tags(command: Seq<u8>) -> Result<Seq<Seq<u8>>, FailureView> {
    tags_of(Framing::empty(MAX_COMMAND_SIZE).enqueue(command), Seq::empty())
}

/// The tags of the complete messages in the buffer, in order; `None` for
/// a message without one.
pub open spec fn tags_in(framing: Framing) -> Seq<Option<Seq<u8>>>
    decreases framing.unparsed.len(), framing.owed(),
{
    proof {
        framing.lemma_progress();
    }
    let (next, fragment) = framing.progress();
    if fragment is None {
        Seq::empty()
    } else if !next.complete() {
        tags_in(next)
    } else {
        seq![message_tag(next.message)] + tags_in(next)
    }
}

/// Whether `tag` occurs twice.
pub open spec fn occurs_twice(tags: Seq<Option<Seq<u8>>>, tag: Seq<u8>) -> bool {
    exists|i: int, j: int|
        0 <= i < j < tags.len() && #[trigger] tags[i] == Some(tag) && #[trigger] tags[j] == Some(
            tag,
        )
}

/// Whether two of the commands in `command` carry `tag`.
pub open spec fn is_repeated(command: Seq<u8>, tag: Seq<u8>) -> bool {
    occurs_twice(tags_in(Framing::empty(MAX_COMMAND_SIZE).enqueue(command)), tag)
}

/// A tag is ASCII.
proof fn lemma_tag_is_text(message: Seq<u8>)
    ensures
        message_tag(message) matches Some(tag) ==> valid_utf8(tag),
{
    if let Some(tag) = message_tag(message) {
        assert(tag.subrange(0, 0) =~= Seq::empty());
        assert forall|i: int| 0 <= i < tag.len() implies #[trigger] is_leading_byte_width_1(
            tag[i],
        ) by {
            assert(is_tag_char(tag[i]));
        }
        partial_valid_utf8_extend_ascii_block(tag, 0, tag.len() as int);
        assert(tag.subrange(0, tag.len() as int) =~= tag);
    }
}

proof fn lemma_repeated(framing: Framing, seen: Seq<Seq<u8>>, all: Seq<Option<Seq<u8>>>, text: Seq<
    char,
>)
    requires
        tags_of(framing, seen) == Err::<Seq<Seq<u8>>, _>(FailureView::DuplicateTag(text)),
        all == seen.map_values(|tag: Seq<u8>| Some(tag)) + tags_in(framing),
    ensures
        exists|tag: Seq<u8>| #[trigger] occurs_twice(all, tag) && text == decode_utf8(tag),
    decreases framing.unparsed.len(), framing.owed(),
{
    framing.lemma_progress();
    let (next, fragment) = framing.progress();
    if !next.complete() {
        lemma_repeated(next, seen, all, text);
    } else {
        let tag = message_tag(next.message)->0;
        let before = seen.map_values(|tag: Seq<u8>| Some(tag));
        if seen.contains(tag) {
            let i = choose|i: int| 0 <= i < seen.len() && seen[i] == tag;
            assert(all[i] == Some(tag));
            assert(all[seen.len() as int] == Some(tag));
            assert(occurs_twice(all, tag));
        } else {
            let after = seen.push(tag).map_values(|tag: Seq<u8>| Some(tag));
            assert(after =~= before.push(Some(tag)));
            assert(after + tags_in(next) =~= all);
            lemma_repeated(next, seen.push(tag), all, text);
        }
    }
}

/// What [`capture`] leaves.
pub struct Captured {
    pub framing: Framing,
    pub pending: Seq<Seq<u8>>,
    pub response: Seq<u8>,
}

/// The tags other than that of `message`.
pub open spec fn unacknowledged(pending: Seq<Seq<u8>>, message: Seq<u8>) -> Seq<Seq<u8>> {
    pending.filter(|tag: Seq<u8>| message_tag(message) != Some(tag))
}

/// Every message that the enqueued bytes complete is added to the
/// response, and acknowledges the command with its tag.
pub open spec fn capture(pending: Seq<Seq<u8>>, response: Seq<u8>, framing: Framing) -> Captured
    decreases framing.unparsed.len(), framing.owed(),
{
    proof {
        framing.lemma_progress();
    }
    let (next, fragment) = framing.progress();
    if fragment is None {
        Captured { framing: next, pending, response }
    } else if !next.complete() {
        capture(pending, response, next)
    } else {
        capture(unacknowledged(pending, next.message), response + next.message, next)
    }
}

/// State of [`ImapRaw`].
pub struct RawState {
    /// The commands, as long as they are to be written.
    pub command: Option<Seq<u8>>,
    /// Tags of the commands that are not completed yet.
    pub pending: Seq<Seq<u8>>,
    /// What the server answered so far.
    pub response: Seq<u8>,
}

/// One step of [`ImapRaw`].
pub struct RawStep {
    pub state: RawState,
    pub framing: Framing,
    pub result: ImapCoroutineState<YieldView, Result<Seq<char>, FailureView>>,
}

impl RawState {
    pub open spec fn resume(self, framing: Framing, arg: Option<Seq<u8>>) -> RawStep {
        match self.command {
            Some(command) => RawStep {
                state: RawState { command: None, ..self },
                framing,
                result: ImapCoroutineState::Yielded(YieldView::WantsWrite(command)),
            },
            None => match arg {
                None => RawStep {
                    state: self,
                    framing,
                    result: ImapCoroutineState::Yielded(YieldView::WantsRead),
                },
                Some(bytes) => if bytes.len() == 0 {
                    RawStep {
                        state: self,
                        framing,
                        result: ImapCoroutineState::Complete(Err(FailureView::Eof)),
                    }
                } else {
                    let captured = capture(self.pending, self.response, framing.enqueue(bytes));
                    RawStep {
                        state: RawState {
                            command: None,
                            pending: captured.pending,
                            response: captured.response,
                        },
                        framing: captured.framing,
                        result: if captured.pending.len() == 0 {
                            ImapCoroutineState::Complete(Ok(response_text(captured.response)))
                        } else {
                            ImapCoroutineState::Yielded(YieldView::WantsRead)
                        },
                    }
                },
            },
        }
    }
}

/// Whether two byte sequences are equal.
fn same_bytes(a: &Vec<u8>, b: &Vec<u8>) -> (same: bool)
    ensures
        same == (a@ == b@),
{
    if a.len() != b.len() {
        return false;
    }
    let mut index: usize = 0;
    while index < a.len()
        invariant
            a@.len() == b@.len(),
            index <= a@.len(),
            forall|i: int| 0 <= i < index ==> a@[i] == b@[i],
        decreases a@.len() - index,
    {
        if a[index] != b[index] {
            return false;
        }
        index = index + 1;
    }
    assert(a@ =~= b@);
    true
}

/// Whether `tag` is one of `tags`.
fn contains_tag(tags: &Vec<Vec<u8>>, tag: &Vec<u8>) -> (found: bool)
    ensures
        found == part_views(tags@).contains(tag@),
{
    let ghost views = part_views(tags@);
    let mut index: usize = 0;
    while index < tags.len()
        invariant
            views == part_views(tags@),
            index <= tags@.len(),
            forall|i: int| 0 <= i < index ==> views[i] != tag@,
        decreases tags@.len() - index,
    {
        if same_bytes(&tags[index], tag) {
            assert(views[index as int] == tag@);
            return true;
        }
        index = index + 1;
    }
    false
}

/// The tags other than `tag`.
fn without_tag(tags: Vec<Vec<u8>>, tag: &Vec<u8>) -> (rest: Vec<Vec<u8>>)
    ensures
        part_views(rest@) == part_views(tags@).filter(|other: Seq<u8>| Some(tag@) != Some(other)),
{
    reveal(Seq::filter);
    let ghost views = part_views(tags@);
    let ghost keep = |other: Seq<u8>| Some(tag@) != Some(other);
    let mut rest: Vec<Vec<u8>> = Vec::new();
    assert(views.take(0).filter(keep) =~= Seq::empty());
    assert(part_views(rest@) =~= Seq::empty());
    for other in it: tags
        invariant
            it.seq() == tags@,
            views == part_views(tags@),
            keep == (|other: Seq<u8>| Some(tag@) != Some(other)),
            part_views(rest@) == views.take(it.index()).filter(keep),
    {
        let ghost before = part_views(rest@);
        proof {
            reveal(Seq::filter);
            let seen = views.take(it.index() + 1);
            assert(seen.drop_last() =~= views.take(it.index()));
            assert(seen.last() == other@);
        }
        if !same_bytes(&other, tag) {
            rest.push(other);
            assert(part_views(rest@) =~= before.push(other@));
        }
    }
    assert(views.take(views.len() as int) =~= views);
    rest
}

/// I/O-free IMAP raw passthrough coroutine.
///
/// The returned String is a lossy UTF-8 decoding of the raw bytes, so
/// binary payloads carried in literals are rendered with replacement
/// characters.
pub struct ImapRaw {
    command: Option<Vec<u8>>,
    pending: Vec<Vec<u8>>,
    response: Vec<u8>,
}

impl View for ImapRaw {
    type V = RawState;

    closed spec fn view(&self) -> RawState {
        RawState {
            command: bytes_view(self.command),
            pending: part_views(self.pending@),
            response: self.response@,
        }
    }
}

/// The tags of the commands in `probe`, or why they cannot be sent.
fn collect_tags(probe: Fragmentizer) -> (result: Result<Vec<Vec<u8>>, ImapRawError>)
    ensures
        tags_of(framing(probe), Seq::empty()) == match result {
            Ok(tags) => Ok(part_views(tags@)),
            Err(err) => Err(err@),
        },
{
    let ghost goal = tags_of(framing(probe), Seq::empty());
    let mut parser = probe;
    let mut tags: Vec<Vec<u8>> = Vec::new();
    assert(part_views(tags@) =~= Seq::empty());
    loop
        invariant_except_break
            goal == tags_of(framing(parser), part_views(tags@)),
        invariant
            goal == tags_of(framing(probe), Seq::empty()),
        ensures
            goal == if framing(parser).message.len() > 0 {
                Err(FailureView::IncompleteCommand)
            } else if tags@.len() == 0 {
                Err(FailureView::NoCommand)
            } else {
                Ok(part_views(tags@))
            },
        decreases framing(parser).unparsed.len(), framing(parser).owed(),
    {
        proof {
            framing(parser).lemma_progress();
        }
        if progress(&mut parser).is_none() {
            break;
        }
        if is_message_complete(&parser) {
            let tag = match decode_tag(&parser) {
                Some(tag) => tag,
                None => {
                    return Err(ImapRawError::MissingTag);
                },
            };
            proof {
                lemma_tag_is_text(framing(parser).message);
            }
            if contains_tag(&tags, &tag) {
                return Err(ImapRawError::DuplicateTag(utf8_lossy(&tag)));
            }
            let ghost before = part_views(tags@);
            tags.push(tag);
            assert(part_views(tags@) =~= before.push(tag@));
        }
    }
    // Once the input is drained, a non-empty current message is a
    // trailing command that never reached its terminating CRLF.
    if message_bytes(&parser).len() > 0 {
        return Err(ImapRawError::IncompleteCommand);
    }
    if tags.len() == 0 {
        return Err(ImapRawError::NoCommand);
    }
    Ok(tags)
}

impl ImapRaw {
    /// Creates a raw passthrough over `command`, whose bytes are written
    /// to the server verbatim.
    ///
    /// The input must contain one or more IMAP commands, each carrying its
    /// own tag and terminated by CRLF; the tags are extracted up front so
    /// the exchange knows exactly how many tagged completions to wait for.
    /// Nothing is added to or stripped from the bytes sent on the wire.
    ///
    /// Returns an error when the input holds no tagged command, when a
    /// command carries no valid tag, when a tag is reused, or when the
    /// last command is not terminated.
    pub fn new(command: &[u8]) -> (result: Result<Self, ImapRawError>)
        ensures
            match result {
                Ok(raw) => command_tags(command@) == Ok::<_, FailureView>(raw@.pending)
                    && raw@.command == Some(command@) && raw@.response == Seq::<u8>::empty(),
                Err(err) => command_tags(command@) == Err::<Seq<Seq<u8>>, _>(err@),
            },
            result matches Err(ImapRawError::DuplicateTag(text)) ==> exists|tag: Seq<u8>| #[trigger]
                is_repeated(command@, tag) && text@ == decode_utf8(tag),
    {
        // Parse the outgoing bytes the way responses are parsed, so tags
        // are extracted correctly across literals and CRLF-separated
        // command boundaries.
        let mut probe = new_fragmentizer(MAX_COMMAND_SIZE);
        enqueue_bytes(&mut probe, command);
        match collect_tags(probe) {
            Ok(pending) => {
                let mut bytes: Vec<u8> = Vec::new();
                bytes.extend_from_slice(command);
                let raw = ImapRaw { command: Some(bytes), pending, response: Vec::new() };
                proof {
                    assert(bytes@ =~= command@);
                    assert(raw@.response =~= Seq::empty());
                }
                Ok(raw)
            },
            Err(err) => {
                proof {
                    if let FailureView::DuplicateTag(text) = err@ {
                        let parsed = Framing::empty(MAX_COMMAND_SIZE).enqueue(command@);
                        let none: Seq<Seq<u8>> = Seq::empty();
                        assert(none.map_values(|tag: Seq<u8>| Some(tag)) + tags_in(parsed)
                            =~= tags_in(parsed));
                        lemma_repeated(parsed, none, tags_in(parsed), text);
                        let tag = choose|tag: Seq<u8>| #[trigger]
                            occurs_twice(tags_in(parsed), tag) && text == decode_utf8(tag);
                        assert(is_repeated(command@, tag));
                    }
                }
                Err(err)
            },
        }
    }

    /// The tags of the commands that are not completed yet.
    pub fn pending(&self) -> (tags: &Vec<Vec<u8>>)
        ensures
            part_views(tags@) == self@.pending,
    {
        &self.pending
    }

    /// Adds every message that the bytes in `fragmentizer` complete.
    fn capture(&mut self, fragmentizer: &mut Fragmentizer)
        ensures
            capture(old(self)@.pending, old(self)@.response, framing(*old(fragmentizer))) == (
            Captured {
                framing: framing(*final(fragmentizer)),
                pending: final(self)@.pending,
                response: final(self)@.response,
            }),
            final(self)@.command == old(self)@.command,
    {
        loop
            invariant
                capture(old(self)@.pending, old(self)@.response, framing(*old(fragmentizer)))
                    == capture(self@.pending, self@.response, framing(*fragmentizer)),
                self@.command == old(self)@.command,
            decreases framing(*fragmentizer).unparsed.len(), framing(*fragmentizer).owed(),
        {
            proof {
                framing(*fragmentizer).lemma_progress();
            }
            if progress(fragmentizer).is_none() {
                return;
            }
            if is_message_complete(fragmentizer) {
                let ghost message = framing(*fragmentizer).message;
                let ghost before = self@.pending;
                let ghost response = self@.response;
                self.response.extend_from_slice(message_bytes(fragmentizer));
                assert(self@.response =~= response + message);
                // Untagged responses carry no tag and are captured then
                // ignored; a tagged completion clears the matching
                // command.
                match decode_tag(fragmentizer) {
                    Some(tag) => {
                        let mut pending: Vec<Vec<u8>> = Vec::new();
                        std::mem::swap(&mut pending, &mut self.pending);
                        self.pending = without_tag(pending, &tag);
                    },
                    None => {
                        proof {
                            lemma_filter_all(
                                before,
                                |tag: Seq<u8>| message_tag(message) != Some(tag),
                            );
                        }
                    },
                }
                assert(self@.pending == unacknowledged(before, message));
            }
        }
    }
}

proof fn lemma_filter_all(tags: Seq<Seq<u8>>, keep: spec_fn(Seq<u8>) -> bool)
    requires
        forall|tag: Seq<u8>| #[trigger] keep(tag),
    ensures
        tags.filter(keep) == tags,
    decreases tags.len(),
{
    reveal(Seq::filter);
    if tags.len() > 0 {
        lemma_filter_all(tags.drop_last(), keep);
        assert(tags.drop_last().push(tags.last()) =~= tags);
    } else {
        assert(tags.filter(keep) =~= tags);
    }
}

impl ImapCoroutine for ImapRaw {
    type Yield = ImapYield;

    type Return = Result<String, ImapRawError>;

    fn resume(&mut self, fragmentizer: &mut Fragmentizer, arg: Option<&[u8]>) -> (step:
        ImapCoroutineState<ImapYield, Result<String, ImapRawError>>)
        ensures
            old(self)@.resume(framing(*old(fragmentizer)), arg_view(arg)) == (RawStep {
                state: final(self)@,
                framing: framing(*final(fragmentizer)),
                result: step_view(step),
            }),
            step matches ImapCoroutineState::Complete(Ok(text)) ==> (valid_utf8(
                final(self)@.response,
            ) ==> text@ == decode_utf8(final(self)@.response)),
    {
        if let Some(command) = self.command.take() {
            return ImapCoroutineState::Yielded(ImapYield::WantsWrite(command));
        }
        let bytes = match arg {
            None => {
                return ImapCoroutineState::Yielded(ImapYield::WantsRead);
            },
            Some(bytes) => bytes,
        };
        if bytes.len() == 0 {
            return ImapCoroutineState::Complete(Err(ImapRawError::Eof));
        }
        enqueue_bytes(fragmentizer, bytes);
        self.capture(fragmentizer);
        if self.pending.len() == 0 {
            return ImapCoroutineState::Complete(Ok(utf8_lossy(&self.response)));
        }
        ImapCoroutineState::Yielded(ImapYield::WantsRead)
    }
}

/// The bytes of a message that is not complete yet.
pub open spec fn open_bytes(framing: Framing) -> Seq<u8> {
    if framing.complete() {
        Seq::empty()
    } else {
        framing.message
    }
}

/// Whether all that was read so far fits in one message.
pub open spec fn has_room(framing: Framing) -> bool {
    match framing.limit {
        Some(limit) => open_bytes(framing).len() + framing.unparsed.len() <= limit,
        None => true,
    }
}

/// Nothing that is read is lost, added or changed: what was captured and
/// what is still open are the bytes read, in order.
pub proof fn capture_is_verbatim(pending: Seq<Seq<u8>>, response: Seq<u8>, framing: Framing)
    requires
        has_room(framing),
    ensures
        ({
            let captured = capture(pending, response, framing);
            captured.response + open_bytes(captured.framing) == response + open_bytes(framing)
                + framing.unparsed
        }),
    decreases framing.unparsed.len(), framing.owed(),
{
    framing.lemma_progress();
    let (next, fragment) = framing.progress();
    let held = framing.unparsed;
    let open = open_bytes(framing);
    held.index_of_first_ensures(0x0a);
    let count = held.len() - next.unparsed.len();
    assert(next.message =~= open + held.take(count));
    assert(next.unparsed =~= held.skip(count));
    assert(held.take(count) + held.skip(count) =~= held);
    if fragment is None {
        assert(held.take(count) =~= held);
        assert(response + next.message =~= response + open + held);
    } else if !next.complete() {
        capture_is_verbatim(pending, response, next);
        assert(response + next.message + next.unparsed =~= response + open + held);
    } else {
        let rest = unacknowledged(pending, next.message);
        let more = response + next.message;
        capture_is_verbatim(rest, more, next);
        assert(more + Seq::<u8>::empty() + next.unparsed =~= response + open + held);
    }
}

/// The server's answer is returned as it was read. When nothing is left
/// of a further message, it is everything that was read.
pub proof fn response_is_verbatim(state: RawState, framing: Framing, bytes: Seq<u8>)
    requires
        state.command is None,
        bytes.len() > 0,
        has_room(framing.enqueue(bytes)),
    ensures
        ({
            let step = state.resume(framing, Some(bytes));
            let read = state.response + open_bytes(framing) + (framing.unparsed + bytes);
            &&& step.state.response + open_bytes(step.framing) == read
            &&& step.result is Complete ==> step.result == ImapCoroutineState::<
                YieldView,
                _,
            >::Complete(Ok::<_, FailureView>(response_text(step.state.response)))
            &&& open_bytes(step.framing).len() == 0 ==> step.state.response == read
        }),
{
    capture_is_verbatim(state.pending, state.response, framing.enqueue(bytes));
    let step = state.resume(framing, Some(bytes));
    assert(open_bytes(step.framing).len() == 0 ==> step.state.response + open_bytes(step.framing)
        =~= step.state.response);
}

/// Whether one of the messages that the enqueued bytes complete carries
/// `tag`.
pub open spec fn acknowledges(framing: Framing, tag: Seq<u8>) -> bool
    decreases framing.unparsed.len(), framing.owed(),
{
    proof {
        framing.lemma_progress();
    }
    let (next, fragment) = framing.progress();
    if fragment is None {
        false
    } else {
        (next.complete() && message_tag(next.message) == Some(tag)) || acknowledges(next, tag)
    }
}

proof fn lemma_unacknowledged(pending: Seq<Seq<u8>>, message: Seq<u8>, tag: Seq<u8>)
    ensures
        unacknowledged(pending, message).contains(tag) <==> pending.contains(tag) && message_tag(
            message,
        ) != Some(tag),
    decreases pending.len(),
{
    reveal(Seq::filter);
    if pending.len() > 0 {
        let rest = pending.drop_last();
        lemma_unacknowledged(rest, message, tag);
        let kept = unacknowledged(rest, message);
        assert(pending =~= rest.push(pending.last()));
        assert(rest.push(pending.last()).contains(tag) <==> rest.contains(tag) || pending.last()
            == tag) by {
            lemma_push_contains(rest, pending.last(), tag);
        }
        lemma_push_contains(kept, pending.last(), tag);
    }
}

proof fn lemma_push_contains(tags: Seq<Seq<u8>>, last: Seq<u8>, tag: Seq<u8>)
    ensures
        tags.push(last).contains(tag) <==> tags.contains(tag) || last == tag,
{
    let all = tags.push(last);
    if tags.contains(tag) {
        let at = choose|i: int| 0 <= i < tags.len() && tags[i] == tag;
        assert(all[at] == tag);
    }
    if last == tag {
        assert(all[tags.len() as int] == tag);
    }
    if all.contains(tag) {
        let at = choose|i: int| 0 <= i < all.len() && all[i] == tag;
        if at < tags.len() {
            assert(tags[at] == tag);
        }
    }
}

/// A command stays pending until a message carries its tag, in whatever
/// order the server answers.
pub proof fn every_tag_is_awaited(
    pending: Seq<Seq<u8>>,
    response: Seq<u8>,
    framing: Framing,
    tag: Seq<u8>,
)
    ensures
        capture(pending, response, framing).pending.contains(tag) <==> pending.contains(tag)
            && !acknowledges(framing, tag),
    decreases framing.unparsed.len(), framing.owed(),
{
    framing.lemma_progress();
    let (next, fragment) = framing.progress();
    if fragment is Some {
        if next.complete() {
            lemma_unacknowledged(pending, next.message, tag);
            every_tag_is_awaited(
                unacknowledged(pending, next.message),
                response + next.message,
                next,
                tag,
            );
        } else {
            every_tag_is_awaited(pending, response, next, tag);
        }
    }
}

proof fn lemma_capture_split(
    pending: Seq<Seq<u8>>,
    response: Seq<u8>,
    framing: Framing,
    bytes: Seq<u8>,
)
    ensures
        ({
            let captured = capture(pending, response, framing);
            capture(pending, response, framing.enqueue(bytes)) == capture(
                captured.pending,
                captured.response,
                captured.framing.enqueue(bytes),
            )
        }),
    decreases framing.unparsed.len(), framing.owed(),
{
    framing.lemma_progress();
    let (next, fragment) = framing.progress();
    if fragment is None {
        framing.lemma_found_later(bytes);
    } else {
        framing.lemma_found_regardless(bytes);
        if next.complete() {
            lemma_capture_split(
                unacknowledged(pending, next.message),
                response + next.message,
                next,
                bytes,
            );
        } else {
            lemma_capture_split(pending, response, next, bytes);
        }
    }
}

/// How a response is split into reads does not matter: what is read in
/// two goes leads to the same step as if it were read at once.
pub proof fn reads_can_be_split(state: RawState, framing: Framing, first: Seq<u8>, second: Seq<u8>)
    requires
        first.len() > 0,
        second.len() > 0,
        state.resume(framing, Some(first)).result == ImapCoroutineState::<
            YieldView,
            Result<Seq<char>, FailureView>,
        >::Yielded(YieldView::WantsRead),
    ensures
        ({
            let step = state.resume(framing, Some(first));
            step.state.resume(step.framing, Some(second)) == state.resume(
                framing,
                Some(first + second),
            )
        }),
{
    lemma_capture_split(state.pending, state.response, framing.enqueue(first), second);
    assert(framing.enqueue(first).enqueue(second).unparsed =~= framing.unparsed + (first + second));
}

} // verus!
