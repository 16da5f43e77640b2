//! IMAP FETCH body-stream coroutine over many messages: one command, one
//! round trip, every body streamed straight to a sink of its own.
//!
//! Requests `UID` ahead of `BODY.PEEK[]`, so that each body is attributed
//! by the UID on its FETCH line, whatever the order of the responses.

use imap_codec::fragmentizer::Fragmentizer;
use imap_codec::imap_types;
use imap_codec::imap_types::sequence::SequenceSet;
use vstd::prelude::*;

use crate::command::{
    command_fragments, dump, dumped, encode_fetch, fresh_tag, is_tag_text, item_names, item_set,
    sequence_of, single_message, tag_text, CommandView, ItemName,
};
use crate::coroutine::{arg_view, ImapCoroutine, ImapCoroutineState};
use crate::framing::{announced, decimal_value, framing, is_digit, skip_message, Framing};
use crate::outcome::{FailureView, Refusal};
use crate::rfc3501::lines::{
    announcement_is_found, ending_view, is_idle, is_line, next_event, scan,
    scan_can_be_split, take_front, LineEvent, LineEventView,
};

verus! {

/// Failure causes during the IMAP batched FETCH body-stream flow.
#[derive(Clone, Debug)]
pub enum ImapMessageFetchStreamBatchError {
    /// The server rejected the command with a NO response.
    No(String),
    /// The server rejected the command with a BAD response.
    Bad(String),
    /// The server closed the connection with a BYE response.
    Bye(String),
    /// The stream ended before the tagged response.
    MissingTagged,
    /// The stream ended before the declared body length.
    ShortBody,
    /// A body's FETCH line carried no parseable `UID`, so the body could
    /// not be attributed to a message. The caller should fall back to
    /// per-message fetches rather than risk misrouting.
    UidMissing,
}

impl View for ImapMessageFetchStreamBatchError {
    type V = FailureView;

    open spec fn view(&self) -> FailureView {
        match *self {
            ImapMessageFetchStreamBatchError::No(text) => FailureView::No(text@),
            ImapMessageFetchStreamBatchError::Bad(text) => FailureView::Bad(text@),
            ImapMessageFetchStreamBatchError::Bye(text) => FailureView::Bye(text@),
            ImapMessageFetchStreamBatchError::MissingTagged => FailureView::MissingTagged,
            ImapMessageFetchStreamBatchError::ShortBody => FailureView::ShortBody,
            ImapMessageFetchStreamBatchError::UidMissing => FailureView::UidMissing,
        }
    }
}

/// Yield variants from the batched FETCH body-stream coroutine.
#[derive(Debug)]
pub enum ImapMessageFetchStreamBatchYield {
    /// The caller reads from its stream and resumes with the bytes.
    WantsRead,
    /// The caller writes the given bytes to its stream and resumes.
    WantsWrite(Vec<u8>),
    /// A new message's body is beginning; the caller opens a sink for
    /// `uid`. The following `BodyChunk` / `WantsStream` octets belong to
    /// it, until `MessageEnd`.
    MessageStart {
        /// The message's UID, parsed from its FETCH line.
        uid: u32,
    },
    /// Body octets the coroutine already read past the header line; the
    /// caller writes them to the current message's sink.
    BodyChunk(Vec<u8>),
    /// Read exactly `len` octets off the socket straight into the current
    /// message's sink; resume with `None` on success or `Some(&[])` if
    /// the socket ran short.
    WantsStream {
        /// Number of body octets left to stream for the current message.
        len: u32,
    },
    /// The current message's body is complete; the caller commits its
    /// sink.
    MessageEnd,
}

/// Model of [`ImapMessageFetchStreamBatchYield`].
pub enum BatchYieldView {
    WantsRead,
    WantsWrite(Seq<u8>),
    MessageStart { uid: u32 },
    BodyChunk(Seq<u8>),
    WantsStream { len: u32 },
    MessageEnd,
}

impl View for ImapMessageFetchStreamBatchYield {
    type V = BatchYieldView;

    open spec fn view(&self) -> BatchYieldView {
        match *self {
            ImapMessageFetchStreamBatchYield::WantsRead => BatchYieldView::WantsRead,
            ImapMessageFetchStreamBatchYield::WantsWrite(bytes) => BatchYieldView::WantsWrite(
                bytes@,
            ),
            ImapMessageFetchStreamBatchYield::MessageStart { uid } => BatchYieldView::MessageStart {
                uid,
            },
            ImapMessageFetchStreamBatchYield::BodyChunk(bytes) => BatchYieldView::BodyChunk(bytes@),
            ImapMessageFetchStreamBatchYield::WantsStream { len } => BatchYieldView::WantsStream {
                len,
            },
            ImapMessageFetchStreamBatchYield::MessageEnd => BatchYieldView::MessageEnd,
        }
    }
}

pub open spec fn is_alphanumeric(b: u8) -> bool {
    is_digit(b) || 0x41 <= b <= 0x5a || 0x61 <= b <= 0x7a
}

/// How many spaces `s` begins with.
pub open spec fn leading_spaces(s: Seq<u8>) -> nat
    decreases s.len(),
{
    if s.len() > 0 && s[0] == 0x20 {
        1 + leading_spaces(s.skip(1))
    } else {
        0
    }
}

/// How many digits `s` begins with.
pub open spec fn leading_digits(s: Seq<u8>) -> nat
    decreases s.len(),
{
    if s.len() > 0 && is_digit(s[0]) {
        1 + leading_digits(s.skip(1))
    } else {
        0
    }
}

/// The word `UID`, in any case.
pub open spec fn is_uid_word(line: Seq<u8>, i: int) -> bool {
    &&& 0 <= i
    &&& i + 3 <= line.len()
    &&& line[i] == 0x55 || line[i] == 0x75
    &&& line[i + 1] == 0x49 || line[i + 1] == 0x69
    &&& line[i + 2] == 0x44 || line[i + 2] == 0x64
}

/// What follows the word at `i` and the spaces after it.
pub open spec fn after_spaces(line: Seq<u8>, i: int) -> Seq<u8> {
    let rest = line.skip(i + 3);
    rest.skip(leading_spaces(rest) as int)
}

/// The word `UID` that begins a word and is followed by spaces and
/// digits.
pub open spec fn is_uid_token(line: Seq<u8>, i: int) -> bool {
    &&& is_uid_word(line, i)
    &&& i == 0 || !is_alphanumeric(line[i - 1])
    &&& leading_spaces(line.skip(i + 3)) > 0
    &&& leading_digits(after_spaces(line, i)) > 0
}

pub open spec fn is_first_uid_token(line: Seq<u8>, i: int) -> bool {
    is_uid_token(line, i) && forall|k: int| 0 <= k < i ==> !is_uid_token(line, k)
}

/// The number that decimal digits stand for, when it is a `u32`.
pub open spec fn number_of(digits: Seq<u8>) -> Option<u32> {
    if decimal_value(digits) <= u32::MAX {
        Some(decimal_value(digits) as u32)
    } else {
        None
    }
}

/// The value of the first UID token of a line.
pub open spec fn parsed_uid(line: Seq<u8>) -> Option<u32> {
    if exists|i: int| is_first_uid_token(line, i) {
        let i = choose|i: int| is_first_uid_token(line, i);
        let text = after_spaces(line, i);
        number_of(text.take(leading_digits(text) as int))
    } else {
        None
    }
}

/// The position after the spaces at `start`.
fn skip_spaces(line: &[u8], start: usize) -> (end: usize)
    requires
        start <= line@.len(),
    ensures
        start <= end <= line@.len(),
        end - start == leading_spaces(line@.skip(start as int)),
{
    let mut end: usize = start;
    while end < line.len() && line[end] == 0x20
        invariant
            start <= end <= line@.len(),
            leading_spaces(line@.skip(start as int)) == end - start + leading_spaces(
                line@.skip(end as int),
            ),
        decreases line@.len() - end,
    {
        assert(line@.skip(end as int).skip(1) =~= line@.skip(end + 1));
        end = end + 1;
    }
    end
}

/// The position after the digits at `start`.
fn skip_digits(line: &[u8], start: usize) -> (end: usize)
    requires
        start <= line@.len(),
    ensures
        start <= end <= line@.len(),
        end - start == leading_digits(line@.skip(start as int)),
        forall|i: int| start <= i < end ==> is_digit(#[trigger] line@[i]),
{
    let mut end: usize = start;
    while end < line.len() && 0x30 <= line[end] && line[end] <= 0x39
        invariant
            start <= end <= line@.len(),
            leading_digits(line@.skip(start as int)) == end - start + leading_digits(
                line@.skip(end as int),
            ),
            forall|i: int| start <= i < end ==> is_digit(#[trigger] line@[i]),
        decreases line@.len() - end,
    {
        assert(line@.skip(end as int).skip(1) =~= line@.skip(end + 1));
        end = end + 1;
    }
    end
}

proof fn lemma_decimal_value_grows(digits: Seq<u8>, count: int)
    requires
        0 <= count <= digits.len(),
        forall|i: int| 0 <= i < digits.len() ==> is_digit(#[trigger] digits[i]),
    ensures
        decimal_value(digits.take(count)) <= decimal_value(digits),
    decreases digits.len() - count,
{
    if count < digits.len() {
        lemma_decimal_value_grows(digits, count + 1);
        assert(digits.take(count + 1).drop_last() =~= digits.take(count));
    } else {
        assert(digits.take(count) =~= digits);
    }
}

/// The number that the digits `line[start..end]` stand for, when it is a
/// `u32`.
fn parse_number(line: &[u8], start: usize, end: usize) -> (number: Option<u32>)
    requires
        start <= end <= line@.len(),
        forall|i: int| start <= i < end ==> is_digit(#[trigger] line@[i]),
    ensures
        number == number_of(line@.subrange(start as int, end as int)),
{
    let ghost digits = line@.subrange(start as int, end as int);
    let mut value: u32 = 0;
    let mut index: usize = start;
    assert(digits.take(0) =~= Seq::empty());
    while index < end
        invariant
            start <= index <= end <= line@.len(),
            digits == line@.subrange(start as int, end as int),
            forall|i: int| 0 <= i < digits.len() ==> is_digit(#[trigger] digits[i]),
            value == decimal_value(digits.take(index - start)),
        decreases end - index,
    {
        assert(digits[index - start] == line@[index as int]);
        let digit: u32 = (line[index] - 0x30) as u32;
        proof {
            let seen = digits.take(index - start + 1);
            assert(seen.drop_last() =~= digits.take(index - start));
            assert(seen.last() == line@[index as int]);
            lemma_decimal_value_grows(digits, index - start + 1);
        }
        if value > 429496729 || (value == 429496729 && digit > 5) {
            return None;
        }
        value = value * 10 + digit;
        index = index + 1;
    }
    assert(digits.take(end - start) =~= digits);
    Some(value)
}

/// Extracts the `UID` value from a FETCH response line, e.g.
/// `* 12 FETCH (UID 34 BODY[] {1234}`. Scans for a `UID` token
/// (word-boundary left, whitespace + digits right); `None` when absent or
/// unparseable.
pub fn parse_uid(line: &[u8]) -> (uid: Option<u32>)
    ensures
        uid == parsed_uid(line@),
{
    let mut i: usize = 0;
    while line.len() >= 3 && i <= line.len() - 3
        invariant
            forall|k: int| 0 <= k < i ==> !is_uid_token(line@, k),
        decreases line@.len() - i,
    {
        let is_uid = (line[i] == 0x55 || line[i] == 0x75) && (line[i + 1] == 0x49 || line[i + 1]
            == 0x69) && (line[i + 2] == 0x44 || line[i + 2] == 0x64);
        let boundary = i == 0 || !((0x30 <= line[i - 1] && line[i - 1] <= 0x39) || (0x41 <= line[i
            - 1] && line[i - 1] <= 0x5a) || (0x61 <= line[i - 1] && line[i - 1] <= 0x7a));
        if is_uid && boundary {
            let start: usize = skip_spaces(line, i + 3);
            let end: usize = skip_digits(line, start);
            proof {
                let rest = line@.skip(i + 3);
                assert(rest.skip(leading_spaces(rest) as int) =~= line@.skip(start as int));
                let text = after_spaces(line@, i as int);
                assert(text.take(end - start) =~= line@.subrange(start as int, end as int));
            }
            if start > i + 3 && end > start {
                proof {
                    assert(is_first_uid_token(line@, i as int));
                    let first = choose|k: int| is_first_uid_token(line@, k);
                    assert(is_first_uid_token(line@, first));
                    assert(first == i);
                }
                return parse_number(line, start, end);
            }
        }
        i = i + 1;
    }
    assert(forall|k: int| !is_first_uid_token(line@, k));
    None
}

/// Where the coroutine stands.
pub enum BatchPhase {
    /// The command is to be written.
    SendCommand(Seq<u8>),
    /// Lines are read up to the next body or the completion.
    NextItem,
    /// A body is handed over.
    Stream,
}

/// State of [`ImapMessageFetchStreamBatch`].
pub struct BatchState {
    pub phase: BatchPhase,
    /// Bytes that were read and not used yet.
    pub pending: Seq<u8>,
    /// Octets of the current body that were not handed over yet.
    pub remaining: u32,
    /// Whether the driver was asked for the rest of the body.
    pub stream_pending: bool,
}

/// One step of [`ImapMessageFetchStreamBatch`].
pub struct BatchStep {
    pub state: BatchState,
    pub framing: Framing,
    pub result: ImapCoroutineState<BatchYieldView, Result<(), FailureView>>,
}

impl BatchState {
    /// Ready to write `command`.
    pub open spec fn start(command: Seq<u8>) -> BatchState {
        BatchState {
            phase: BatchPhase::SendCommand(command),
            pending: Seq::empty(),
            remaining: 0,
            stream_pending: false,
        }
    }

    /// The driver can only be asked for the rest of a body when nothing of
    /// it is at hand.
    pub open spec fn is_valid(self) -> bool {
        self.stream_pending ==> self.phase is Stream && self.remaining > 0 && self.pending.len()
            == 0
    }

    pub open spec fn yields(self, framing: Framing, y: BatchYieldView) -> BatchStep {
        BatchStep { state: self, framing, result: ImapCoroutineState::Yielded(y) }
    }

    pub open spec fn ends(self, framing: Framing, result: Result<(), FailureView>) -> BatchStep {
        BatchStep { state: self, framing, result: ImapCoroutineState::Complete(result) }
    }

    /// The state with the bytes just read.
    pub open spec fn fed(self, arg: Option<Seq<u8>>) -> BatchState {
        match arg {
            Some(bytes) => BatchState { pending: self.pending + bytes, ..self },
            None => self,
        }
    }

    /// Reads lines up to the next body or the completion.
    pub open spec fn next_item(self, framing: Framing, arg: Option<Seq<u8>>) -> BatchStep {
        if arg is Some && arg->0.len() == 0 {
            self.ends(framing, Err(FailureView::MissingTagged))
        } else {
            let found = scan(self.fed(arg).pending, framing);
            let state = BatchState { pending: found.pending, ..self };
            match found.event {
                LineEventView::Starved => state.yields(found.framing, BatchYieldView::WantsRead),
                LineEventView::Ended(result) => state.ends(found.framing, result),
                LineEventView::Announced { line, length } => match parsed_uid(line) {
                    Some(uid) => BatchState {
                        phase: BatchPhase::Stream,
                        remaining: length,
                        ..state
                    }.yields(found.framing, BatchYieldView::MessageStart { uid }),
                    None => state.ends(found.framing, Err(FailureView::UidMissing)),
                },
            }
        }
    }

    /// The body is complete: its literal is dropped.
    pub open spec fn end_message(self, framing: Framing) -> BatchStep {
        BatchState { phase: BatchPhase::NextItem, ..self }.yields(
            framing.restart(),
            BatchYieldView::MessageEnd,
        )
    }

    /// Hands a body over: first what was read already, then what the
    /// driver streams itself.
    pub open spec fn stream(self, framing: Framing, arg: Option<Seq<u8>>) -> BatchStep {
        if self.remaining == 0 {
            self.end_message(framing)
        } else if self.pending.len() > 0 {
            let count = if self.remaining <= self.pending.len() {
                self.remaining as int
            } else {
                self.pending.len() as int
            };
            BatchState {
                pending: self.pending.skip(count),
                remaining: (self.remaining - count) as u32,
                ..self
            }.yields(framing, BatchYieldView::BodyChunk(self.pending.take(count)))
        } else if !self.stream_pending {
            BatchState { stream_pending: true, ..self }.yields(
                framing,
                BatchYieldView::WantsStream { len: self.remaining },
            )
        } else if arg == Some(Seq::<u8>::empty()) {
            BatchState { stream_pending: false, ..self }.ends(framing, Err(FailureView::ShortBody))
        } else {
            BatchState { remaining: 0, stream_pending: false, ..self }.end_message(framing)
        }
    }

    pub open spec fn resume(self, framing: Framing, arg: Option<Seq<u8>>) -> BatchStep {
        match self.phase {
            BatchPhase::SendCommand(command) => BatchState {
                phase: BatchPhase::NextItem,
                ..self
            }.yields(framing, BatchYieldView::WantsWrite(command)),
            BatchPhase::NextItem => self.next_item(framing, arg),
            BatchPhase::Stream => self.stream(framing, arg),
        }
    }
}

pub open spec fn batch_result_view(
    result: ImapCoroutineState<
        ImapMessageFetchStreamBatchYield,
        Result<(), ImapMessageFetchStreamBatchError>,
    >,
) -> ImapCoroutineState<BatchYieldView, Result<(), FailureView>> {
    match result {
        ImapCoroutineState::Yielded(y) => ImapCoroutineState::Yielded(y@),
        ImapCoroutineState::Complete(Ok(_)) => ImapCoroutineState::Complete(Ok(())),
        ImapCoroutineState::Complete(Err(err)) => ImapCoroutineState::Complete(Err(err@)),
    }
}

/// The command that fetches UIDs and bodies, under some tag.
pub open spec fn is_batch_command(bytes: Seq<u8>, messages: SequenceSet, uid: bool) -> bool {
    exists|tag: imap_types::core::Tag<'static>| #[trigger]
        is_tag_text(tag_text(tag)) && bytes == dumped(
            command_fragments(
                tag,
                CommandView::Fetch {
                    messages,
                    items: item_set(seq![ItemName::Uid, ItemName::BodyPeek]),
                    uid,
                    modifiers: Seq::empty(),
                },
            ),
        )
}

/// A coroutine that starts out valid stays so.
pub proof fn validity_is_kept(state: BatchState, framing: Framing, arg: Option<Seq<u8>>)
    requires
        state.is_valid(),
    ensures
        state.resume(framing, arg).state.is_valid(),
{
}

/// Every octet of a body is handed over once, in order: first the ones
/// that were read already, then, all at once, the ones the driver streams
/// itself. Then the message ends. No octet reaches the parser buffer.
pub proof fn body_is_handed_over(state: BatchState, framing: Framing)
    requires
        state.phase is Stream,
        state.remaining > 0,
        !state.stream_pending,
    ensures
        ({
            let held = if state.remaining <= state.pending.len() {
                state.remaining as int
            } else {
                state.pending.len() as int
            };
            let first = state.resume(framing, None);
            let second = if held > 0 {
                first.state.resume(framing, None)
            } else {
                first
            };
            let last = if held < state.remaining {
                second.state.resume(framing, None)
            } else {
                second
            };
            &&& held > 0 ==> {
                &&& first.result == ImapCoroutineState::<_, Result<(), FailureView>>::Yielded(
                    BatchYieldView::BodyChunk(state.pending.take(held)),
                )
                &&& first.framing == framing
            }
            &&& held < state.remaining ==> {
                &&& second.result == ImapCoroutineState::<_, Result<(), FailureView>>::Yielded(
                    BatchYieldView::WantsStream { len: (state.remaining - held) as u32 },
                )
                &&& second.framing == framing
                &&& second.state.resume(framing, Some(Seq::empty())).result
                    == ImapCoroutineState::<BatchYieldView, _>::Complete(
                    Err::<(), _>(FailureView::ShortBody),
                )
            }
            &&& last.result == ImapCoroutineState::<_, Result<(), FailureView>>::Yielded(
                BatchYieldView::MessageEnd,
            )
            &&& last.framing == framing.restart()
            &&& last.state.phase is NextItem
            &&& last.state.pending == state.pending.skip(held)
        }),
{
    assert(state.pending.skip(0) =~= state.pending);
}

/// A body is attributed to the UID on the line that announces it,
/// whatever was asked for before and however much was read with it.
pub proof fn body_is_attributed(
    state: BatchState,
    framing: Framing,
    line: Seq<u8>,
    rest: Seq<u8>,
)
    requires
        state.phase is NextItem,
        state.pending.len() == 0,
        is_idle(framing),
        is_line(line),
        announced(line) is Some,
    ensures
        ({
            let step = state.resume(framing, Some(line + rest));
            match parsed_uid(line) {
                Some(uid) => {
                    &&& step.result == ImapCoroutineState::<_, Result<(), FailureView>>::Yielded(
                        BatchYieldView::MessageStart { uid },
                    )
                    &&& step.state.phase is Stream
                    &&& step.state.remaining == announced(line)->0
                    &&& step.state.pending == rest
                },
                None => step.result == ImapCoroutineState::<BatchYieldView, _>::Complete(
                    Err::<(), _>(FailureView::UidMissing),
                ),
            }
        }),
{
    announcement_is_found(line, rest, framing);
    assert(state.pending + (line + rest) =~= line + rest);
}

/// How a response is split into reads does not matter, up to the next
/// body and after it: what is read in two goes leads to the same step as
/// if it were read at once.
pub proof fn reads_can_be_split(
    state: BatchState,
    framing: Framing,
    first: Seq<u8>,
    second: Seq<u8>,
)
    requires
        state.phase is NextItem,
        first.len() > 0,
        second.len() > 0,
        state.resume(framing, Some(first)).result == ImapCoroutineState::<
            BatchYieldView,
            Result<(), FailureView>,
        >::Yielded(BatchYieldView::WantsRead),
    ensures
        ({
            let step = state.resume(framing, Some(first));
            step.state.resume(step.framing, Some(second)) == state.resume(
                framing,
                Some(first + second),
            )
        }),
{
    scan_can_be_split(state.pending + first, framing, second);
    assert(state.pending + first + second =~= state.pending + (first + second));
}

/// Where the coroutine stands.
enum State {
    SendCommand(Vec<u8>),
    NextItem,
    Stream,
}

/// I/O-free IMAP batched FETCH coroutine streaming many message bodies
/// from one command.
pub struct ImapMessageFetchStreamBatch {
    state: State,
    pending: Vec<u8>,
    remaining: u32,
    stream_pending: bool,
}

impl View for ImapMessageFetchStreamBatch {
    type V = BatchState;

    closed spec fn view(&self) -> BatchState {
        BatchState {
            phase: match self.state {
                State::SendCommand(command) => BatchPhase::SendCommand(command@),
                State::NextItem => BatchPhase::NextItem,
                State::Stream => BatchPhase::Stream,
            },
            pending: self.pending@,
            remaining: self.remaining,
            stream_pending: self.stream_pending,
        }
    }
}

impl ImapMessageFetchStreamBatch {
    /// Creates a coroutine streaming the `BODY.PEEK[]` of every message in
    /// `sequence_set`; when `uid` is `true`, sends `UID FETCH`.
    pub fn new(sequence_set: SequenceSet, uid: bool) -> (fetch: Self)
        ensures
            fetch@.phase matches BatchPhase::SendCommand(command) && is_batch_command(
                command,
                sequence_set,
                uid,
            ) && fetch@ == BatchState::start(command),
    {
        // UID first so it lands on the header line, ahead of the body
        // literal, and can be parsed before the body streams.
        let names: Vec<ItemName> = vec![ItemName::Uid, ItemName::BodyPeek];
        assert(names@ =~= seq![ItemName::Uid, ItemName::BodyPeek]);
        let modifiers = Vec::new();
        let encoded = encode_fetch(fresh_tag(), sequence_set, item_names(&names), uid, modifiers);
        let fetch = ImapMessageFetchStreamBatch {
            state: State::SendCommand(dump(encoded)),
            pending: Vec::new(),
            remaining: 0,
            stream_pending: false,
        };
        proof {
            assert(modifiers@ =~= Seq::empty());
            assert(fetch@.pending =~= Seq::empty());
        }
        fetch
    }

    /// A convenience over [`ImapMessageFetchStreamBatch::new`] taking a
    /// single UID.
    pub fn single(uid: u32) -> (fetch: Self)
        requires
            uid != 0,
        ensures
            fetch@.phase matches BatchPhase::SendCommand(command) && is_batch_command(
                command,
                single_message(uid),
                true,
            ) && fetch@ == BatchState::start(command),
    {
        Self::new(sequence_of(uid), true)
    }

    fn ended(result: Result<(), Refusal>) -> (ended: Result<(), ImapMessageFetchStreamBatchError>)
        ensures
            ending_view(result) == match ended {
                Ok(_) => Ok(()),
                Err(err) => Err(err@),
            },
    {
        match result {
            Ok(()) => Ok(()),
            Err(Refusal::No(text)) => Err(ImapMessageFetchStreamBatchError::No(text)),
            Err(Refusal::Bad(text)) => Err(ImapMessageFetchStreamBatchError::Bad(text)),
            Err(Refusal::Bye(text)) => Err(ImapMessageFetchStreamBatchError::Bye(text)),
            Err(Refusal::MissingTagged) => Err(ImapMessageFetchStreamBatchError::MissingTagged),
        }
    }
}

impl ImapCoroutine for ImapMessageFetchStreamBatch {
    type Yield = ImapMessageFetchStreamBatchYield;

    type Return = Result<(), ImapMessageFetchStreamBatchError>;

    fn resume(&mut self, fragmentizer: &mut Fragmentizer, arg: Option<&[u8]>) -> (result:
        ImapCoroutineState<
            ImapMessageFetchStreamBatchYield,
            Result<(), ImapMessageFetchStreamBatchError>,
        >)
        ensures
            old(self)@.resume(framing(*old(fragmentizer)), arg_view(arg)) == (BatchStep {
                state: final(self)@,
                framing: framing(*final(fragmentizer)),
                result: batch_result_view(result),
            }),
    {
        if let State::SendCommand(command) = &mut self.state {
            let mut bytes: Vec<u8> = Vec::new();
            std::mem::swap(&mut bytes, command);
            self.state = State::NextItem;
            return ImapCoroutineState::Yielded(
                ImapMessageFetchStreamBatchYield::WantsWrite(bytes),
            );
        }
        if let State::NextItem = self.state {
            if let Some(bytes) = arg {
                if bytes.len() == 0 {
                    let err = ImapMessageFetchStreamBatchError::MissingTagged;
                    return ImapCoroutineState::Complete(Err(err));
                }
                self.pending.extend_from_slice(bytes);
                assert(self.pending@ =~= old(self)@.pending + bytes@);
            }
            return match next_event(&mut self.pending, fragmentizer) {
                LineEvent::Starved => ImapCoroutineState::Yielded(
                    ImapMessageFetchStreamBatchYield::WantsRead,
                ),
                LineEvent::Ended(result) => ImapCoroutineState::Complete(Self::ended(result)),
                LineEvent::Announced { line, length } => match parse_uid(line.as_slice()) {
                    Some(uid) => {
                        self.remaining = length;
                        self.state = State::Stream;
                        ImapCoroutineState::Yielded(
                            ImapMessageFetchStreamBatchYield::MessageStart { uid },
                        )
                    },
                    None => ImapCoroutineState::Complete(
                        Err(ImapMessageFetchStreamBatchError::UidMissing),
                    ),
                },
            };
        }
        if self.remaining > 0 {
            if self.pending.len() > 0 {
                let count: usize = if self.remaining as usize <= self.pending.len() {
                    self.remaining as usize
                } else {
                    self.pending.len()
                };
                let chunk = take_front(&mut self.pending, count);
                self.remaining = self.remaining - count as u32;
                return ImapCoroutineState::Yielded(
                    ImapMessageFetchStreamBatchYield::BodyChunk(chunk),
                );
            }
            if !self.stream_pending {
                self.stream_pending = true;
                return ImapCoroutineState::Yielded(
                    ImapMessageFetchStreamBatchYield::WantsStream { len: self.remaining },
                );
            }
            self.stream_pending = false;
            if let Some(bytes) = arg {
                if bytes.len() == 0 {
                    assert(bytes@ =~= Seq::<u8>::empty());
                    let err = ImapMessageFetchStreamBatchError::ShortBody;
                    return ImapCoroutineState::Complete(Err(err));
                }
            }
            self.remaining = 0;
        }
        // Drop the bypassed literal, close the message, and resume line
        // parsing for the next item or the tagged status.
        skip_message(fragmentizer);
        self.state = State::NextItem;
        ImapCoroutineState::Yielded(ImapMessageFetchStreamBatchYield::MessageEnd)
    }
}

} // verus!
