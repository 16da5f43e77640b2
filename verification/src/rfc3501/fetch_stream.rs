//! IMAP FETCH body-stream coroutine: fetches one message body and streams
//! it straight to the caller's sink instead of buffering it whole.
//!
//! Targets a single sequence number or UID and requests `BODY.PEEK[]`
//! only (peek so syncing does not set `\Seen`). The body literal bypasses
//! the parser buffer entirely: the coroutine feeds it the framing lines
//! one at a time, hands the announced octets to the driver via
//! [`ImapMessageFetchStreamYield::BodyChunk`] /
//! [`ImapMessageFetchStreamYield::WantsStream`], then resumes line
//! parsing for the tagged response.

use imap_codec::fragmentizer::Fragmentizer;
use imap_codec::imap_types;
use vstd::prelude::*;

use crate::command::{
    command_fragments, dump, dumped, encode_fetch, fresh_tag, is_tag_text, item_names, item_set,
    sequence_of, single_message, tag_text, CommandView, ItemName,
};
use crate::coroutine::{arg_view, ImapCoroutine, ImapCoroutineState};
use crate::framing::{announced, framing, skip_message, Framing};
use crate::outcome::{FailureView, Refusal};
use crate::rfc3501::lines::{
    announcement_is_found, ending_view, is_idle, is_line, next_event, scan,
    scan_can_be_split, take_front, LineEvent, LineEventView,
};

verus! {

/// Failure causes during the IMAP FETCH body-stream flow.
#[derive(Clone, Debug)]
pub enum ImapMessageFetchStreamError {
    /// The server rejected the command with a NO response.
    No(String),
    /// The server rejected the command with a BAD response.
    Bad(String),
    /// The server closed the connection with a BYE response.
    Bye(String),
    /// The stream ended before the tagged response.
    MissingTagged,
    /// The stream ended before the declared body length.
    ShortBody,
    /// A literal was announced after the body.
    UnexpectedLiteral,
}

impl View for ImapMessageFetchStreamError {
    type V = FailureView;

    open spec fn view(&self) -> FailureView {
        match *self {
            ImapMessageFetchStreamError::No(text) => FailureView::No(text@),
            ImapMessageFetchStreamError::Bad(text) => FailureView::Bad(text@),
            ImapMessageFetchStreamError::Bye(text) => FailureView::Bye(text@),
            ImapMessageFetchStreamError::MissingTagged => FailureView::MissingTagged,
            ImapMessageFetchStreamError::ShortBody => FailureView::ShortBody,
            ImapMessageFetchStreamError::UnexpectedLiteral => FailureView::UnexpectedLiteral,
        }
    }
}

/// Yield variants from the FETCH body-stream coroutine.
#[derive(Debug)]
pub enum ImapMessageFetchStreamYield {
    /// The caller reads from its stream and resumes with the bytes.
    WantsRead,
    /// The caller writes the given bytes to its stream and resumes.
    WantsWrite(Vec<u8>),
    /// Body octets the coroutine already read past the header line; the
    /// driver writes them to its sink.
    BodyChunk(Vec<u8>),
    /// Read exactly `len` octets off the socket straight into the sink;
    /// resume with `None` on success or `Some(&[])` if the socket ran
    /// short.
    WantsStream { len: u32 },
}

/// Model of [`ImapMessageFetchStreamYield`].
pub enum FetchStreamYieldView {
    WantsRead,
    WantsWrite(Seq<u8>),
    BodyChunk(Seq<u8>),
    WantsStream { len: u32 },
}

impl View for ImapMessageFetchStreamYield {
    type V = FetchStreamYieldView;

    open spec fn view(&self) -> FetchStreamYieldView {
        match *self {
            ImapMessageFetchStreamYield::WantsRead => FetchStreamYieldView::WantsRead,
            ImapMessageFetchStreamYield::WantsWrite(bytes) => FetchStreamYieldView::WantsWrite(
                bytes@,
            ),
            ImapMessageFetchStreamYield::BodyChunk(bytes) => FetchStreamYieldView::BodyChunk(
                bytes@,
            ),
            ImapMessageFetchStreamYield::WantsStream { len } => FetchStreamYieldView::WantsStream {
                len,
            },
        }
    }
}

/// Where the coroutine stands.
pub enum FetchStreamPhase {
    /// The command is to be written.
    SendCommand(Seq<u8>),
    /// Lines are read up to the one that announces the body.
    Header,
    /// The body is handed over.
    Stream,
    /// Lines are read up to the completion.
    Trailer,
}

/// State of [`ImapMessageFetchStream`].
pub struct FetchStreamState {
    pub phase: FetchStreamPhase,
    /// Bytes that were read and not used yet.
    pub pending: Seq<u8>,
    /// Octets of the body that were not handed over yet.
    pub remaining: u32,
    /// Whether the driver was asked for the rest of the body.
    pub stream_pending: bool,
}

/// One step of [`ImapMessageFetchStream`].
pub struct FetchStreamStep {
    pub state: FetchStreamState,
    pub framing: Framing,
    pub result: ImapCoroutineState<FetchStreamYieldView, Result<(), FailureView>>,
}

impl FetchStreamState {
    /// Ready to write `command`.
    pub open spec fn start(command: Seq<u8>) -> FetchStreamState {
        FetchStreamState {
            phase: FetchStreamPhase::SendCommand(command),
            pending: Seq::empty(),
            remaining: 0,
            stream_pending: false,
        }
    }

    /// The driver can only be asked for the rest of a body when nothing of
    /// it is at hand.
    pub open spec fn is_valid(self) -> bool {
        self.stream_pending ==> self.phase is Stream && self.remaining > 0 && self.pending.len()
            == 0
    }

    pub open spec fn yields(self, framing: Framing, y: FetchStreamYieldView) -> FetchStreamStep {
        FetchStreamStep { state: self, framing, result: ImapCoroutineState::Yielded(y) }
    }

    pub open spec fn ends(
        self,
        framing: Framing,
        result: Result<(), FailureView>,
    ) -> FetchStreamStep {
        FetchStreamStep { state: self, framing, result: ImapCoroutineState::Complete(result) }
    }

    /// The state with the bytes just read.
    pub open spec fn fed(self, arg: Option<Seq<u8>>) -> FetchStreamState {
        match arg {
            Some(bytes) => FetchStreamState { pending: self.pending + bytes, ..self },
            None => self,
        }
    }

    /// Reads lines up to the one that announces the body.
    pub open spec fn header(self, framing: Framing, arg: Option<Seq<u8>>) -> FetchStreamStep {
        if arg is Some && arg->0.len() == 0 {
            self.ends(framing, Err(FailureView::MissingTagged))
        } else {
            let found = scan(self.fed(arg).pending, framing);
            let state = FetchStreamState { pending: found.pending, ..self };
            match found.event {
                LineEventView::Starved => state.yields(
                    found.framing,
                    FetchStreamYieldView::WantsRead,
                ),
                LineEventView::Ended(result) => state.ends(found.framing, result),
                LineEventView::Announced { length, .. } => FetchStreamState {
                    phase: FetchStreamPhase::Stream,
                    remaining: length,
                    ..state
                }.stream(found.framing, None),
            }
        }
    }

    /// Hands the body over: first what was read already, then what the
    /// driver streams itself.
    pub open spec fn stream(self, framing: Framing, arg: Option<Seq<u8>>) -> FetchStreamStep {
        if self.remaining == 0 {
            FetchStreamState { phase: FetchStreamPhase::Trailer, ..self }.trailer(
                framing.restart(),
                arg,
            )
        } else if self.pending.len() > 0 {
            let count = if self.remaining <= self.pending.len() {
                self.remaining as int
            } else {
                self.pending.len() as int
            };
            FetchStreamState {
                pending: self.pending.skip(count),
                remaining: (self.remaining - count) as u32,
                ..self
            }.yields(framing, FetchStreamYieldView::BodyChunk(self.pending.take(count)))
        } else if !self.stream_pending {
            FetchStreamState { stream_pending: true, ..self }.yields(
                framing,
                FetchStreamYieldView::WantsStream { len: self.remaining },
            )
        } else if arg == Some(Seq::<u8>::empty()) {
            FetchStreamState { stream_pending: false, ..self }.ends(
                framing,
                Err(FailureView::ShortBody),
            )
        } else {
            FetchStreamState {
                phase: FetchStreamPhase::Trailer,
                remaining: 0,
                stream_pending: false,
                ..self
            }.trailer(framing.restart(), None)
        }
    }

    /// Reads lines up to the completion.
    pub open spec fn trailer(self, framing: Framing, arg: Option<Seq<u8>>) -> FetchStreamStep {
        if arg is Some && arg->0.len() == 0 {
            self.ends(framing, Err(FailureView::MissingTagged))
        } else {
            let found = scan(self.fed(arg).pending, framing);
            let state = FetchStreamState { pending: found.pending, ..self };
            match found.event {
                LineEventView::Starved => state.yields(
                    found.framing,
                    FetchStreamYieldView::WantsRead,
                ),
                LineEventView::Ended(result) => state.ends(found.framing, result),
                LineEventView::Announced { .. } => state.ends(
                    found.framing,
                    Err(FailureView::UnexpectedLiteral),
                ),
            }
        }
    }

    pub open spec fn resume(self, framing: Framing, arg: Option<Seq<u8>>) -> FetchStreamStep {
        match self.phase {
            FetchStreamPhase::SendCommand(command) => FetchStreamState {
                phase: FetchStreamPhase::Header,
                ..self
            }.yields(framing, FetchStreamYieldView::WantsWrite(command)),
            FetchStreamPhase::Header => self.header(framing, arg),
            FetchStreamPhase::Stream => self.stream(framing, arg),
            FetchStreamPhase::Trailer => self.trailer(framing, arg),
        }
    }
}

pub open spec fn fetch_stream_result_view(
    result: ImapCoroutineState<
        ImapMessageFetchStreamYield,
        Result<(), ImapMessageFetchStreamError>,
    >,
) -> ImapCoroutineState<FetchStreamYieldView, Result<(), FailureView>> {
    match result {
        ImapCoroutineState::Yielded(y) => ImapCoroutineState::Yielded(y@),
        ImapCoroutineState::Complete(Ok(_)) => ImapCoroutineState::Complete(Ok(())),
        ImapCoroutineState::Complete(Err(err)) => ImapCoroutineState::Complete(Err(err@)),
    }
}

/// The command that fetches the body of one message, under some tag.
pub open spec fn is_body_command(bytes: Seq<u8>, id: u32, uid: bool) -> bool {
    exists|tag: imap_types::core::Tag<'static>| #[trigger]
        is_tag_text(tag_text(tag)) && bytes == dumped(
            command_fragments(
                tag,
                CommandView::Fetch {
                    messages: single_message(id),
                    items: item_set(seq![ItemName::BodyPeek]),
                    uid,
                    modifiers: Seq::empty(),
                },
            ),
        )
}

/// A coroutine that starts out valid stays so.
pub proof fn validity_is_kept(state: FetchStreamState, framing: Framing, arg: Option<Seq<u8>>)
    requires
        state.is_valid(),
    ensures
        state.resume(framing, arg).state.is_valid(),
{
}

/// Every octet of the body is handed over once, in order: first the ones
/// that were read already, then, all at once, the ones the driver streams
/// itself. None of them reaches the parser buffer.
pub proof fn body_is_handed_over(state: FetchStreamState, framing: Framing)
    requires
        state.phase is Stream,
        state.remaining > 0,
        !state.stream_pending,
    ensures
        ({
            let held = if state.remaining <= state.pending.len() {
                state.remaining as int
            } else {
                state.pending.len() as int
            };
            let first = state.resume(framing, None);
            let last = if held > 0 {
                first.state.resume(framing, None)
            } else {
                first
            };
            &&& held > 0 ==> {
                &&& first.result == ImapCoroutineState::<_, Result<(), FailureView>>::Yielded(
                    FetchStreamYieldView::BodyChunk(state.pending.take(held)),
                )
                &&& first.framing == framing
                &&& first.state.pending == state.pending.skip(held)
                &&& first.state.remaining == state.remaining - held
            }
            &&& held < state.remaining ==> {
                &&& last.result == ImapCoroutineState::<_, Result<(), FailureView>>::Yielded(
                    FetchStreamYieldView::WantsStream { len: (state.remaining - held) as u32 },
                )
                &&& last.framing == framing
                &&& last.state.resume(framing, Some(Seq::empty())).result
                    == ImapCoroutineState::<FetchStreamYieldView, _>::Complete(
                    Err::<(), _>(FailureView::ShortBody),
                )
            }
        }),
{
}

/// A body that is read together with the line that announces it is
/// handed over octet for octet, and what follows it is kept.
pub proof fn announced_body_is_found(
    state: FetchStreamState,
    framing: Framing,
    line: Seq<u8>,
    body: Seq<u8>,
    rest: Seq<u8>,
)
    requires
        state.phase is Header,
        state.pending.len() == 0,
        is_idle(framing),
        is_line(line),
        body.len() > 0,
        announced(line) == Some(body.len() as u32),
        body.len() <= u32::MAX,
    ensures
        ({
            let step = state.resume(framing, Some(line + body + rest));
            &&& step.result == ImapCoroutineState::<_, Result<(), FailureView>>::Yielded(
                FetchStreamYieldView::BodyChunk(body),
            )
            &&& step.state.pending == rest
            &&& step.state.remaining == 0
        }),
{
    announcement_is_found(line, body + rest, framing);
    let read = line + body + rest;
    assert(state.pending + read =~= line + (body + rest));
    assert((body + rest).take(body.len() as int) =~= body);
    assert((body + rest).skip(body.len() as int) =~= rest);
}

proof fn lemma_trailer_split(
    state: FetchStreamState,
    framing: Framing,
    arg: Option<Seq<u8>>,
    second: Seq<u8>,
)
    requires
        second.len() > 0,
        state.trailer(framing, arg).result == ImapCoroutineState::<
            FetchStreamYieldView,
            Result<(), FailureView>,
        >::Yielded(FetchStreamYieldView::WantsRead),
    ensures
        ({
            let step = state.trailer(framing, arg);
            step.state.trailer(step.framing, Some(second)) == state.fed(arg).trailer(
                framing,
                Some(second),
            )
        }),
{
    scan_can_be_split(state.fed(arg).pending, framing, second);
}

proof fn lemma_header_split(
    state: FetchStreamState,
    framing: Framing,
    first: Seq<u8>,
    second: Seq<u8>,
)
    requires
        !state.stream_pending,
        first.len() > 0,
        second.len() > 0,
        state.header(framing, Some(first)).result == ImapCoroutineState::<
            FetchStreamYieldView,
            Result<(), FailureView>,
        >::Yielded(FetchStreamYieldView::WantsRead),
        scan(state.pending + first, framing).event is Starved,
    ensures
        ({
            let step = state.header(framing, Some(first));
            step.state.header(step.framing, Some(second)) == state.header(
                framing,
                Some(first + second),
            )
        }),
{
    assert(state.pending + first + second =~= state.pending + (first + second));
    scan_can_be_split(state.pending + first, framing, second);
}

/// An empty body leads on to the trailer at once.
proof fn lemma_empty_body_split(
    state: FetchStreamState,
    framing: Framing,
    first: Seq<u8>,
    second: Seq<u8>,
)
    requires
        !state.stream_pending,
        first.len() > 0,
        second.len() > 0,
        state.header(framing, Some(first)).result == ImapCoroutineState::<
            FetchStreamYieldView,
            Result<(), FailureView>,
        >::Yielded(FetchStreamYieldView::WantsRead),
        scan(state.pending + first, framing).event is Announced,
    ensures
        ({
            let step = state.header(framing, Some(first));
            step.state.trailer(step.framing, Some(second)) == state.header(
                framing,
                Some(first + second),
            )
        }),
        state.header(framing, Some(first)).state.phase is Trailer,
{
    assert(state.pending + first + second =~= state.pending + (first + second));
    scan_can_be_split(state.pending + first, framing, second);
    let found = scan(state.pending + first, framing);
    let next = FetchStreamState {
        phase: FetchStreamPhase::Trailer,
        pending: found.pending,
        remaining: 0,
        ..state
    };
    let restarted = found.framing.restart();
    assert(state.header(framing, Some(first)) == next.trailer(restarted, None));
    lemma_trailer_split(next, restarted, None, second);
    assert(state.header(framing, Some(first + second)) == next.fed(Some(second)).trailer(
        restarted,
        None,
    ));
    assert(next.fed(Some(second)).trailer(restarted, None) == next.trailer(
        restarted,
        Some(second),
    ));
}

/// How a response is split into reads does not matter, up to the next
/// body and after it: what is read in two goes leads to the same step as
/// if it were read at once.
pub proof fn reads_can_be_split(
    state: FetchStreamState,
    framing: Framing,
    first: Seq<u8>,
    second: Seq<u8>,
)
    requires
        state.is_valid(),
        state.phase is Header || state.phase is Trailer,
        first.len() > 0,
        second.len() > 0,
        state.resume(framing, Some(first)).result == ImapCoroutineState::<
            FetchStreamYieldView,
            Result<(), FailureView>,
        >::Yielded(FetchStreamYieldView::WantsRead),
    ensures
        ({
            let step = state.resume(framing, Some(first));
            step.state.resume(step.framing, Some(second)) == state.resume(
                framing,
                Some(first + second),
            )
        }),
{
    if state.phase is Trailer {
        assert(state.pending + first + second =~= state.pending + (first + second));
        lemma_trailer_split(state, framing, Some(first), second);
    } else if scan(state.pending + first, framing).event is Starved {
        lemma_header_split(state, framing, first, second);
    } else {
        lemma_empty_body_split(state, framing, first, second);
    }
}

/// Where the coroutine stands.
enum State {
    SendCommand(Vec<u8>),
    Header,
    Stream,
    Trailer,
}

/// I/O-free IMAP FETCH coroutine streaming one message body.
pub struct ImapMessageFetchStream {
    state: State,
    pending: Vec<u8>,
    remaining: u32,
    stream_pending: bool,
}

impl View for ImapMessageFetchStream {
    type V = FetchStreamState;

    closed spec fn view(&self) -> FetchStreamState {
        FetchStreamState {
            phase: match self.state {
                State::SendCommand(command) => FetchStreamPhase::SendCommand(command@),
                State::Header => FetchStreamPhase::Header,
                State::Stream => FetchStreamPhase::Stream,
                State::Trailer => FetchStreamPhase::Trailer,
            },
            pending: self.pending@,
            remaining: self.remaining,
            stream_pending: self.stream_pending,
        }
    }
}

impl ImapMessageFetchStream {
    /// Creates a coroutine streaming the body of the message `id`, a UID
    /// when `uid`.
    pub fn new(id: u32, uid: bool) -> (fetch: Self)
        requires
            id != 0,
        ensures
            fetch@.phase matches FetchStreamPhase::SendCommand(command) && is_body_command(
                command,
                id,
                uid,
            ) && fetch@ == FetchStreamState::start(command),
    {
        let names: Vec<ItemName> = vec![ItemName::BodyPeek];
        assert(names@ =~= seq![ItemName::BodyPeek]);
        let modifiers = Vec::new();
        let tag = fresh_tag();
        let encoded = encode_fetch(tag, sequence_of(id), item_names(&names), uid, modifiers);
        let fetch = ImapMessageFetchStream {
            state: State::SendCommand(dump(encoded)),
            pending: Vec::new(),
            remaining: 0,
            stream_pending: false,
        };
        proof {
            assert(modifiers@ =~= Seq::empty());
            assert(fetch@.pending =~= Seq::empty());
        }
        fetch
    }

    /// Reads lines up to the next event.
    fn read_lines(&mut self, fragmentizer: &mut Fragmentizer, arg: Option<&[u8]>) -> (event:
        LineEvent)
        requires
            arg is Some ==> arg->0@.len() > 0,
        ensures
            ({
                let found = scan(
                    old(self)@.fed(arg_view(arg)).pending,
                    framing(*old(fragmentizer)),
                );
                &&& final(self)@ == (FetchStreamState { pending: found.pending, ..old(self)@ })
                &&& framing(*final(fragmentizer)) == found.framing
                &&& event@ == found.event
            }),
    {
        if let Some(bytes) = arg {
            self.pending.extend_from_slice(bytes);
            assert(self.pending@ =~= old(self)@.pending + bytes@);
        }
        next_event(&mut self.pending, fragmentizer)
    }

    fn ended(result: Result<(), Refusal>) -> (ended: Result<(), ImapMessageFetchStreamError>)
        ensures
            ending_view(result) == match ended {
                Ok(_) => Ok(()),
                Err(err) => Err(err@),
            },
    {
        match result {
            Ok(()) => Ok(()),
            Err(Refusal::No(text)) => Err(ImapMessageFetchStreamError::No(text)),
            Err(Refusal::Bad(text)) => Err(ImapMessageFetchStreamError::Bad(text)),
            Err(Refusal::Bye(text)) => Err(ImapMessageFetchStreamError::Bye(text)),
            Err(Refusal::MissingTagged) => Err(ImapMessageFetchStreamError::MissingTagged),
        }
    }
}

impl ImapCoroutine for ImapMessageFetchStream {
    type Yield = ImapMessageFetchStreamYield;

    type Return = Result<(), ImapMessageFetchStreamError>;

    fn resume(&mut self, fragmentizer: &mut Fragmentizer, arg: Option<&[u8]>) -> (result:
        ImapCoroutineState<ImapMessageFetchStreamYield, Result<(), ImapMessageFetchStreamError>>)
        ensures
            old(self)@.resume(framing(*old(fragmentizer)), arg_view(arg)) == (FetchStreamStep {
                state: final(self)@,
                framing: framing(*final(fragmentizer)),
                result: fetch_stream_result_view(result),
            }),
    {
        let mut arg = arg;
        if let State::SendCommand(command) = &mut self.state {
            let mut bytes: Vec<u8> = Vec::new();
            std::mem::swap(&mut bytes, command);
            self.state = State::Header;
            return ImapCoroutineState::Yielded(ImapMessageFetchStreamYield::WantsWrite(bytes));
        }
        if let State::Header = self.state {
            if let Some(bytes) = arg {
                if bytes.len() == 0 {
                    let err = ImapMessageFetchStreamError::MissingTagged;
                    return ImapCoroutineState::Complete(Err(err));
                }
            }
            match self.read_lines(fragmentizer, arg) {
                LineEvent::Starved => {
                    return ImapCoroutineState::Yielded(ImapMessageFetchStreamYield::WantsRead);
                },
                LineEvent::Ended(result) => {
                    return ImapCoroutineState::Complete(Self::ended(result));
                },
                LineEvent::Announced { length, .. } => {
                    self.remaining = length;
                    self.state = State::Stream;
                    arg = None;
                },
            }
        }
        if let State::Stream = self.state {
            if self.remaining > 0 {
                if self.pending.len() > 0 {
                    let count: usize = if self.remaining as usize <= self.pending.len() {
                        self.remaining as usize
                    } else {
                        self.pending.len()
                    };
                    let chunk = take_front(&mut self.pending, count);
                    self.remaining = self.remaining - count as u32;
                    return ImapCoroutineState::Yielded(
                        ImapMessageFetchStreamYield::BodyChunk(chunk),
                    );
                }
                if !self.stream_pending {
                    self.stream_pending = true;
                    return ImapCoroutineState::Yielded(
                        ImapMessageFetchStreamYield::WantsStream { len: self.remaining },
                    );
                }
                self.stream_pending = false;
                if let Some(bytes) = arg {
                    if bytes.len() == 0 {
                        assert(bytes@ =~= Seq::<u8>::empty());
                        let err = ImapMessageFetchStreamError::ShortBody;
                        return ImapCoroutineState::Complete(Err(err));
                    }
                }
                self.remaining = 0;
                arg = None;
            }
            // Drop the bypassed literal and resume line parsing for the
            // response trailer.
            skip_message(fragmentizer);
            self.state = State::Trailer;
        }
        if let Some(bytes) = arg {
            if bytes.len() == 0 {
                let err = ImapMessageFetchStreamError::MissingTagged;
                return ImapCoroutineState::Complete(Err(err));
            }
        }
        match self.read_lines(fragmentizer, arg) {
            LineEvent::Starved => ImapCoroutineState::Yielded(
                ImapMessageFetchStreamYield::WantsRead,
            ),
            LineEvent::Ended(result) => ImapCoroutineState::Complete(Self::ended(result)),
            LineEvent::Announced { .. } => ImapCoroutineState::Complete(
                Err(ImapMessageFetchStreamError::UnexpectedLiteral),
            ),
        }
    }
}

} // verus!
