//! IMAP APPEND coroutine streaming the message body and returning the
//! EXISTS count and APPENDUID pair.
//!
//! The body is never held whole: [`ImapMessageAppendStream::new`] takes
//! only the octet count (IMAP declares it up front in the literal), and
//! the coroutine yields [`ImapMessageAppendStreamYield::WantsStream`] so
//! the caller pumps the bytes straight from its own source to the socket.

use imap_codec::encode::Encoded;
use imap_codec::fragmentizer::Fragmentizer;
use imap_codec::imap_types;
use imap_codec::imap_types::mailbox::Mailbox;
use vstd::prelude::*;

use crate::command::{
    closes_with_empty_literal, command_fragments, crlf, dumped, empty_literal, encode_append_empty,
    encoded_fragments, fresh_tag, is_tag_text, next_fragment, tag_text, CommandFragment,
    CommandView, FragmentView,
};
use crate::coroutine::{arg_view, ImapCoroutine, ImapCoroutineState, ImapYield, YieldView};
use crate::framing::{
    announced, decimal_value, framing, is_digit, strip_last, trailing_digits, Framing,
};
use crate::outcome::{judge, last_of, verdict, FailureView, Refusal};
use crate::response::{DataView, ServerData, StatusKind};
use crate::rfc3501::append::{ImapMessageAppendOptions, ImapMessageAppendOutput};
use crate::rfc3501::mailbox::{encode_inplace, wire_form};
use crate::rfc4315::appenduid::{append_uid, append_uid_from_code};
use crate::send::{data_views, ImapSend, ImapSendError, ImapSendOutput, OutputView, SendState};

verus! {

/// Failure causes during the IMAP APPEND streaming flow.
#[derive(Clone, Debug)]
pub enum ImapMessageAppendStreamError {
    /// The server rejected the command with a NO response.
    No(String),
    /// The server rejected the command with a BAD response.
    Bad(String),
    /// The server closed the connection with a BYE response.
    Bye(String),
    /// The server never answered with a tagged response.
    MissingTagged,
    /// The message source delivered fewer octets than the declared
    /// literal length.
    ShortMessage,
    /// The underlying exchange failed.
    Send(ImapSendError),
}

impl View for ImapMessageAppendStreamError {
    type V = FailureView;

    open spec fn view(&self) -> FailureView {
        match *self {
            ImapMessageAppendStreamError::No(text) => FailureView::No(text@),
            ImapMessageAppendStreamError::Bad(text) => FailureView::Bad(text@),
            ImapMessageAppendStreamError::Bye(text) => FailureView::Bye(text@),
            ImapMessageAppendStreamError::MissingTagged => FailureView::MissingTagged,
            ImapMessageAppendStreamError::ShortMessage => FailureView::ShortMessage,
            ImapMessageAppendStreamError::Send(err) => FailureView::Send(err@),
        }
    }
}

/// Yield variants from the streaming APPEND coroutine.
#[derive(Debug)]
pub enum ImapMessageAppendStreamYield {
    /// The caller reads from its stream and resumes with the bytes.
    WantsRead,
    /// The caller writes the given bytes to its stream and resumes.
    WantsWrite(Vec<u8>),
    /// Stream exactly the declared message octets to the server, then
    /// resume with `None` on success or `Some(&[])` if the source ran
    /// short.
    WantsStream,
}

/// Model of [`ImapMessageAppendStreamYield`].
pub enum AppendYieldView {
    WantsRead,
    WantsWrite(Seq<u8>),
    WantsStream,
}

impl View for ImapMessageAppendStreamYield {
    type V = AppendYieldView;

    open spec fn view(&self) -> AppendYieldView {
        match *self {
            ImapMessageAppendStreamYield::WantsRead => AppendYieldView::WantsRead,
            ImapMessageAppendStreamYield::WantsWrite(bytes) => AppendYieldView::WantsWrite(bytes@),
            ImapMessageAppendStreamYield::WantsStream => AppendYieldView::WantsStream,
        }
    }
}

impl vstd::std_specs::convert::FromSpecImpl<ImapYield> for ImapMessageAppendStreamYield {
    open spec fn obeys_from_spec() -> bool {
        true
    }

    open spec fn from_spec(y: ImapYield) -> Self {
        match y {
            ImapYield::WantsRead => ImapMessageAppendStreamYield::WantsRead,
            ImapYield::WantsWrite(bytes) => ImapMessageAppendStreamYield::WantsWrite(bytes),
        }
    }
}

impl From<ImapYield> for ImapMessageAppendStreamYield {
    fn from(y: ImapYield) -> Self {
        match y {
            ImapYield::WantsRead => ImapMessageAppendStreamYield::WantsRead,
            ImapYield::WantsWrite(bytes) => ImapMessageAppendStreamYield::WantsWrite(bytes),
        }
    }
}

/// What is handed on of the exchange below.
pub open spec fn handed_on(y: YieldView) -> AppendYieldView {
    match y {
        YieldView::WantsRead => AppendYieldView::WantsRead,
        YieldView::WantsWrite(bytes) => AppendYieldView::WantsWrite(bytes),
    }
}

/// A number in decimal digits.
pub open spec fn decimal_text(n: nat) -> Seq<u8>
    decreases n,
{
    if n < 10 {
        seq![(0x30 + n) as u8]
    } else {
        decimal_text(n / 10).push((0x30 + n % 10) as u8)
    }
}

/// The announcement of a literal of `len` octets, with its CRLF.
pub open spec fn literal_header(len: u32, non_sync: bool) -> Seq<u8> {
    let plus = if non_sync {
        seq![0x2bu8]
    } else {
        Seq::empty()
    };
    seq![0x7bu8] + decimal_text(len as nat) + plus + seq![0x7du8] + crlf()
}

/// What precedes the message on the wire, for the fragments of an APPEND
/// with an empty literal: everything up to the announcement, which is
/// made out for `len` octets.
pub open spec fn append_header(fragments: Seq<FragmentView>, len: u32, non_sync: bool) -> Seq<u8> {
    let head = dumped(fragments.take(fragments.len() - 2));
    head.take(head.len() - empty_literal().len()) + literal_header(len, non_sync)
}

/// The count of the last EXISTS response.
pub open spec fn last_exists(data: Seq<DataView>) -> Option<u32> {
    last_of(
        data,
        |item: DataView|
            match item {
                DataView::Exists(count) => Some(count),
                _ => None,
            },
    )
}

/// What the answer to APPEND amounts to.
pub open spec fn append_outcome(output: OutputView) -> Result<
    (Option<u32>, Option<(u32, u32)>),
    FailureView,
> {
    match verdict(output) {
        Ok(status) => Ok((last_exists(output.data), append_uid(status.code))),
        Err(err) => Err(err),
    }
}

/// Why the server does not go on after the header: it says BYE, or
/// completes the command before it was sent.
pub open spec fn refused_up_front(output: OutputView) -> Option<FailureView> {
    match output.bye {
        Some(text) => Some(FailureView::Bye(text)),
        None => match output.tagged {
            Some(status) => Some(
                match status.kind {
                    StatusKind::No => FailureView::No(status.text),
                    _ => FailureView::Bad(status.text),
                },
            ),
            None => None,
        },
    }
}

/// Where the coroutine stands.
pub enum AppendPhase {
    /// The header is to be written.
    WriteHeader(Seq<u8>),
    /// The server has to ask for the message.
    Continuation(SendState),
    /// The message is streamed.
    Stream,
    /// The response is awaited.
    Recv(SendState),
}

/// State of [`ImapMessageAppendStream`].
pub struct AppendState {
    pub phase: AppendPhase,
    /// Whether the message follows the header at once.
    pub non_sync: bool,
    /// Whether the caller was asked for the message.
    pub stream_pending: bool,
}

/// What a step of [`ImapMessageAppendStream`] returns.
pub type AppendResult = ImapCoroutineState<
    AppendYieldView,
    Result<(Option<u32>, Option<(u32, u32)>), FailureView>,
>;

/// One step of [`ImapMessageAppendStream`].
pub struct AppendStep {
    pub state: AppendState,
    pub framing: Framing,
    pub result: AppendResult,
}

impl AppendState {
    /// Ready to write `header`.
    pub open spec fn start(header: Seq<u8>, non_sync: bool) -> AppendState {
        AppendState { phase: AppendPhase::WriteHeader(header), non_sync, stream_pending: false }
    }

    /// The caller can only be asked for the message while it is streamed.
    pub open spec fn is_valid(self) -> bool {
        self.stream_pending ==> self.phase is Stream
    }

    pub open spec fn yields(self, framing: Framing, y: AppendYieldView) -> AppendStep {
        AppendStep { state: self, framing, result: ImapCoroutineState::Yielded(y) }
    }

    pub open spec fn fails(self, framing: Framing, err: FailureView) -> AppendStep {
        AppendStep { state: self, framing, result: ImapCoroutineState::Complete(Err(err)) }
    }

    /// Asks for the message, then ends the command.
    pub open spec fn stream(self, framing: Framing, arg: Option<Seq<u8>>) -> AppendStep {
        if !self.stream_pending {
            AppendState { stream_pending: true, ..self }.yields(
                framing,
                AppendYieldView::WantsStream,
            )
        } else if arg == Some(Seq::<u8>::empty()) {
            AppendState { stream_pending: false, ..self }.fails(framing, FailureView::ShortMessage)
        } else {
            AppendState {
                phase: AppendPhase::Recv(SendState::receive()),
                stream_pending: false,
                ..self
            }.yields(framing, AppendYieldView::WantsWrite(crlf()))
        }
    }

    pub open spec fn resume(self, framing: Framing, arg: Option<Seq<u8>>) -> AppendStep {
        match self.phase {
            AppendPhase::WriteHeader(header) => AppendState {
                phase: if self.non_sync {
                    AppendPhase::Stream
                } else {
                    AppendPhase::Continuation(SendState::receive())
                },
                ..self
            }.yields(framing, AppendYieldView::WantsWrite(header)),
            AppendPhase::Continuation(send) => {
                let inner = send.resume(framing, arg);
                let state = AppendState { phase: AppendPhase::Continuation(inner.state), ..self };
                match inner.result {
                    ImapCoroutineState::Yielded(y) => state.yields(inner.framing, handed_on(y)),
                    ImapCoroutineState::Complete(Err(err)) => state.fails(
                        inner.framing,
                        FailureView::Send(err),
                    ),
                    ImapCoroutineState::Complete(Ok(output)) => match refused_up_front(output) {
                        Some(err) => state.fails(inner.framing, err),
                        None => AppendState { phase: AppendPhase::Stream, ..self }.stream(
                            inner.framing,
                            arg,
                        ),
                    },
                }
            },
            AppendPhase::Stream => self.stream(framing, arg),
            AppendPhase::Recv(send) => {
                let inner = send.resume(framing, arg);
                let state = AppendState { phase: AppendPhase::Recv(inner.state), ..self };
                match inner.result {
                    ImapCoroutineState::Yielded(y) => state.yields(inner.framing, handed_on(y)),
                    ImapCoroutineState::Complete(Err(err)) => state.fails(
                        inner.framing,
                        FailureView::Send(err),
                    ),
                    ImapCoroutineState::Complete(Ok(output)) => AppendStep {
                        state,
                        framing: inner.framing,
                        result: ImapCoroutineState::Complete(append_outcome(output)),
                    },
                }
            },
        }
    }
}

/// A coroutine that starts out valid stays so.
pub proof fn validity_is_kept(state: AppendState, framing: Framing, arg: Option<Seq<u8>>)
    requires
        state.is_valid(),
    ensures
        state.resume(framing, arg).state.is_valid(),
{
}

/// How the answers are split into reads does not matter.
pub proof fn reads_can_be_split(
    state: AppendState,
    framing: Framing,
    first: Seq<u8>,
    second: Seq<u8>,
)
    requires
        first.len() > 0,
        second.len() > 0,
        state.resume(framing, Some(first)).result == ImapCoroutineState::<
            _,
            Result<(Option<u32>, Option<(u32, u32)>), FailureView>,
        >::Yielded(AppendYieldView::WantsRead),
    ensures
        ({
            let step = state.resume(framing, Some(first));
            step.state.resume(step.framing, Some(second)) == state.resume(
                framing,
                Some(first + second),
            )
        }),
{
    match state.phase {
        AppendPhase::Continuation(send) => {
            crate::send::reads_can_be_split(send, framing, first, second);
        },
        AppendPhase::Recv(send) => {
            crate::send::reads_can_be_split(send, framing, first, second);
        },
        _ => {},
    }
}

proof fn lemma_decimal_text(n: nat)
    ensures
        decimal_text(n).len() > 0,
        forall|i: int| 0 <= i < decimal_text(n).len() ==> is_digit(#[trigger] decimal_text(n)[i]),
        decimal_value(decimal_text(n)) == n,
    decreases n,
{
    if n < 10 {
        let text = decimal_text(n);
        assert(text.drop_last() =~= Seq::empty());
        assert(decimal_value(text.drop_last()) == 0);
    } else {
        lemma_decimal_text(n / 10);
        let text = decimal_text(n);
        assert(text.drop_last() =~= decimal_text(n / 10));
        assert(text.last() - 0x30 == n % 10);
    }
}

proof fn lemma_trailing_digits(prefix: Seq<u8>, digits: Seq<u8>)
    requires
        prefix.len() == 0 || !is_digit(prefix.last()),
        forall|i: int| 0 <= i < digits.len() ==> is_digit(#[trigger] digits[i]),
    ensures
        trailing_digits(prefix + digits) == digits.len(),
    decreases digits.len(),
{
    let all = prefix + digits;
    if digits.len() == 0 {
        assert(all =~= prefix);
    } else {
        assert(all.drop_last() =~= prefix + digits.drop_last());
        assert(all.last() == digits.last());
        lemma_trailing_digits(prefix, digits.drop_last());
    }
}

/// The CRLF that ends a line announces nothing.
proof fn lemma_line_ending(body: Seq<u8>)
    ensures
        strip_last(strip_last(body + crlf(), 0x0a), 0x0d) == body,
{
    let line = body + crlf();
    assert(line.last() == 0x0a);
    assert(line.drop_last() =~= body.push(0x0d));
    assert(body.push(0x0d).drop_last() =~= body);
}

/// The marks of an announcement, without what they surround.
proof fn lemma_marks(inner: Seq<u8>, non_sync: bool)
    requires
        inner.len() > 0,
        is_digit(inner.last()),
    ensures
        marked(inner, non_sync).last() == 0x7d,
        strip_last(marked(inner, non_sync).drop_last(), 0x2b) == inner,
{
    if non_sync {
        assert(marked(inner, non_sync).drop_last() =~= inner.push(0x2b));
        assert(inner.push(0x2b).drop_last() =~= inner);
    } else {
        assert(marked(inner, non_sync).drop_last() =~= inner);
    }
}

/// `inner` with the marks that end an announcement.
spec fn marked(inner: Seq<u8>, non_sync: bool) -> Seq<u8> {
    if non_sync {
        inner.push(0x2b).push(0x7d)
    } else {
        inner.push(0x7d)
    }
}

/// The number between the brackets is what is announced.
proof fn lemma_announced(before: Seq<u8>, digits: Seq<u8>, non_sync: bool)
    requires
        before.len() > 0,
        before.last() == 0x7b,
        digits.len() > 0,
        forall|i: int| 0 <= i < digits.len() ==> is_digit(#[trigger] digits[i]),
        decimal_value(digits) <= u32::MAX,
    ensures
        announced(marked(before + digits, non_sync) + crlf()) == Some(
            decimal_value(digits) as u32,
        ),
{
    let inner = before + digits;
    lemma_trailing_digits(before, digits);
    assert(inner.skip(inner.len() - digits.len()) =~= digits);
    assert(inner[inner.len() - digits.len() - 1] == before.last());
    assert(inner.last() == digits.last());
    lemma_marks(inner, non_sync);
    lemma_line_ending(marked(inner, non_sync));
}

/// The announcement of a literal, byte for byte.
proof fn lemma_literal_header(head: Seq<u8>, len: u32, non_sync: bool)
    ensures
        head + literal_header(len, non_sync) == marked(
            head.push(0x7b) + decimal_text(len as nat),
            non_sync,
        ) + crlf(),
{
    let digits = decimal_text(len as nat);
    let opened = seq![0x7bu8] + digits;
    assert(head + opened =~= head.push(0x7b) + digits);
    if non_sync {
        let plus = opened + seq![0x2bu8];
        let closed = plus + seq![0x7du8];
        assert(head + plus =~= (head + opened).push(0x2b));
        assert(head + closed =~= (head + plus).push(0x7d));
        assert(head + (closed + crlf()) =~= (head + closed) + crlf());
    } else {
        let plus = opened + Seq::<u8>::empty();
        let closed = plus + seq![0x7du8];
        assert(plus =~= opened);
        assert(head + closed =~= (head + opened).push(0x7d));
        assert(head + (closed + crlf()) =~= (head + closed) + crlf());
    }
}

/// The header announces exactly the octets that are to be streamed, to
/// whoever reads it.
pub proof fn header_announces_the_message(
    fragments: Seq<FragmentView>,
    len: u32,
    non_sync: bool,
)
    ensures
        announced(append_header(fragments, len, non_sync)) == Some(len),
{
    let head = dumped(fragments.take(fragments.len() - 2));
    let kept = head.take(head.len() - empty_literal().len());
    lemma_decimal_text(len as nat);
    lemma_announced(kept.push(0x7b), decimal_text(len as nat), non_sync);
    lemma_literal_header(kept, len, non_sync);
}

/// The message is asked for once. Then the command is ended with a CRLF
/// and its response awaited, unless the source ran short.
pub proof fn message_is_streamed_once(state: AppendState, framing: Framing)
    requires
        state.phase is Stream,
        !state.stream_pending,
    ensures
        ({
            let asked = state.resume(framing, None);
            let done = asked.state.resume(asked.framing, None);
            let short = asked.state.resume(asked.framing, Some(Seq::empty()));
            &&& asked.result == ImapCoroutineState::<
                _,
                Result<(Option<u32>, Option<(u32, u32)>), FailureView>,
            >::Yielded(AppendYieldView::WantsStream)
            &&& done.result == ImapCoroutineState::<
                _,
                Result<(Option<u32>, Option<(u32, u32)>), FailureView>,
            >::Yielded(AppendYieldView::WantsWrite(crlf()))
            &&& done.state.phase == AppendPhase::Recv(SendState::receive())
            &&& short.result == ImapCoroutineState::<AppendYieldView, _>::Complete(
                Err::<(Option<u32>, Option<(u32, u32)>), _>(FailureView::ShortMessage),
            )
        }),
{
}

pub open spec fn append_result_view(
    result: ImapCoroutineState<
        ImapMessageAppendStreamYield,
        Result<ImapMessageAppendOutput, ImapMessageAppendStreamError>,
    >,
) -> AppendResult {
    match result {
        ImapCoroutineState::Yielded(y) => ImapCoroutineState::Yielded(y@),
        ImapCoroutineState::Complete(Ok(output)) => ImapCoroutineState::Complete(Ok(output)),
        ImapCoroutineState::Complete(Err(err)) => ImapCoroutineState::Complete(Err(err@)),
    }
}

/// The header of an APPEND of `len` octets, under some tag.
pub open spec fn is_append_header(
    header: Seq<u8>,
    mailbox: Mailbox<'static>,
    len: u32,
    opts: ImapMessageAppendOptions,
) -> bool {
    exists|tag: imap_types::core::Tag<'static>| #[trigger]
        is_tag_text(tag_text(tag)) && {
            let fragments = command_fragments(
                tag,
                CommandView::AppendEmpty {
                    mailbox: wire_form(mailbox),
                    flags: opts.flags@,
                    date: opts.date,
                },
            );
            closes_with_empty_literal(fragments) && header == append_header(
                fragments,
                len,
                opts.non_sync,
            )
        }
}

/// Appends a number in decimal digits.
fn push_decimal(n: u32, out: &mut Vec<u8>)
    ensures
        final(out)@ == old(out)@ + decimal_text(n as nat),
    decreases n,
{
    if n >= 10 {
        push_decimal(n / 10, out);
    }
    out.push((0x30 + n % 10) as u8);
    assert(out@ =~= old(out)@ + decimal_text(n as nat));
}

pub open spec fn fragment_views(fragments: Seq<CommandFragment>) -> Seq<FragmentView> {
    fragments.map_values(|fragment: CommandFragment| fragment@)
}

/// The fragments of an encoded command.
fn fragments_of(encoded: Encoded) -> (fragments: Vec<CommandFragment>)
    ensures
        fragment_views(fragments@) == encoded_fragments(encoded),
{
    let ghost all = encoded_fragments(encoded);
    let mut encoded = encoded;
    let mut fragments: Vec<CommandFragment> = Vec::new();
    assert(fragment_views(fragments@) =~= all.take(0));
    assert(all.skip(0) =~= all);
    loop
        invariant_except_break
            fragments@.len() <= all.len(),
            encoded_fragments(encoded) == all.skip(fragments@.len() as int),
            fragment_views(fragments@) == all.take(fragments@.len() as int),
        ensures
            fragment_views(fragments@) == all,
        decreases all.len() - fragments@.len(),
    {
        let ghost count = fragments@.len() as int;
        match next_fragment(&mut encoded) {
            Some(fragment) => {
                fragments.push(fragment);
                assert(fragment_views(fragments@) =~= all.take(count + 1));
                assert(all.skip(count).skip(1) =~= all.skip(count + 1));
            },
            None => {
                assert(all.take(count) =~= all);
                break;
            },
        }
    }
    fragments
}

/// The request line for `len` octets: the message literal is the last
/// literal, and what precedes it is the header, in which the announcement
/// of the empty literal gives way to that of the message.
fn header_of(fragments: Vec<CommandFragment>, len: u32, non_sync: bool) -> (header: Vec<u8>)
    requires
        closes_with_empty_literal(fragment_views(fragments@)),
    ensures
        header@ == append_header(fragment_views(fragments@), len, non_sync),
{
    let ghost views = fragment_views(fragments@);
    let last: usize = fragments.len() - 2;
    let mut header: Vec<u8> = Vec::new();
    let mut fragments = fragments;
    fragments.truncate(last);
    let ghost heads = views.take(last as int);
    assert(fragment_views(fragments@) =~= heads);
    assert(heads.take(0) =~= Seq::empty());
    for fragment in it: fragments
        invariant
            it.seq() == fragments@,
            heads == fragment_views(fragments@),
            header@ == dumped(heads.take(it.index())),
    {
        proof {
            let seen = heads.take(it.index() + 1);
            assert(seen.drop_last() =~= heads.take(it.index()));
            assert(seen.last() == fragment@);
        }
        match fragment {
            CommandFragment::Line(data) => {
                let mut data = data;
                header.append(&mut data);
            },
            // A mailbox literal (rare) precedes the message one and
            // belongs inline in the header.
            CommandFragment::Literal { data, .. } => {
                let mut data = data;
                header.append(&mut data);
            },
        }
    }
    proof {
        assert(heads.take(heads.len() as int) =~= heads);
        // The last line of the header ends with the announcement.
        assert(heads.last() == views[views.len() - 3]);
        assert(header@.len() >= empty_literal().len());
    }
    let ghost head = header@;
    header.truncate(header.len() - 6);
    header.push(0x7b);
    push_decimal(len, &mut header);
    if non_sync {
        header.push(0x2b);
    }
    header.push(0x7d);
    header.push(0x0d);
    header.push(0x0a);
    proof {
        assert(views.take(views.len() - 2) =~= heads);
        assert(header@ =~= append_header(views, len, non_sync));
    }
    header
}

/// Where the coroutine stands.
enum State {
    WriteHeader(Vec<u8>),
    Continuation(ImapSend),
    Stream,
    Recv(ImapSend),
}

/// I/O-free IMAP APPEND coroutine streaming the message body.
pub struct ImapMessageAppendStream {
    state: State,
    non_sync: bool,
    stream_pending: bool,
}

impl View for ImapMessageAppendStream {
    type V = AppendState;

    closed spec fn view(&self) -> AppendState {
        AppendState {
            phase: match self.state {
                State::WriteHeader(header) => AppendPhase::WriteHeader(header@),
                State::Continuation(send) => AppendPhase::Continuation(send@),
                State::Stream => AppendPhase::Stream,
                State::Recv(send) => AppendPhase::Recv(send@),
            },
            non_sync: self.non_sync,
            stream_pending: self.stream_pending,
        }
    }
}

impl ImapMessageAppendStream {
    /// Creates a coroutine appending a `len`-octet message to `mailbox`,
    /// under a fresh tag.
    ///
    /// The body bytes never pass through the coroutine: it yields
    /// [`ImapMessageAppendStreamYield::WantsStream`] and the caller pumps
    /// exactly `len` octets from its own source to the socket.
    pub fn new(mailbox: Mailbox<'static>, len: u32, opts: ImapMessageAppendOptions) -> (append:
        Self)
        ensures
            append@.phase matches AppendPhase::WriteHeader(header) && is_append_header(
                header,
                mailbox,
                len,
                opts,
            ) && append@ == AppendState::start(header, opts.non_sync),
    {
        let mut mailbox = mailbox;
        encode_inplace(&mut mailbox);
        let tag = fresh_tag();
        let encoded = encode_append_empty(tag, mailbox, opts.flags, opts.date);
        let fragments = fragments_of(encoded);
        let header = header_of(fragments, len, opts.non_sync);
        ImapMessageAppendStream {
            state: State::WriteHeader(header),
            non_sync: opts.non_sync,
            stream_pending: false,
        }
    }

    fn refused(refusal: Refusal) -> (err: ImapMessageAppendStreamError)
        ensures
            err@ == refusal@,
    {
        match refusal {
            Refusal::No(text) => ImapMessageAppendStreamError::No(text),
            Refusal::Bad(text) => ImapMessageAppendStreamError::Bad(text),
            Refusal::Bye(text) => ImapMessageAppendStreamError::Bye(text),
            Refusal::MissingTagged => ImapMessageAppendStreamError::MissingTagged,
        }
    }

    /// Why the server does not go on after the header.
    pub fn refused_up_front(output: ImapSendOutput) -> (refusal: Option<ImapMessageAppendStreamError>)
        ensures
            refused_up_front(output@) == match refusal {
                Some(err) => Some(err@),
                None => None,
            },
    {
        if let Some(text) = output.bye {
            return Some(ImapMessageAppendStreamError::Bye(text));
        }
        match output.tagged {
            Some(status) => Some(
                match status.kind {
                    StatusKind::No => ImapMessageAppendStreamError::No(status.text),
                    _ => ImapMessageAppendStreamError::Bad(status.text),
                },
            ),
            None => None,
        }
    }

    /// What the answer to APPEND amounts to.
    pub fn finish(output: ImapSendOutput) -> (result: Result<
        ImapMessageAppendOutput,
        ImapMessageAppendStreamError,
    >)
        ensures
            append_outcome(output@) == match result {
                Ok(output) => Ok(output),
                Err(err) => Err(err@),
            },
    {
        let status = match judge(output.bye, output.tagged) {
            Ok(status) => status,
            Err(refusal) => {
                return Err(Self::refused(refusal));
            },
        };
        let ghost views = data_views(output.data@);
        let mut exists: Option<u32> = None;
        for data in it: output.data
            invariant
                it.seq() == output.data@,
                views == data_views(output.data@),
                exists == last_exists(views.take(it.index())),
        {
            proof {
                let seen = views.take(it.index() + 1);
                assert(seen.drop_last() =~= views.take(it.index()));
                assert(seen.last() == data@);
            }
            if let ServerData::Exists(count) = data {
                exists = Some(count);
            }
        }
        assert(views.take(views.len() as int) =~= views);
        Ok((exists, append_uid_from_code(&status.code)))
    }

    /// Asks for the message, then ends the command.
    fn stream(&mut self, arg: Option<&[u8]>) -> (result: ImapCoroutineState<
        ImapMessageAppendStreamYield,
        Result<ImapMessageAppendOutput, ImapMessageAppendStreamError>,
    >)
        requires
            old(self)@.phase is Stream,
        ensures
            forall|framing: Framing|
                old(self)@.stream(framing, arg_view(arg)) == (AppendStep {
                    state: final(self)@,
                    framing,
                    result: append_result_view(result),
                }),
    {
        if !self.stream_pending {
            self.stream_pending = true;
            return ImapCoroutineState::Yielded(ImapMessageAppendStreamYield::WantsStream);
        }
        self.stream_pending = false;
        if let Some(bytes) = arg {
            if bytes.len() == 0 {
                assert(bytes@ =~= Seq::<u8>::empty());
                return ImapCoroutineState::Complete(
                    Err(ImapMessageAppendStreamError::ShortMessage),
                );
            }
        }
        self.state = State::Recv(ImapSend::receive());
        let bytes: Vec<u8> = vec![0x0d, 0x0a];
        assert(bytes@ =~= crlf());
        ImapCoroutineState::Yielded(ImapMessageAppendStreamYield::WantsWrite(bytes))
    }
}

impl ImapCoroutine for ImapMessageAppendStream {
    type Yield = ImapMessageAppendStreamYield;

    type Return = Result<ImapMessageAppendOutput, ImapMessageAppendStreamError>;

    fn resume(&mut self, fragmentizer: &mut Fragmentizer, arg: Option<&[u8]>) -> (result:
        ImapCoroutineState<
            ImapMessageAppendStreamYield,
            Result<ImapMessageAppendOutput, ImapMessageAppendStreamError>,
        >)
        ensures
            old(self)@.resume(framing(*old(fragmentizer)), arg_view(arg)) == (AppendStep {
                state: final(self)@,
                framing: framing(*final(fragmentizer)),
                result: append_result_view(result),
            }),
    {
        match &mut self.state {
            State::WriteHeader(header) => {
                let mut bytes: Vec<u8> = Vec::new();
                std::mem::swap(&mut bytes, header);
                // Synchronising literals wait for the server `+` before
                // the body; non-synchronising ones stream straight away.
                if self.non_sync {
                    self.state = State::Stream;
                } else {
                    self.state = State::Continuation(ImapSend::receive());
                }
                ImapCoroutineState::Yielded(ImapMessageAppendStreamYield::WantsWrite(bytes))
            },
            State::Continuation(send) => match send.resume(fragmentizer, arg) {
                ImapCoroutineState::Yielded(y) => ImapCoroutineState::Yielded(
                    ImapMessageAppendStreamYield::from(y),
                ),
                ImapCoroutineState::Complete(Err(err)) => ImapCoroutineState::Complete(
                    Err(ImapMessageAppendStreamError::Send(err)),
                ),
                ImapCoroutineState::Complete(Ok(output)) => match Self::refused_up_front(output) {
                    Some(err) => ImapCoroutineState::Complete(Err(err)),
                    None => {
                        self.state = State::Stream;
                        self.stream(arg)
                    },
                },
            },
            State::Stream => self.stream(arg),
            State::Recv(send) => match send.resume(fragmentizer, arg) {
                ImapCoroutineState::Yielded(y) => ImapCoroutineState::Yielded(
                    ImapMessageAppendStreamYield::from(y),
                ),
                ImapCoroutineState::Complete(Err(err)) => ImapCoroutineState::Complete(
                    Err(ImapMessageAppendStreamError::Send(err)),
                ),
                ImapCoroutineState::Complete(Ok(output)) => ImapCoroutineState::Complete(
                    Self::finish(output),
                ),
            },
        }
    }
}

} // verus!
