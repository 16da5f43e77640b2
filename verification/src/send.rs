//! The exchange every command is made of: write the command, collect
//! the response.

use std::collections::VecDeque;

use imap_codec::encode::Encoded;
use imap_codec::fragmentizer::Fragmentizer;
use imap_codec::imap_types;
use imap_codec::imap_types::secret::Secret;
use vstd::prelude::*;

use crate::command::{
    bare_line, command_fragments, dumped, encoded_fragments, is_tag_text, next_fragment, tag_text,
    BareCommand, CommandFragment, CommandView, FragmentView,
};
use crate::coroutine::{arg_view, ImapCoroutine, ImapCoroutineState, ImapYield, YieldView};
use crate::framing::{
    enqueue_bytes, framing, is_message_complete, message_bytes, progress, Framing,
};
use crate::response::{
    decode_response, DataView, DecodeError, ResponseView, ServerData, ServerResponse, StatusBody,
    StatusView,
};

verus! {

/// What `imap_types::secret::Secret` conceals.
pub uninterp spec fn concealed(secret: Secret<Vec<u8>>) -> Seq<u8>;

/// `Secret::new`: conceals `bytes` from debug output.
#[verifier::external_body]
pub(crate) fn conceal(bytes: Vec<u8>) -> (secret: Secret<Vec<u8>>)
    ensures
        concealed(secret) == bytes@,
{
    Secret::new(bytes)
}

/// Cloning a `Secret` clones what it conceals; nothing is claimed of the
/// result.
pub assume_specification<T: Clone>[ <Secret<T> as Clone>::clone ](secret: &Secret<T>) -> Secret<T>;

/// Failure causes of [`ImapSend`].
#[derive(Clone, Debug)]
pub enum ImapSendError {
    /// The stream ended before the response did.
    Eof,
    /// A message is not a valid response.
    DecodingFailure(Secret<Vec<u8>>),
    /// A message was poisoned.
    MessageIsPoisoned(Secret<Vec<u8>>),
    /// A message exceeds the size limit.
    MessageTooLong(Secret<Vec<u8>>),
}

/// Model of [`ImapSendError`].
pub enum SendErrorView {
    Eof,
    DecodingFailure(Seq<u8>),
    MessageIsPoisoned(Seq<u8>),
    MessageTooLong(Seq<u8>),
}

impl View for ImapSendError {
    type V = SendErrorView;

    open spec fn view(&self) -> SendErrorView {
        match *self {
            ImapSendError::Eof => SendErrorView::Eof,
            ImapSendError::DecodingFailure(secret) => SendErrorView::DecodingFailure(
                concealed(secret),
            ),
            ImapSendError::MessageIsPoisoned(secret) => SendErrorView::MessageIsPoisoned(
                concealed(secret),
            ),
            ImapSendError::MessageTooLong(secret) => SendErrorView::MessageTooLong(
                concealed(secret),
            ),
        }
    }
}

/// Everything the server answered to one command.
#[derive(Debug)]
pub struct ImapSendOutput {
    /// The completion of the command.
    pub tagged: Option<StatusBody>,
    /// The text of the BYE.
    pub bye: Option<String>,
    /// Whether the server asked for more.
    pub continuation_request: bool,
    /// Untagged data, in order.
    pub data: Vec<ServerData>,
    /// Untagged status lines, in order.
    pub untagged: Vec<StatusBody>,
}

/// Model of [`ImapSendOutput`].
pub struct OutputView {
    pub tagged: Option<StatusView>,
    pub bye: Option<Seq<char>>,
    pub continuation_request: bool,
    pub data: Seq<DataView>,
    pub untagged: Seq<StatusView>,
}

pub open spec fn status_view(status: Option<StatusBody>) -> Option<StatusView> {
    match status {
        Some(status) => Some(status@),
        None => None,
    }
}

pub open spec fn text_view(text: Option<String>) -> Option<Seq<char>> {
    match text {
        Some(text) => Some(text@),
        None => None,
    }
}

pub open spec fn data_views(data: Seq<ServerData>) -> Seq<DataView> {
    data.map_values(|item: ServerData| item@)
}

pub open spec fn status_views(statuses: Seq<StatusBody>) -> Seq<StatusView> {
    statuses.map_values(|status: StatusBody| status@)
}

impl View for ImapSendOutput {
    type V = OutputView;

    open spec fn view(&self) -> OutputView {
        OutputView {
            tagged: status_view(self.tagged),
            bye: text_view(self.bye),
            continuation_request: self.continuation_request,
            data: data_views(self.data@),
            untagged: status_views(self.untagged@),
        }
    }
}

impl OutputView {
    pub open spec fn empty() -> OutputView {
        OutputView {
            tagged: None,
            bye: None,
            continuation_request: false,
            data: Seq::empty(),
            untagged: Seq::empty(),
        }
    }

    /// Data and untagged statuses accumulate; of the others the last
    /// one counts.
    pub open spec fn collect(self, response: ResponseView) -> OutputView {
        match response {
            ResponseView::Tagged(status) => OutputView { tagged: Some(status), ..self },
            ResponseView::Untagged(status) => OutputView {
                untagged: self.untagged.push(status),
                ..self
            },
            ResponseView::Bye(text) => OutputView { bye: Some(text), ..self },
            ResponseView::Continuation => OutputView { continuation_request: true, ..self },
            ResponseView::Data(data) => OutputView { data: self.data.push(data), ..self },
        }
    }
}

/// A message that begins like untagged data or an untagged status.
pub open spec fn is_untagged(message: Seq<u8>) -> bool {
    message.len() >= 2 && message[0] == 0x2a && message[1] == 0x20
}

/// The failure that an undecodable message stands for.
pub open spec fn decode_failure(err: DecodeError, message: Seq<u8>) -> SendErrorView {
    match err {
        DecodeError::Undecodable => SendErrorView::DecodingFailure(message),
        DecodeError::Poisoned => SendErrorView::MessageIsPoisoned(message),
        DecodeError::TooLong => SendErrorView::MessageTooLong(message),
    }
}

/// Whether the current message is passed over: when `lenient`, untagged
/// lines that the codec does not know.
pub open spec fn is_skipped(framing: Framing, lenient: bool) -> bool {
    lenient && framing.decode() == Err::<ResponseView, _>(DecodeError::Undecodable) && is_untagged(
        framing.message,
    )
}

/// What [`drain`] leaves.
pub struct Drained {
    pub framing: Framing,
    pub output: OutputView,
    pub failure: Option<SendErrorView>,
}

/// Every message that the enqueued bytes complete is collected, until
/// the bytes run out or a message cannot be decoded.
pub open spec fn drain(output: OutputView, framing: Framing, lenient: bool) -> Drained
    decreases framing.unparsed.len(), framing.owed(),
{
    proof {
        framing.lemma_progress();
    }
    let (next, fragment) = framing.progress();
    if fragment is None {
        Drained { framing: next, output, failure: None }
    } else if !next.complete() || is_skipped(next, lenient) {
        drain(output, next, lenient)
    } else {
        match next.decode() {
            Ok(response) => drain(output.collect(response), next, lenient),
            Err(err) => Drained {
                framing: next,
                output,
                failure: Some(decode_failure(err, next.message)),
            },
        }
    }
}

proof fn lemma_drain_split(output: OutputView, framing: Framing, lenient: bool, bytes: Seq<u8>)
    requires
        drain(output, framing, lenient).failure is None,
    ensures
        ({
            let drained = drain(output, framing, lenient);
            drain(output, framing.enqueue(bytes), lenient) == drain(
                drained.output,
                drained.framing.enqueue(bytes),
                lenient,
            )
        }),
    decreases framing.unparsed.len(), framing.owed(),
{
    framing.lemma_progress();
    let (next, fragment) = framing.progress();
    if fragment is None {
        framing.lemma_found_later(bytes);
    } else {
        framing.lemma_found_regardless(bytes);
        if !next.complete() || is_skipped(next, lenient) {
            lemma_drain_split(output, next, lenient, bytes);
        } else if let Ok(response) = next.decode() {
            lemma_drain_split(output.collect(response), next, lenient, bytes);
        }
    }
}

/// How a response is split into reads does not matter: what is read in
/// two goes leads to the same step as if it were read at once.
pub proof fn reads_can_be_split(state: SendState, framing: Framing, first: Seq<u8>, second: Seq<u8>)
    requires
        first.len() > 0,
        second.len() > 0,
        state.resume(framing, Some(first)).result == ImapCoroutineState::<
            YieldView,
            Result<OutputView, SendErrorView>,
        >::Yielded(YieldView::WantsRead),
    ensures
        ({
            let step = state.resume(framing, Some(first));
            step.state.resume(step.framing, Some(second)) == state.resume(
                framing,
                Some(first + second),
            )
        }),
{
    lemma_drain_split(state.output, framing.enqueue(first), true, second);
    assert(framing.enqueue(first).enqueue(second).unparsed =~= framing.unparsed + (first + second));
}

proof fn lemma_drain_skips(output: OutputView, framing: Framing)
    ensures
        drain(output, framing, true).failure matches Some(SendErrorView::DecodingFailure(message))
            ==> !is_untagged(message),
    decreases framing.unparsed.len(), framing.owed(),
{
    framing.lemma_progress();
    let (next, fragment) = framing.progress();
    if fragment is Some {
        if !next.complete() || is_skipped(next, true) {
            lemma_drain_skips(output, next);
        } else if let Ok(response) = next.decode() {
            lemma_drain_skips(output.collect(response), next);
        }
    }
}

/// An untagged line that cannot be decoded never makes a command fail.
pub proof fn undecodable_lines_are_skipped(
    state: SendState,
    framing: Framing,
    arg: Option<Seq<u8>>,
    message: Seq<u8>,
)
    requires
        state.resume(framing, arg).result == ImapCoroutineState::<YieldView, _>::Complete(
            Err::<OutputView, _>(SendErrorView::DecodingFailure(message)),
        ),
    ensures
        !is_untagged(message),
{
    if let Some(bytes) = arg {
        lemma_drain_skips(state.output, framing.enqueue(bytes));
    }
}

/// A stream that ends before the exchange does is a failure, and nothing
/// is forgotten on that account.
pub proof fn end_of_stream_fails(state: SendState, framing: Framing)
    requires
        !state.writing || state.parts.len() == 0,
    ensures
        state.resume(framing, Some(Seq::empty())) == (SendStep {
            state,
            framing,
            result: ImapCoroutineState::Complete(Err(SendErrorView::Eof)),
        }),
{
}

/// Everything collected so far stays: data and untagged statuses only
/// accumulate, and a completion, a BYE or a continuation request is
/// never forgotten.
pub proof fn nothing_collected_is_lost(output: OutputView, framing: Framing, lenient: bool)
    ensures
        ({
            let after = drain(output, framing, lenient).output;
            &&& output.data.is_prefix_of(after.data)
            &&& output.untagged.is_prefix_of(after.untagged)
            &&& output.tagged is Some ==> after.tagged is Some
            &&& output.bye is Some ==> after.bye is Some
            &&& output.continuation_request ==> after.continuation_request
        }),
    decreases framing.unparsed.len(), framing.owed(),
{
    framing.lemma_progress();
    let (next, fragment) = framing.progress();
    if fragment is Some {
        if !next.complete() || is_skipped(next, lenient) {
            nothing_collected_is_lost(output, next, lenient);
        } else if let Ok(response) = next.decode() {
            let collected = output.collect(response);
            nothing_collected_is_lost(collected, next, lenient);
            let after = drain(output, framing, lenient).output;
            assert(output.data.is_prefix_of(collected.data));
            assert(output.untagged.is_prefix_of(collected.untagged));
            assert(after.data.subrange(0, output.data.len() as int) =~= output.data);
            assert(after.untagged.subrange(0, output.untagged.len() as int) =~= output.untagged);
        }
    }
}

pub open spec fn failure_view(result: Result<(), ImapSendError>) -> Option<SendErrorView> {
    match result {
        Ok(_) => None,
        Err(err) => Some(err@),
    }
}

/// The failure that an undecodable message stands for.
fn decoding_failed(err: DecodeError, message: &[u8]) -> (failure: ImapSendError)
    ensures
        failure@ == decode_failure(err, message@),
{
    let mut bytes: Vec<u8> = Vec::new();
    bytes.extend_from_slice(message);
    assert(bytes@ == message@);
    match err {
        DecodeError::Undecodable => ImapSendError::DecodingFailure(conceal(bytes)),
        DecodeError::Poisoned => ImapSendError::MessageIsPoisoned(conceal(bytes)),
        DecodeError::TooLong => ImapSendError::MessageTooLong(conceal(bytes)),
    }
}

impl ImapSendOutput {
    /// Nothing answered yet.
    pub fn new() -> (output: Self)
        ensures
            output@ == OutputView::empty(),
    {
        let output = ImapSendOutput {
            tagged: None,
            bye: None,
            continuation_request: false,
            data: Vec::new(),
            untagged: Vec::new(),
        };
        assert(output@.data =~= Seq::empty());
        assert(output@.untagged =~= Seq::empty());
        output
    }

    /// Adds one response.
    pub fn collect(&mut self, response: ServerResponse)
        ensures
            final(self)@ == old(self)@.collect(response@),
    {
        match response {
            ServerResponse::Tagged(status) => {
                self.tagged = Some(status);
            },
            ServerResponse::Untagged(status) => {
                self.untagged.push(status);
            },
            ServerResponse::Bye(text) => {
                self.bye = Some(text);
            },
            ServerResponse::Continuation => {
                self.continuation_request = true;
            },
            ServerResponse::Data(data) => {
                self.data.push(data);
            },
        }
        proof {
            let before = old(self)@.collect(response@);
            assert(self@.data =~= before.data);
            assert(self@.untagged =~= before.untagged);
        }
    }

    /// Adds every response that the bytes in `fragmentizer` complete.
    /// Untagged lines that cannot be decoded fail, unless `lenient`.
    pub fn drain(&mut self, fragmentizer: &mut Fragmentizer, lenient: bool) -> (result: Result<
        (),
        ImapSendError,
    >)
        ensures
            drain(old(self)@, framing(*old(fragmentizer)), lenient) == (Drained {
                framing: framing(*final(fragmentizer)),
                output: final(self)@,
                failure: failure_view(result),
            }),
    {
        loop
            invariant
                drain(old(self)@, framing(*old(fragmentizer)), lenient) == drain(
                    self@,
                    framing(*fragmentizer),
                    lenient,
                ),
            decreases framing(*fragmentizer).unparsed.len(), framing(*fragmentizer).owed(),
        {
            proof {
                framing(*fragmentizer).lemma_progress();
            }
            if progress(fragmentizer).is_none() {
                return Ok(());
            }
            if is_message_complete(fragmentizer) {
                match decode_response(fragmentizer) {
                    Ok(response) => {
                        self.collect(response);
                    },
                    Err(err) => {
                        let message = message_bytes(fragmentizer);
                        let skipped = lenient && err == DecodeError::Undecodable && message.len()
                            >= 2 && message[0] == 0x2a && message[1] == 0x20;
                        if !skipped {
                            return Err(decoding_failed(err, message));
                        }
                    },
                }
            }
        }
    }
}

/// The parts a command is written in: a part ends where the server has
/// to ask for a synchronising literal.
pub open spec fn parts_of(fragments: Seq<FragmentView>) -> Seq<Seq<u8>>
    decreases fragments.len(),
{
    if fragments.len() == 0 {
        seq![Seq::empty()]
    } else {
        let parts = parts_of(fragments.drop_last());
        match fragments.last() {
            FragmentView::Literal { data, sync: true } => parts.push(data),
            fragment => parts.drop_last().push(parts.last() + fragment.bytes()),
        }
    }
}

/// All parts, joined.
pub open spec fn joined(parts: Seq<Seq<u8>>) -> Seq<u8>
    decreases parts.len(),
{
    if parts.len() == 0 {
        Seq::empty()
    } else {
        joined(parts.drop_last()) + parts.last()
    }
}

/// Number of synchronising literals.
pub open spec fn sync_literals(fragments: Seq<FragmentView>) -> nat
    decreases fragments.len(),
{
    if fragments.len() == 0 {
        0
    } else {
        sync_literals(fragments.drop_last()) + match fragments.last() {
            FragmentView::Literal { sync: true, .. } => 1nat,
            _ => 0nat,
        }
    }
}

/// Whatever a command is split into, the parts are its bytes, in order,
/// and the server has to ask once for each synchronising literal.
pub proof fn parts_are_the_command(fragments: Seq<FragmentView>)
    ensures
        joined(parts_of(fragments)) == dumped(fragments),
        parts_of(fragments).len() == 1 + sync_literals(fragments),
    decreases fragments.len(),
{
    let parts = parts_of(fragments);
    if fragments.len() == 0 {
        assert(parts.drop_last() =~= Seq::empty());
        assert(joined(parts.drop_last()) =~= Seq::empty());
        assert(joined(parts) =~= Seq::empty());
    } else {
        let before = parts_of(fragments.drop_last());
        parts_are_the_command(fragments.drop_last());
        match fragments.last() {
            FragmentView::Literal { data, sync: true } => {
                assert(parts.drop_last() =~= before);
            },
            fragment => {
                assert(parts.drop_last() =~= before.drop_last());
                assert(joined(parts) =~= joined(before) + fragment.bytes());
            },
        }
    }
}

/// State of [`ImapSend`].
pub struct SendState {
    /// Parts of the command that are still to be written.
    pub parts: Seq<Seq<u8>>,
    /// Whether the next step writes a part.
    pub writing: bool,
    /// What the server answered so far.
    pub output: OutputView,
}

/// Ready to write a command without arguments, under some tag.
pub open spec fn starts_bare(state: SendState, command: BareCommand) -> bool {
    exists|tag: imap_types::core::Tag<'static>| #[trigger]
        is_tag_text(tag_text(tag)) && state == SendState::start(
            seq![FragmentView::Line(bare_line(tag, command))],
        )
}

/// Ready to write a command with arguments, under some tag.
pub open spec fn starts(state: SendState, command: CommandView) -> bool {
    exists|tag: imap_types::core::Tag<'static>| #[trigger]
        is_tag_text(tag_text(tag)) && state == SendState::start(command_fragments(tag, command))
}

/// A command without arguments was just begun, under some tag: its line
/// is to be written, and its response is awaited.
pub open spec fn begins_bare(after: SendState, y: YieldView, command: BareCommand) -> bool {
    after == SendState::receive() && exists|tag: imap_types::core::Tag<'static>| #[trigger]
        is_tag_text(tag_text(tag)) && y == YieldView::WantsWrite(bare_line(tag, command))
}

/// A command with arguments was just begun, under some tag: its first
/// part is to be written.
pub open spec fn begins(after: SendState, y: YieldView, command: CommandView) -> bool {
    exists|tag: imap_types::core::Tag<'static>| #[trigger]
        is_tag_text(tag_text(tag)) && {
            let parts = parts_of(command_fragments(tag, command));
            &&& after == (SendState {
                parts: parts.skip(1),
                writing: false,
                output: OutputView::empty(),
            })
            &&& y == YieldView::WantsWrite(parts[0])
        }
}

/// The first step of a command without arguments writes all of it,
/// whatever it is resumed with.
pub proof fn first_step_of_bare(
    state: SendState,
    command: BareCommand,
    framing: Framing,
    arg: Option<Seq<u8>>,
)
    requires
        starts_bare(state, command),
    ensures
        ({
            let step = state.resume(framing, arg);
            &&& step.framing == framing
            &&& step.result matches ImapCoroutineState::Yielded(y)
            &&& begins_bare(step.state, y, command)
        }),
{
    let tag = choose|tag: imap_types::core::Tag<'static>| #[trigger]
        is_tag_text(tag_text(tag)) && state == SendState::start(
            seq![FragmentView::Line(bare_line(tag, command))],
        );
    let fragments = seq![FragmentView::Line(bare_line(tag, command))];
    assert(fragments.drop_last() =~= Seq::empty());
    assert(parts_of(fragments.drop_last()) =~= seq![Seq::empty()]);
    assert(parts_of(fragments) =~= seq![bare_line(tag, command)]);
    assert(state.parts.skip(1) =~= Seq::empty());
}

/// The first step of a command with arguments writes its first part,
/// whatever it is resumed with.
pub proof fn first_step_of(
    state: SendState,
    command: CommandView,
    framing: Framing,
    arg: Option<Seq<u8>>,
)
    requires
        starts(state, command),
    ensures
        ({
            let step = state.resume(framing, arg);
            &&& step.framing == framing
            &&& step.result matches ImapCoroutineState::Yielded(y)
            &&& begins(step.state, y, command)
        }),
{
    let tag = choose|tag: imap_types::core::Tag<'static>| #[trigger]
        is_tag_text(tag_text(tag)) && state == SendState::start(command_fragments(tag, command));
    parts_are_the_command(command_fragments(tag, command));
}

/// One step of [`ImapSend`].
pub struct SendStep {
    pub state: SendState,
    pub framing: Framing,
    pub result: ImapCoroutineState<YieldView, Result<OutputView, SendErrorView>>,
}

impl SendState {
    /// Ready to write the command made of `fragments`.
    pub open spec fn start(fragments: Seq<FragmentView>) -> SendState {
        SendState { parts: parts_of(fragments), writing: true, output: OutputView::empty() }
    }

    /// Waiting for the response of a command that is written already.
    pub open spec fn receive() -> SendState {
        SendState { parts: Seq::empty(), writing: false, output: OutputView::empty() }
    }

    pub open spec fn write(self, framing: Framing) -> SendStep {
        SendStep {
            state: SendState { parts: self.parts.skip(1), writing: false, ..self },
            framing,
            result: ImapCoroutineState::Yielded(YieldView::WantsWrite(self.parts[0])),
        }
    }

    /// What follows once the bytes read so far are collected.
    pub open spec fn settle(self, framing: Framing) -> SendStep {
        if self.output.tagged is Some || self.output.bye is Some || (
        self.output.continuation_request && self.parts.len() == 0) {
            SendStep {
                state: SendState { output: OutputView::empty(), ..self },
                framing,
                result: ImapCoroutineState::Complete(Ok(self.output)),
            }
        } else if self.output.continuation_request {
            let output = OutputView { continuation_request: false, ..self.output };
            SendState { output, ..self }.write(framing)
        } else {
            SendStep {
                state: self,
                framing,
                result: ImapCoroutineState::Yielded(YieldView::WantsRead),
            }
        }
    }

    pub open spec fn resume(self, framing: Framing, arg: Option<Seq<u8>>) -> SendStep {
        if self.writing && self.parts.len() > 0 {
            self.write(framing)
        } else {
            match arg {
                None => SendStep {
                    state: self,
                    framing,
                    result: ImapCoroutineState::Yielded(YieldView::WantsRead),
                },
                Some(bytes) => if bytes.len() == 0 {
                    SendStep {
                        state: self,
                        framing,
                        result: ImapCoroutineState::Complete(Err(SendErrorView::Eof)),
                    }
                } else {
                    let drained = drain(self.output, framing.enqueue(bytes), true);
                    let state = SendState { output: drained.output, ..self };
                    match drained.failure {
                        Some(failure) => SendStep {
                            state,
                            framing: drained.framing,
                            result: ImapCoroutineState::Complete(Err(failure)),
                        },
                        None => state.settle(drained.framing),
                    }
                },
            }
        }
    }
}

/// Model of what a step of [`ImapSend`] returns.
pub open spec fn send_result_view(
    result: ImapCoroutineState<ImapYield, Result<ImapSendOutput, ImapSendError>>,
) -> ImapCoroutineState<YieldView, Result<OutputView, SendErrorView>> {
    match result {
        ImapCoroutineState::Yielded(y) => ImapCoroutineState::Yielded(y@),
        ImapCoroutineState::Complete(Ok(output)) => ImapCoroutineState::Complete(Ok(output@)),
        ImapCoroutineState::Complete(Err(err)) => ImapCoroutineState::Complete(Err(err@)),
    }
}

pub open spec fn part_views(parts: Seq<Vec<u8>>) -> Seq<Seq<u8>> {
    parts.map_values(|part: Vec<u8>| part@)
}

/// I/O-free exchange of one command and its response.
///
/// Parts of the command are written as far as the server need not ask
/// for a synchronising literal. Then the response is collected: data
/// and untagged status lines accumulate, a tagged, bye or
/// continuation-request line ends the exchange, and untagged lines that
/// cannot be decoded are skipped.
pub struct ImapSend {
    parts: VecDeque<Vec<u8>>,
    writing: bool,
    output: ImapSendOutput,
}

impl View for ImapSend {
    type V = SendState;

    closed spec fn view(&self) -> SendState {
        SendState {
            parts: part_views(self.parts@),
            writing: self.writing,
            output: self.output@,
        }
    }
}

impl ImapSend {
    /// Sends an encoded command and collects its response.
    pub fn new(encoded: Encoded) -> (send: Self)
        ensures
            send@ == SendState::start(encoded_fragments(encoded)),
    {
        let ghost fragments = encoded_fragments(encoded);
        let mut encoded = encoded;
        let mut parts: VecDeque<Vec<u8>> = VecDeque::new();
        let mut last: Vec<u8> = Vec::new();
        let ghost mut done: int = 0;
        proof {
            assert(fragments.take(0) =~= Seq::empty());
            assert(part_views(parts@).push(last@) =~= parts_of(fragments.take(0)));
            assert(fragments.skip(0) =~= fragments);
        }
        loop
            invariant
                0 <= done <= fragments.len(),
                encoded_fragments(encoded) == fragments.skip(done),
                part_views(parts@).push(last@) == parts_of(fragments.take(done)),
            ensures
                part_views(parts@).push(last@) == parts_of(fragments),
            decreases fragments.len() - done,
        {
            let ghost before = part_views(parts@).push(last@);
            let next = next_fragment(&mut encoded);
            proof {
                assert(next is None ==> fragments.take(done) =~= fragments);
                if done < fragments.len() {
                    assert(fragments.take(done + 1).drop_last() =~= fragments.take(done));
                    assert(fragments.skip(done).skip(1) =~= fragments.skip(done + 1));
                }
            }
            match next {
                None => {
                    break;
                },
                Some(CommandFragment::Literal { data, sync: true }) => {
                    parts.push_back(last);
                    last = data;
                    proof {
                        assert(part_views(parts@) =~= before);
                    }
                },
                Some(CommandFragment::Literal { data, sync: false }) => {
                    let mut data = data;
                    last.append(&mut data);
                    proof {
                        assert(part_views(parts@) =~= before.drop_last());
                    }
                },
                Some(CommandFragment::Line(data)) => {
                    let mut data = data;
                    last.append(&mut data);
                    proof {
                        assert(part_views(parts@) =~= before.drop_last());
                    }
                },
            }
            proof {
                done = done + 1;
            }
        }
        let ghost before = part_views(parts@).push(last@);
        parts.push_back(last);
        assert(part_views(parts@) =~= before);
        ImapSend { parts, writing: true, output: ImapSendOutput::new() }
    }

    /// Collects the response of a command whose bytes were written
    /// already.
    pub fn receive() -> (send: Self)
        ensures
            send@ == SendState::receive(),
    {
        let send = ImapSend {
            parts: VecDeque::new(),
            writing: false,
            output: ImapSendOutput::new(),
        };
        assert(send@.parts =~= Seq::empty());
        send
    }

    fn write(&mut self) -> (result: ImapCoroutineState<
        ImapYield,
        Result<ImapSendOutput, ImapSendError>,
    >)
        requires
            old(self)@.parts.len() > 0,
        ensures
            forall|framing: Framing|
                old(self)@.write(framing) == (SendStep {
                    state: final(self)@,
                    framing,
                    result: send_result_view(result),
                }),
    {
        self.writing = false;
        match self.parts.pop_front() {
            Some(part) => {
                assert(self@.parts =~= old(self)@.parts.skip(1));
                ImapCoroutineState::Yielded(ImapYield::WantsWrite(part))
            },
            None => ImapCoroutineState::Yielded(ImapYield::WantsRead),
        }
    }
}

impl ImapCoroutine for ImapSend {
    type Yield = ImapYield;

    type Return = Result<ImapSendOutput, ImapSendError>;

    fn resume(&mut self, fragmentizer: &mut Fragmentizer, arg: Option<&[u8]>) -> (result:
        ImapCoroutineState<ImapYield, Result<ImapSendOutput, ImapSendError>>)
        ensures
            old(self)@.resume(framing(*old(fragmentizer)), arg_view(arg)) == (SendStep {
                state: final(self)@,
                framing: framing(*final(fragmentizer)),
                result: send_result_view(result),
            }),
    {
        if self.writing && self.parts.len() > 0 {
            return self.write();
        }
        let bytes = match arg {
            None => {
                return ImapCoroutineState::Yielded(ImapYield::WantsRead);
            },
            Some(bytes) => bytes,
        };
        if bytes.len() == 0 {
            return ImapCoroutineState::Complete(Err(ImapSendError::Eof));
        }
        enqueue_bytes(fragmentizer, bytes);
        match self.output.drain(fragmentizer, true) {
            Err(err) => {
                return ImapCoroutineState::Complete(Err(err));
            },
            Ok(()) => {},
        }
        if self.output.tagged.is_some() || self.output.bye.is_some() || (
        self.output.continuation_request && self.parts.len() == 0) {
            let mut output = ImapSendOutput::new();
            std::mem::swap(&mut output, &mut self.output);
            return ImapCoroutineState::Complete(Ok(output));
        }
        if self.output.continuation_request {
            self.output.continuation_request = false;
            return self.write();
        }
        ImapCoroutineState::Yielded(ImapYield::WantsRead)
    }
}

} // verus!
