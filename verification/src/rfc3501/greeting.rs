//! IMAP server greeting reader; optionally forces a CAPABILITY round-trip
//! if the greeting carries none.

use imap_codec::fragmentizer::{DecodeMessageError, Fragmentizer};
use imap_codec::imap_types::response as wire;
use imap_codec::imap_types::response::Capability;
use imap_codec::imap_types::secret::Secret;
use imap_codec::imap_types::IntoStatic;
use imap_codec::GreetingCodec;
use vstd::prelude::*;

use crate::command::BareCommand;
use crate::coroutine::{arg_view, ImapCoroutine, ImapCoroutineState, ImapYield, YieldView};
use crate::framing::{enqueue_bytes, framing, is_message_complete, message_bytes, progress, Framing};
use crate::outcome::{conclude, step_view, FailureView};
use crate::response::DecodeError;
use crate::rfc3501::capability::{capability_outcome, ImapCapabilityGet, ImapCapabilityGetError};
use crate::send::{begins_bare, conceal, concealed, first_step_of_bare, OutputView, SendState};

verus! {

/// Failure causes while reading the IMAP greeting.
#[derive(Clone, Debug)]
pub enum ImapGreetingGetError {
    /// The server refuses the connection.
    Bye(String),
    /// The stream ended before the greeting.
    Eof,
    /// The first message is not a greeting.
    DecodingFailure(Secret<Vec<u8>>),
    /// The first message was poisoned.
    MessageIsPoisoned(Secret<Vec<u8>>),
    /// The first message exceeds the size limit.
    MessageTooLong(Secret<Vec<u8>>),
    /// The CAPABILITY round-trip failed.
    Capability(ImapCapabilityGetError),
}

impl View for ImapGreetingGetError {
    type V = FailureView;

    open spec fn view(&self) -> FailureView {
        match *self {
            ImapGreetingGetError::Bye(text) => FailureView::Bye(text@),
            ImapGreetingGetError::Eof => FailureView::Eof,
            ImapGreetingGetError::DecodingFailure(bytes) => FailureView::DecodingFailure(
                concealed(bytes),
            ),
            ImapGreetingGetError::MessageIsPoisoned(bytes) => FailureView::MessageIsPoisoned(
                concealed(bytes),
            ),
            ImapGreetingGetError::MessageTooLong(bytes) => FailureView::MessageTooLong(
                concealed(bytes),
            ),
            ImapGreetingGetError::Capability(err) => FailureView::Capability(Box::new(err@)),
        }
    }
}

/// Decoded greeting outcome.
#[derive(Debug)]
pub struct ImapGreetingOk {
    /// The capabilities that the server advertised.
    pub capability: Vec<Capability<'static>>,
    /// Whether the session is authenticated already.
    pub pre_authenticated: bool,
}

/// Model of [`ImapGreetingOk`].
pub struct GreetingOkView {
    pub capability: Seq<Capability<'static>>,
    pub pre_authenticated: bool,
}

impl View for ImapGreetingOk {
    type V = GreetingOkView;

    open spec fn view(&self) -> GreetingOkView {
        GreetingOkView {
            capability: self.capability@,
            pre_authenticated: self.pre_authenticated,
        }
    }
}

/// Options for [`ImapGreetingGet::new`].
#[derive(Clone, Debug, Eq, PartialEq)]
pub struct ImapGreetingGetOptions {
    /// Fetch capabilities explicitly when the greeting carries none.
    pub ensure_capabilities: bool,
}

impl Default for ImapGreetingGetOptions {
    fn default() -> (opts: Self)
        ensures
            opts == (ImapGreetingGetOptions { ensure_capabilities: false }),
    {
        ImapGreetingGetOptions { ensure_capabilities: false }
    }
}

/// What a greeting says of the session.
#[derive(Clone, Copy, Debug, PartialEq, Eq, Structural)]
pub enum GreetingKind {
    /// Authentication is expected.
    Ready,
    /// The session is authenticated already.
    PreAuth,
    /// The connection is refused.
    Bye,
}

/// A greeting.
#[derive(Debug)]
pub struct Greeting {
    pub kind: GreetingKind,
    pub capability: Vec<Capability<'static>>,
    pub text: String,
}

/// Model of [`Greeting`]; no capability means that none is advertised.
pub struct GreetingView {
    pub kind: GreetingKind,
    pub capability: Seq<Capability<'static>>,
    pub text: Seq<char>,
}

impl View for Greeting {
    type V = GreetingView;

    open spec fn view(&self) -> GreetingView {
        GreetingView { kind: self.kind, capability: self.capability@, text: self.text@ }
    }
}

/// The greeting that the bytes of a message stand for, as imap-codec's
/// `GreetingCodec` decodes them with nothing left over.
pub uninterp spec fn decoded_greeting(message: Seq<u8>) -> Option<GreetingView>;

impl Framing {
    /// What decoding the current message as a greeting gives, when the
    /// codec makes `decoded` of its bytes.
    pub open spec fn judge_greeting(self, decoded: Option<GreetingView>) -> Result<
        GreetingView,
        DecodeError,
    > {
        if self.too_long {
            Err(DecodeError::TooLong)
        } else if self.poisoned {
            Err(DecodeError::Poisoned)
        } else {
            match decoded {
                Some(greeting) => Ok(greeting),
                None => Err(DecodeError::Undecodable),
            }
        }
    }

    /// What decoding the current message as a greeting gives.
    pub open spec fn greet(self) -> Result<GreetingView, DecodeError> {
        self.judge_greeting(decoded_greeting(self.message))
    }
}

/// `Fragmentizer::decode_message` with `GreetingCodec`: the kind and the
/// text of the greeting that the current message is, or why it cannot be
/// decoded.
#[verifier::external_body]
fn decode_greeting_line(fragmentizer: &Fragmentizer) -> (outcome: Result<
    (GreetingKind, String),
    DecodeError,
>)
    ensures
        match framing(*fragmentizer).judge_greeting(
            decoded_greeting(framing(*fragmentizer).message),
        ) {
            Ok(greeting) => outcome is Ok && outcome->Ok_0.0 == greeting.kind && outcome->Ok_0.1@
                == greeting.text,
            Err(err) => outcome == Err::<(GreetingKind, String), _>(err),
        },
{
    let greeting = match fragmentizer.decode_message(&GreetingCodec::new()) {
        Ok(greeting) => greeting,
        Err(DecodeMessageError::MessageTooLong { .. }) => return Err(DecodeError::TooLong),
        Err(DecodeMessageError::MessagePoisoned { .. }) => return Err(DecodeError::Poisoned),
        Err(DecodeMessageError::DecodingFailure(_)) => return Err(DecodeError::Undecodable),
        Err(DecodeMessageError::DecodingRemainder { .. }) => return Err(DecodeError::Undecodable),
    };
    let kind = match greeting.kind {
        wire::GreetingKind::Ok => GreetingKind::Ready,
        wire::GreetingKind::PreAuth => GreetingKind::PreAuth,
        wire::GreetingKind::Bye => GreetingKind::Bye,
    };
    Ok((kind, greeting.text.to_string()))
}

/// `Fragmentizer::decode_message` with `GreetingCodec`: the capabilities
/// that the greeting lists in its code.
#[verifier::external_body]
fn decode_greeting_capability(fragmentizer: &Fragmentizer) -> (capability: Vec<
    Capability<'static>,
>)
    ensures
        framing(*fragmentizer).judge_greeting(
            decoded_greeting(framing(*fragmentizer).message),
        ) matches Ok(greeting) ==> capability@ == greeting.capability,
{
    match fragmentizer.decode_message(&GreetingCodec::new()) {
        Ok(wire::Greeting { code: Some(wire::Code::Capability(capability)), .. }) => {
            capability.into_static().into_inner()
        },
        _ => Vec::new(),
    }
}

/// Decodes the current message as a greeting.
fn decode_greeting(fragmentizer: &Fragmentizer) -> (outcome: Result<Greeting, DecodeError>)
    ensures
        framing(*fragmentizer).greet() == match outcome {
            Ok(greeting) => Ok(greeting@),
            Err(err) => Err(err),
        },
{
    match decode_greeting_line(fragmentizer) {
        Ok((kind, text)) => {
            let capability = decode_greeting_capability(fragmentizer);
            Ok(Greeting { kind, capability, text })
        },
        Err(err) => Err(err),
    }
}

impl Framing {
    /// Parses up to the end of the next message, and tells whether there
    /// is one.
    pub open spec fn next_message(self) -> (Framing, bool)
        decreases self.unparsed.len(), self.owed(),
    {
        proof {
            self.lemma_progress();
        }
        let (next, fragment) = self.progress();
        if fragment is None {
            (next, false)
        } else if next.complete() {
            (next, true)
        } else {
            next.next_message()
        }
    }
}

proof fn lemma_next_message_split(framing: Framing, bytes: Seq<u8>)
    requires
        !framing.next_message().1,
    ensures
        framing.enqueue(bytes).next_message() == framing.next_message().0.enqueue(
            bytes,
        ).next_message(),
    decreases framing.unparsed.len(), framing.owed(),
{
    framing.lemma_progress();
    let (next, fragment) = framing.progress();
    if fragment is None {
        framing.lemma_found_later(bytes);
    } else {
        framing.lemma_found_regardless(bytes);
        lemma_next_message_split(next, bytes);
    }
}

/// How a greeting is split into reads does not matter: what is read in
/// two goes gives the same message as if it were read at once.
pub proof fn reads_can_be_split(framing: Framing, first: Seq<u8>, second: Seq<u8>)
    requires
        !framing.enqueue(first).next_message().1,
    ensures
        framing.enqueue(first + second).next_message() == framing.enqueue(
            first,
        ).next_message().0.enqueue(second).next_message(),
{
    lemma_next_message_split(framing.enqueue(first), second);
    assert(framing.enqueue(first).enqueue(second).unparsed =~= framing.unparsed + (first + second));
}

/// Parses up to the end of the next message, and tells whether there is
/// one.
fn advance(fragmentizer: &mut Fragmentizer) -> (found: bool)
    ensures
        framing(*old(fragmentizer)).next_message() == (framing(*final(fragmentizer)), found),
{
    loop
        invariant
            framing(*old(fragmentizer)).next_message() == framing(*fragmentizer).next_message(),
        decreases framing(*fragmentizer).unparsed.len(), framing(*fragmentizer).owed(),
    {
        proof {
            framing(*fragmentizer).lemma_progress();
        }
        if progress(fragmentizer).is_none() {
            return false;
        }
        if is_message_complete(fragmentizer) {
            return true;
        }
    }
}

/// The failure that an undecodable greeting stands for.
pub open spec fn greeting_failure(err: DecodeError, message: Seq<u8>) -> FailureView {
    match err {
        DecodeError::Undecodable => FailureView::DecodingFailure(message),
        DecodeError::Poisoned => FailureView::MessageIsPoisoned(message),
        DecodeError::TooLong => FailureView::MessageTooLong(message),
    }
}

/// Where the coroutine stands.
pub enum GreetingPhase {
    /// The greeting is read.
    Read,
    /// The capabilities are asked for.
    Capability(SendState),
}

/// State of [`ImapGreetingGet`].
pub struct GreetingState {
    pub phase: GreetingPhase,
    pub pre_authenticated: bool,
    pub ensure_capabilities: bool,
}

/// What a step of [`ImapGreetingGet`] returns.
pub type GreetingResult = ImapCoroutineState<YieldView, Result<GreetingOkView, FailureView>>;

impl GreetingState {
    /// Ready to read the greeting.
    pub open spec fn start(ensure_capabilities: bool) -> GreetingState {
        GreetingState {
            phase: GreetingPhase::Read,
            pre_authenticated: false,
            ensure_capabilities,
        }
    }

    /// What follows a greeting: nothing more, or the question for the
    /// capabilities it did not list.
    pub open spec fn greeted(
        self,
        greeting: GreetingView,
        after: GreetingState,
        result: GreetingResult,
    ) -> bool {
        let pre_authenticated = greeting.kind == GreetingKind::PreAuth;
        if greeting.kind == GreetingKind::Bye {
            &&& after == self
            &&& result == ImapCoroutineState::<YieldView, _>::Complete(
                Err::<GreetingOkView, _>(FailureView::Bye(greeting.text)),
            )
        } else if self.ensure_capabilities && greeting.capability.len() == 0 {
            &&& after.phase matches GreetingPhase::Capability(send)
            &&& result matches ImapCoroutineState::Yielded(y)
            &&& begins_bare(send, y, BareCommand::Capability)
            &&& after == (GreetingState {
                phase: GreetingPhase::Capability(send),
                pre_authenticated,
                ..self
            })
        } else {
            &&& after == (GreetingState { pre_authenticated, ..self })
            &&& result == ImapCoroutineState::<YieldView, _>::Complete(
                Ok::<_, FailureView>(
                    GreetingOkView { capability: greeting.capability, pre_authenticated },
                ),
            )
        }
    }

    /// What a step that reads `bytes` leads to.
    pub open spec fn read(
        self,
        framing: Framing,
        bytes: Seq<u8>,
        after: (GreetingState, Framing),
        result: GreetingResult,
    ) -> bool {
        let (next, found) = framing.enqueue(bytes).next_message();
        &&& after.1 == next
        &&& if !found {
            &&& after.0 == self
            &&& result == ImapCoroutineState::<_, Result<GreetingOkView, FailureView>>::Yielded(
                YieldView::WantsRead,
            )
        } else {
            match next.greet() {
                Ok(greeting) => self.greeted(greeting, after.0, result),
                Err(err) => {
                    &&& after.0 == self
                    &&& result == ImapCoroutineState::<YieldView, _>::Complete(
                        Err::<GreetingOkView, _>(greeting_failure(err, next.message)),
                    )
                },
            }
        }
    }

    /// What a step leads to. It is determined but for the tag of the
    /// command that asks for the capabilities.
    pub open spec fn steps(
        self,
        framing: Framing,
        arg: Option<Seq<u8>>,
        after: (GreetingState, Framing),
        result: GreetingResult,
    ) -> bool {
        match self.phase {
            GreetingPhase::Read => match arg {
                None => {
                    &&& after == (self, framing)
                    &&& result == ImapCoroutineState::<
                        _,
                        Result<GreetingOkView, FailureView>,
                    >::Yielded(YieldView::WantsRead)
                },
                Some(bytes) => if bytes.len() == 0 {
                    &&& after == (self, framing)
                    &&& result == ImapCoroutineState::<YieldView, _>::Complete(
                        Err::<GreetingOkView, _>(FailureView::Eof),
                    )
                } else {
                    self.read(framing, bytes, after, result)
                },
            },
            GreetingPhase::Capability(send) => {
                let inner = send.resume(framing, arg);
                &&& after == (
                    GreetingState { phase: GreetingPhase::Capability(inner.state), ..self },
                    inner.framing,
                )
                &&& result == match conclude(
                    inner.result,
                    |output: OutputView| capability_outcome(output),
                ) {
                    ImapCoroutineState::Yielded(y) => ImapCoroutineState::Yielded(y),
                    ImapCoroutineState::Complete(Ok(capability)) => ImapCoroutineState::Complete(
                        Ok(
                            GreetingOkView {
                                capability,
                                pre_authenticated: self.pre_authenticated,
                            },
                        ),
                    ),
                    ImapCoroutineState::Complete(Err(err)) => ImapCoroutineState::Complete(
                        Err(FailureView::Capability(Box::new(err))),
                    ),
                }
            },
        }
    }
}

/// Where the coroutine stands.
enum State {
    Read,
    Capability(ImapCapabilityGet),
}

/// I/O-free IMAP greeting-read coroutine.
pub struct ImapGreetingGet {
    state: State,
    pre_authenticated: bool,
    opts: ImapGreetingGetOptions,
}

impl View for ImapGreetingGet {
    type V = GreetingState;

    closed spec fn view(&self) -> GreetingState {
        GreetingState {
            phase: match self.state {
                State::Read => GreetingPhase::Read,
                State::Capability(capability) => GreetingPhase::Capability(capability@),
            },
            pre_authenticated: self.pre_authenticated,
            ensure_capabilities: self.opts.ensure_capabilities,
        }
    }
}

impl ImapGreetingGet {
    /// Creates a coroutine that reads the greeting.
    pub fn new(opts: ImapGreetingGetOptions) -> (greeting: Self)
        ensures
            greeting@ == GreetingState::start(opts.ensure_capabilities),
    {
        ImapGreetingGet { state: State::Read, pre_authenticated: false, opts }
    }

    fn failed(err: DecodeError, message: &[u8]) -> (failure: ImapGreetingGetError)
        ensures
            failure@ == greeting_failure(err, message@),
    {
        let mut bytes: Vec<u8> = Vec::new();
        bytes.extend_from_slice(message);
        assert(bytes@ =~= message@);
        match err {
            DecodeError::Undecodable => ImapGreetingGetError::DecodingFailure(conceal(bytes)),
            DecodeError::Poisoned => ImapGreetingGetError::MessageIsPoisoned(conceal(bytes)),
            DecodeError::TooLong => ImapGreetingGetError::MessageTooLong(conceal(bytes)),
        }
    }

    /// Goes on once the greeting is read.
    pub fn greeted(&mut self, greeting: Greeting, fragmentizer: &mut Fragmentizer) -> (step:
        ImapCoroutineState<ImapYield, Result<ImapGreetingOk, ImapGreetingGetError>>)
        ensures
            old(self)@.greeted(greeting@, final(self)@, step_view(step)),
            framing(*final(fragmentizer)) == framing(*old(fragmentizer)),
    {
        if greeting.kind == GreetingKind::Bye {
            return ImapCoroutineState::Complete(Err(ImapGreetingGetError::Bye(greeting.text)));
        }
        self.pre_authenticated = greeting.kind == GreetingKind::PreAuth;
        if self.opts.ensure_capabilities && greeting.capability.len() == 0 {
            let mut capability = ImapCapabilityGet::new();
            proof {
                first_step_of_bare(
                    capability@,
                    BareCommand::Capability,
                    framing(*fragmentizer),
                    None,
                );
            }
            let step = capability.resume(fragmentizer, None);
            self.state = State::Capability(capability);
            return match step {
                ImapCoroutineState::Yielded(y) => ImapCoroutineState::Yielded(y),
                ImapCoroutineState::Complete(Ok(capability)) => {
                    let pre_authenticated = self.pre_authenticated;
                    ImapCoroutineState::Complete(
                        Ok(ImapGreetingOk { capability, pre_authenticated }),
                    )
                },
                ImapCoroutineState::Complete(Err(err)) => ImapCoroutineState::Complete(
                    Err(ImapGreetingGetError::Capability(err)),
                ),
            };
        }
        ImapCoroutineState::Complete(
            Ok(
                ImapGreetingOk {
                    capability: greeting.capability,
                    pre_authenticated: self.pre_authenticated,
                },
            ),
        )
    }
}

impl ImapCoroutine for ImapGreetingGet {
    type Yield = ImapYield;

    type Return = Result<ImapGreetingOk, ImapGreetingGetError>;

    fn resume(&mut self, fragmentizer: &mut Fragmentizer, arg: Option<&[u8]>) -> (step:
        ImapCoroutineState<ImapYield, Result<ImapGreetingOk, ImapGreetingGetError>>)
        ensures
            old(self)@.steps(
                framing(*old(fragmentizer)),
                arg_view(arg),
                (final(self)@, framing(*final(fragmentizer))),
                step_view(step),
            ),
    {
        if let State::Capability(capability) = &mut self.state {
            return match capability.resume(fragmentizer, arg) {
                ImapCoroutineState::Yielded(y) => ImapCoroutineState::Yielded(y),
                ImapCoroutineState::Complete(Ok(capability)) => {
                    let pre_authenticated = self.pre_authenticated;
                    ImapCoroutineState::Complete(
                        Ok(ImapGreetingOk { capability, pre_authenticated }),
                    )
                },
                ImapCoroutineState::Complete(Err(err)) => ImapCoroutineState::Complete(
                    Err(ImapGreetingGetError::Capability(err)),
                ),
            };
        }
        let bytes = match arg {
            None => {
                return ImapCoroutineState::Yielded(ImapYield::WantsRead);
            },
            Some(bytes) => bytes,
        };
        if bytes.len() == 0 {
            return ImapCoroutineState::Complete(Err(ImapGreetingGetError::Eof));
        }
        enqueue_bytes(fragmentizer, bytes);
        if !advance(fragmentizer) {
            return ImapCoroutineState::Yielded(ImapYield::WantsRead);
        }
        let greeting = match decode_greeting(fragmentizer) {
            Ok(greeting) => greeting,
            Err(err) => {
                let failure = Self::failed(err, message_bytes(fragmentizer));
                return ImapCoroutineState::Complete(Err(failure));
            },
        };
        self.greeted(greeting, fragmentizer)
    }
}

} // verus!
