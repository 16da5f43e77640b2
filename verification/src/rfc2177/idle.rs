//! IMAP IDLE coroutine yielding mailbox change events.

use std::sync::atomic::{AtomicBool, Ordering};
use std::sync::Arc;
use std::time::{Duration, Instant};

use imap_codec::fragmentizer::Fragmentizer;
use imap_codec::imap_types;
use imap_codec::imap_types::secret::Secret;
use vstd::prelude::*;

use crate::command::{
    done_line, encode_bare, encode_idle_done, generate_tag, new_tag_generator, BareCommand,
    FragmentView,
};
use crate::coroutine::{arg_view, ImapCoroutine, ImapCoroutineState, ImapYield, YieldView};
use crate::framing::{enqueue_bytes, framing, Framing};
use crate::outcome::{judge, verdict, FailureView, Refusal};
use crate::response::{DataView, ServerData, StatusBody, StatusKind, StatusView};
use crate::send::{
    begins_bare, concealed, data_views, drain, first_step_of_bare, parts_of, starts_bare,
    status_views, ImapSend, ImapSendError, ImapSendOutput, OutputView, SendErrorView, SendState,
};

verus! {

/// Declares std's `Instant`.
#[verifier::external_type_specification]
#[verifier::external_body]
pub struct ExInstant(Instant);

/// The length of a duration in nanoseconds.
pub uninterp spec fn nanoseconds(duration: Duration) -> u128;

/// `Duration::as_nanos`: the length of a duration in nanoseconds.
pub assume_specification[ Duration::as_nanos ](duration: &Duration) -> (count: u128)
    ensures
        count == nanoseconds(*duration),
;

/// `Duration::from_secs`: the duration of that many seconds.
pub assume_specification[ Duration::from_secs ](secs: u64) -> (duration: Duration)
    ensures
        nanoseconds(duration) == secs * 1_000_000_000,
;

/// `Instant::now`: the current time.
pub assume_specification[ Instant::now ]() -> Instant;

/// `Instant::elapsed`: depends on the current time.
pub assume_specification[ Instant::elapsed ](instant: &Instant) -> Duration;

/// Refresh interval in seconds, kept under the 29-minute RFC 2177 §3 cap.
pub const IDLE_DEFAULT_TIMEOUT_SECS: u64 = 29;

/// Failure causes during the IMAP IDLE flow.
#[derive(Clone, Debug)]
pub enum ImapIdleError {
    /// The server rejected the command with a NO response.
    No(String),
    /// The server rejected the command with a BAD response.
    Bad(String),
    /// The server closed the connection with a BYE response.
    Bye(String),
    /// The server returned a tagged response before the continuation
    /// request.
    UnexpectedTagged,
    /// The server did not send the expected continuation request.
    ExpectedContinuationRequest,
    /// The server did not return a tagged response to DONE.
    MissingTagged,
    /// The stream ended.
    Eof,
    /// A message is not a valid response.
    DecodingFailure(Secret<Vec<u8>>),
    /// A message was poisoned.
    MessageIsPoisoned(Secret<Vec<u8>>),
    /// A message exceeds the size limit.
    MessageTooLong(Secret<Vec<u8>>),
    /// The underlying exchange failed.
    Send(ImapSendError),
}

impl View for ImapIdleError {
    type V = FailureView;

    open spec fn view(&self) -> FailureView {
        match *self {
            ImapIdleError::No(text) => FailureView::No(text@),
            ImapIdleError::Bad(text) => FailureView::Bad(text@),
            ImapIdleError::Bye(text) => FailureView::Bye(text@),
            ImapIdleError::UnexpectedTagged => FailureView::UnexpectedTagged,
            ImapIdleError::ExpectedContinuationRequest => FailureView::ExpectedContinuationRequest,
            ImapIdleError::MissingTagged => FailureView::MissingTagged,
            ImapIdleError::Eof => FailureView::Eof,
            ImapIdleError::DecodingFailure(bytes) => FailureView::DecodingFailure(
                concealed(bytes),
            ),
            ImapIdleError::MessageIsPoisoned(bytes) => FailureView::MessageIsPoisoned(
                concealed(bytes),
            ),
            ImapIdleError::MessageTooLong(bytes) => FailureView::MessageTooLong(concealed(bytes)),
            ImapIdleError::Send(err) => FailureView::Send(err@),
        }
    }
}

/// Batch of unilateral untagged responses received during an IDLE.
#[derive(Debug)]
pub struct ImapIdleEvent {
    /// Untagged status lines, in order.
    pub untagged: Vec<StatusBody>,
    /// Untagged data, in order.
    pub data: Vec<ServerData>,
}

/// Yield variants from the IDLE coroutine.
#[derive(Debug)]
pub enum ImapIdleYield {
    /// The caller reads from its stream and resumes with the bytes.
    WantsRead,
    /// The caller writes the given bytes to its stream and resumes.
    WantsWrite(Vec<u8>),
    /// The mailbox changed.
    Event(ImapIdleEvent),
}

/// Model of [`ImapIdleYield`].
pub enum IdleYieldView {
    WantsRead,
    WantsWrite(Seq<u8>),
    Event { untagged: Seq<StatusView>, data: Seq<DataView> },
}

impl View for ImapIdleYield {
    type V = IdleYieldView;

    open spec fn view(&self) -> IdleYieldView {
        match *self {
            ImapIdleYield::WantsRead => IdleYieldView::WantsRead,
            ImapIdleYield::WantsWrite(bytes) => IdleYieldView::WantsWrite(bytes@),
            ImapIdleYield::Event(event) => IdleYieldView::Event {
                untagged: status_views(event.untagged@),
                data: data_views(event.data@),
            },
        }
    }
}

impl vstd::std_specs::convert::FromSpecImpl<ImapYield> for ImapIdleYield {
    open spec fn obeys_from_spec() -> bool {
        true
    }

    open spec fn from_spec(y: ImapYield) -> Self {
        match y {
            ImapYield::WantsRead => ImapIdleYield::WantsRead,
            ImapYield::WantsWrite(bytes) => ImapIdleYield::WantsWrite(bytes),
        }
    }
}

impl From<ImapYield> for ImapIdleYield {
    fn from(y: ImapYield) -> Self {
        match y {
            ImapYield::WantsRead => ImapIdleYield::WantsRead,
            ImapYield::WantsWrite(bytes) => ImapIdleYield::WantsWrite(bytes),
        }
    }
}

/// What is handed on of the exchange below.
pub open spec fn handed_on(y: YieldView) -> IdleYieldView {
    match y {
        YieldView::WantsRead => IdleYieldView::WantsRead,
        YieldView::WantsWrite(bytes) => IdleYieldView::WantsWrite(bytes),
    }
}

/// Options for [`ImapIdle::new`].
#[derive(Debug)]
pub struct ImapIdleOptions {
    /// Refresh interval; defaults to [`IDLE_DEFAULT_TIMEOUT_SECS`]
    /// seconds.
    pub timeout: Option<Duration>,
}

impl Default for ImapIdleOptions {
    fn default() -> (opts: Self)
        ensures
            opts.timeout is None,
    {
        ImapIdleOptions { timeout: None }
    }
}

/// Why IDLE was not granted, given everything the server answered to it.
pub open spec fn not_granted(output: OutputView) -> Option<FailureView> {
    match output.bye {
        Some(text) => Some(FailureView::Bye(text)),
        None => match output.tagged {
            Some(status) => Some(
                match status.kind {
                    StatusKind::Success => FailureView::UnexpectedTagged,
                    StatusKind::No => FailureView::No(status.text),
                    StatusKind::Bad => FailureView::Bad(status.text),
                },
            ),
            None => if output.continuation_request {
                None
            } else {
                Some(FailureView::ExpectedContinuationRequest)
            },
        },
    }
}

/// Failures while reading events, as those of this coroutine.
pub open spec fn reading_failure(err: SendErrorView) -> FailureView {
    match err {
        SendErrorView::Eof => FailureView::Eof,
        SendErrorView::DecodingFailure(message) => FailureView::DecodingFailure(message),
        SendErrorView::MessageIsPoisoned(message) => FailureView::MessageIsPoisoned(message),
        SendErrorView::MessageTooLong(message) => FailureView::MessageTooLong(message),
    }
}

/// Where the coroutine stands.
pub enum IdlePhase {
    /// IDLE is sent, and the continuation request awaited.
    Idle(SendState),
    /// Events are read.
    Read,
    /// DONE is sent, and the completion awaited.
    Done(SendState),
}

/// State of [`ImapIdle`].
pub struct IdleState {
    pub phase: IdlePhase,
    /// Whether the refresh interval is running.
    pub timed: bool,
}

/// What a step of [`ImapIdle`] returns.
pub type IdleResult = ImapCoroutineState<IdleYieldView, Result<(), FailureView>>;

impl IdleState {
    /// The state with the refresh interval running.
    pub open spec fn armed(self) -> IdleState {
        IdleState { timed: true, ..self }
    }

    pub open spec fn yields(self, y: IdleYieldView, after: IdleState, result: IdleResult) -> bool {
        &&& after == self
        &&& result == ImapCoroutineState::<_, Result<(), FailureView>>::Yielded(y)
    }

    pub open spec fn ends(
        self,
        outcome: Result<(), FailureView>,
        after: IdleState,
        result: IdleResult,
    ) -> bool {
        &&& after == self
        &&& result == ImapCoroutineState::<IdleYieldView, _>::Complete(outcome)
    }

    /// Reads events, unless it is time to stop.
    pub open spec fn read(
        self,
        framing: Framing,
        arg: Option<Seq<u8>>,
        stop: bool,
        after: (IdleState, Framing),
        result: IdleResult,
    ) -> bool {
        if stop {
            &&& after.1 == framing
            &&& IdleState { phase: IdlePhase::Done(SendState::receive()), ..self }.yields(
                IdleYieldView::WantsWrite(done_line()),
                after.0,
                result,
            )
        } else {
            let state = IdleState { phase: IdlePhase::Read, ..self };
            match arg {
                None => {
                    &&& after.1 == framing
                    &&& state.yields(IdleYieldView::WantsRead, after.0, result)
                },
                Some(bytes) => if bytes.len() == 0 {
                    &&& after.1 == framing
                    &&& state.ends(Err(FailureView::Eof), after.0, result)
                } else {
                    let drained = drain(OutputView::empty(), framing.enqueue(bytes), false);
                    &&& after.1 == drained.framing
                    &&& match drained.failure {
                        Some(err) => state.ends(Err(reading_failure(err)), after.0, result),
                        None => state.yields(
                            IdleYieldView::Event {
                                untagged: drained.output.untagged,
                                data: drained.output.data,
                            },
                            after.0,
                            result,
                        ),
                    }
                },
            }
        }
    }

    /// IDLE is granted or not. Responses that came along with the
    /// continuation request are an event of their own.
    pub open spec fn answered(
        self,
        output: OutputView,
        framing: Framing,
        stop: bool,
        after: (IdleState, Framing),
        result: IdleResult,
    ) -> bool {
        match not_granted(output) {
            Some(err) => {
                &&& after.1 == framing
                &&& self.ends(Err(err), after.0, result)
            },
            None => if output.data.len() > 0 || output.untagged.len() > 0 {
                &&& after.1 == framing
                &&& IdleState { phase: IdlePhase::Read, ..self }.yields(
                    IdleYieldView::Event { untagged: output.untagged, data: output.data },
                    after.0,
                    result,
                )
            } else {
                self.read(framing, None, stop, after, result)
            },
        }
    }

    /// DONE is completed: the end, or a new IDLE when the refresh interval
    /// is over.
    pub open spec fn completed(
        self,
        output: OutputView,
        timed_out: bool,
        after: IdleState,
        result: IdleResult,
    ) -> bool {
        let state = if output.bye is None && output.tagged is Some {
            IdleState { timed: false, ..self }
        } else {
            self
        };
        match verdict(output) {
            Err(err) => state.ends(Err(err), after, result),
            Ok(_) => if timed_out {
                &&& after.phase matches IdlePhase::Idle(send)
                &&& after == (IdleState { phase: IdlePhase::Idle(send), ..state })
                &&& exists|y: YieldView| #[trigger]
                    begins_bare(send, y, BareCommand::Idle) && result == ImapCoroutineState::<
                        _,
                        Result<(), FailureView>,
                    >::Yielded(handed_on(y))
            } else {
                state.ends(Ok(()), after, result)
            },
        }
    }

    /// What a step leads to, when `done` says whether the caller wants to
    /// stop and `timed_out` whether the refresh interval is over. It is
    /// determined but for the tag of a new IDLE.
    pub open spec fn steps(
        self,
        framing: Framing,
        arg: Option<Seq<u8>>,
        done: bool,
        timed_out: bool,
        after: (IdleState, Framing),
        result: IdleResult,
    ) -> bool {
        match self.phase {
            IdlePhase::Idle(send) => {
                let inner = send.resume(framing, arg);
                let state = IdleState { phase: IdlePhase::Idle(inner.state), ..self };
                match inner.result {
                    ImapCoroutineState::Yielded(y) => {
                        &&& after.1 == inner.framing
                        &&& state.yields(handed_on(y), after.0, result)
                    },
                    ImapCoroutineState::Complete(Err(err)) => {
                        &&& after.1 == inner.framing
                        &&& state.ends(Err(FailureView::Send(err)), after.0, result)
                    },
                    ImapCoroutineState::Complete(Ok(output)) => state.answered(
                        output,
                        inner.framing,
                        done || timed_out,
                        after,
                        result,
                    ),
                }
            },
            IdlePhase::Read => self.read(framing, arg, done || timed_out, after, result),
            IdlePhase::Done(send) => {
                let inner = send.resume(framing, arg);
                let state = IdleState { phase: IdlePhase::Done(inner.state), ..self };
                &&& after.1 == inner.framing
                &&& match inner.result {
                    ImapCoroutineState::Yielded(y) => state.yields(handed_on(y), after.0, result),
                    ImapCoroutineState::Complete(Err(err)) => state.ends(
                        Err(FailureView::Send(err)),
                        after.0,
                        result,
                    ),
                    ImapCoroutineState::Complete(Ok(output)) => state.completed(
                        output,
                        timed_out,
                        after.0,
                        result,
                    ),
                }
            },
        }
    }
}

/// An IDLE ends well only once the server completed its DONE.
pub proof fn idle_ends_with_done(
    state: IdleState,
    framing: Framing,
    arg: Option<Seq<u8>>,
    done: bool,
    timed_out: bool,
    after: (IdleState, Framing),
    result: IdleResult,
)
    requires
        state.steps(framing, arg, done, timed_out, after, result),
        result == ImapCoroutineState::<IdleYieldView, _>::Complete(Ok::<_, FailureView>(())),
    ensures
        state.phase matches IdlePhase::Done(send) && {
            &&& send.resume(framing, arg).result matches ImapCoroutineState::Complete(Ok(output))
            &&& verdict(output) is Ok
        },
        !timed_out,
{
}

/// Once the caller wants to stop, or the refresh interval is over, the
/// next step writes DONE, whatever was read, and the completion of the
/// command is awaited.
pub proof fn stopping_says_done(
    state: IdleState,
    framing: Framing,
    arg: Option<Seq<u8>>,
    done: bool,
    timed_out: bool,
    after: (IdleState, Framing),
    result: IdleResult,
)
    requires
        state.phase is Read,
        done || timed_out,
        state.steps(framing, arg, done, timed_out, after, result),
    ensures
        result == ImapCoroutineState::<_, Result<(), FailureView>>::Yielded(
            IdleYieldView::WantsWrite(done_line()),
        ),
        after.0.phase == IdlePhase::Done(SendState::receive()),
        after.1 == framing,
{
}

/// While nothing stops it, an IDLE goes on reading: a step in between
/// yields an event with what was read, or asks for more, and fails only
/// at the end of the stream or on what cannot be read.
pub proof fn idling_goes_on(
    state: IdleState,
    framing: Framing,
    bytes: Seq<u8>,
    after: (IdleState, Framing),
    result: IdleResult,
)
    requires
        state.phase is Read,
        bytes.len() > 0,
        state.steps(framing, Some(bytes), false, false, after, result),
    ensures
        ({
            let drained = drain(OutputView::empty(), framing.enqueue(bytes), false);
            &&& after == (state, drained.framing)
            &&& match drained.failure {
                None => result == ImapCoroutineState::<_, Result<(), FailureView>>::Yielded(
                    IdleYieldView::Event {
                        untagged: drained.output.untagged,
                        data: drained.output.data,
                    },
                ),
                Some(err) => result == ImapCoroutineState::<IdleYieldView, _>::Complete(
                    Err::<(), _>(reading_failure(err)),
                ),
            }
        }),
{
}

pub open spec fn idle_result_view(
    result: ImapCoroutineState<ImapIdleYield, Result<(), ImapIdleError>>,
) -> IdleResult {
    match result {
        ImapCoroutineState::Yielded(y) => ImapCoroutineState::Yielded(y@),
        ImapCoroutineState::Complete(Ok(_)) => ImapCoroutineState::Complete(Ok(())),
        ImapCoroutineState::Complete(Err(err)) => ImapCoroutineState::Complete(Err(err@)),
    }
}

/// Whether `done` can be what the flag says when it is looked at.
pub open spec fn flag_says(flag: Arc<AtomicBool>, done: bool) -> bool {
    call_ensures(AtomicBool::load, (&*flag, Ordering::SeqCst), done)
}

/// What the flag says is what loading it gives.
pub proof fn flag_is_loaded(flag: Arc<AtomicBool>, done: bool)
    requires
        flag_says(flag, done),
    ensures
        call_ensures(AtomicBool::load, (&*flag, Ordering::SeqCst), done),
{
}

/// Where the coroutine stands.
enum State {
    Idle(ImapSend),
    Read,
    Done(ImapSend),
}

/// I/O-free IMAP IDLE coroutine yielding mailbox change events.
pub struct ImapIdle {
    tag: imap_types::core::TagGenerator,
    state: State,
    done: Arc<AtomicBool>,
    opts: ImapIdleOptions,
    timer: Option<Instant>,
}

impl View for ImapIdle {
    type V = IdleState;

    closed spec fn view(&self) -> IdleState {
        IdleState {
            phase: match self.state {
                State::Idle(send) => IdlePhase::Idle(send@),
                State::Read => IdlePhase::Read,
                State::Done(send) => IdlePhase::Done(send@),
            },
            timed: self.timer is Some,
        }
    }
}

impl ImapIdle {
    /// Creates a coroutine that idles until `done` is `true`: it then
    /// winds down with a clean `DONE`.
    pub fn new(done: Arc<AtomicBool>, opts: ImapIdleOptions) -> (idle: Self)
        ensures
            idle@.phase matches IdlePhase::Idle(send) && starts_bare(send, BareCommand::Idle),
            !idle@.timed,
            idle.started() is None,
            idle.interval() == match opts.timeout {
                Some(timeout) => nanoseconds(timeout) as int,
                None => IDLE_DEFAULT_TIMEOUT_SECS * 1_000_000_000,
            },
            opts.timeout is None ==> idle.interval() == 29_000_000_000,
            idle.flag() == done,
    {
        let mut tag = new_tag_generator();
        let first = generate_tag(&mut tag);
        let send = ImapSend::new(encode_bare(first, BareCommand::Idle));
        ImapIdle { tag, state: State::Idle(send), done, opts, timer: None }
    }

    /// The refresh interval.
    pub fn timeout(&self) -> (timeout: Duration)
        ensures
            nanoseconds(timeout) == self.interval(),
    {
        match self.opts.timeout {
            Some(timeout) => timeout,
            None => Duration::from_secs(IDLE_DEFAULT_TIMEOUT_SECS),
        }
    }

    /// The refresh interval in nanoseconds.
    pub closed spec fn interval(&self) -> int {
        match self.opts.timeout {
            Some(timeout) => nanoseconds(timeout) as int,
            None => IDLE_DEFAULT_TIMEOUT_SECS * 1_000_000_000,
        }
    }

    /// The flag by which the caller stops the coroutine.
    pub closed spec fn flag(&self) -> Arc<AtomicBool> {
        self.done
    }

    /// When the refresh interval was started, while it is running.
    pub closed spec fn started(&self) -> Option<Instant> {
        self.timer
    }

    /// Whether the refresh interval is over after `elapsed`.
    pub open spec fn over_after(&self, elapsed: Duration) -> bool {
        nanoseconds(elapsed) >= self.interval()
    }

    /// Whether the refresh interval is over after `elapsed`.
    pub fn is_over(&self, elapsed: Duration) -> (over: bool)
        ensures
            over == self.over_after(elapsed),
    {
        elapsed.as_nanos() >= self.timeout().as_nanos()
    }

    /// Whether the refresh interval is over: it is running, and what
    /// elapsed of it is no shorter than it. How much elapsed depends on
    /// the time; an interval of zero is over as soon as it is running.
    fn timed_out(&self) -> (over: bool)
        ensures
            !self@.timed ==> !over,
            self@.timed ==> exists|elapsed: Duration| over == #[trigger] self.over_after(elapsed),
            self@.timed == (self.started() is Some),
            self.started() matches Some(start) ==> exists|elapsed: Duration|
                over == #[trigger] self.over_after(elapsed) && call_ensures(
                    Instant::elapsed,
                    (&start,),
                    elapsed,
                ),
    {
        match &self.timer {
            Some(timer) => self.is_over(timer.elapsed()),
            None => false,
        }
    }

    fn refused(refusal: Refusal) -> (err: ImapIdleError)
        ensures
            err@ == refusal@,
    {
        match refusal {
            Refusal::No(text) => ImapIdleError::No(text),
            Refusal::Bad(text) => ImapIdleError::Bad(text),
            Refusal::Bye(text) => ImapIdleError::Bye(text),
            Refusal::MissingTagged => ImapIdleError::MissingTagged,
        }
    }

    fn reading_failed(err: ImapSendError) -> (failure: ImapIdleError)
        ensures
            failure@ == reading_failure(err@),
    {
        match err {
            ImapSendError::Eof => ImapIdleError::Eof,
            ImapSendError::DecodingFailure(message) => ImapIdleError::DecodingFailure(message),
            ImapSendError::MessageIsPoisoned(message) => ImapIdleError::MessageIsPoisoned(message),
            ImapSendError::MessageTooLong(message) => ImapIdleError::MessageTooLong(message),
        }
    }

    /// Reads events, unless it is time to stop.
    fn read(
        &mut self,
        fragmentizer: &mut Fragmentizer,
        arg: Option<&[u8]>,
        stop: bool,
    ) -> (result: ImapCoroutineState<ImapIdleYield, Result<(), ImapIdleError>>)
        ensures
            old(self)@.read(
                framing(*old(fragmentizer)),
                arg_view(arg),
                stop,
                (final(self)@, framing(*final(fragmentizer))),
                idle_result_view(result),
            ),
            final(self).interval() == old(self).interval(),
            final(self).flag() == old(self).flag(),
            final(self).started() == if final(self)@.timed {
                old(self).started()
            } else {
                None
            },
    {
        if stop {
            let mut send = ImapSend::new(encode_idle_done());
            proof {
                let fragments = seq![FragmentView::Line(done_line())];
                assert(fragments.drop_last() =~= Seq::empty());
                assert(parts_of(fragments.drop_last()) =~= seq![Seq::empty()]);
                assert(parts_of(fragments) =~= seq![done_line()]);
                assert(send@.parts.skip(1) =~= Seq::empty());
            }
            let step = send.resume(fragmentizer, None);
            self.state = State::Done(send);
            return match step {
                ImapCoroutineState::Yielded(y) => ImapCoroutineState::Yielded(
                    ImapIdleYield::from(y),
                ),
                ImapCoroutineState::Complete(Ok(_)) => ImapCoroutineState::Complete(Ok(())),
                ImapCoroutineState::Complete(Err(err)) => ImapCoroutineState::Complete(
                    Err(ImapIdleError::Send(err)),
                ),
            };
        }
        self.state = State::Read;
        let bytes = match arg {
            None => {
                return ImapCoroutineState::Yielded(ImapIdleYield::WantsRead);
            },
            Some(bytes) => bytes,
        };
        if bytes.len() == 0 {
            return ImapCoroutineState::Complete(Err(ImapIdleError::Eof));
        }
        enqueue_bytes(fragmentizer, bytes);
        let mut output = ImapSendOutput::new();
        match output.drain(fragmentizer, false) {
            Ok(()) => ImapCoroutineState::Yielded(
                ImapIdleYield::Event(
                    ImapIdleEvent { untagged: output.untagged, data: output.data },
                ),
            ),
            Err(err) => ImapCoroutineState::Complete(Err(Self::reading_failed(err))),
        }
    }

    /// IDLE is granted or not.
    pub fn answered(
        &mut self,
        output: ImapSendOutput,
        fragmentizer: &mut Fragmentizer,
        stop: bool,
    ) -> (result: ImapCoroutineState<ImapIdleYield, Result<(), ImapIdleError>>)
        ensures
            old(self)@.answered(
                output@,
                framing(*old(fragmentizer)),
                stop,
                (final(self)@, framing(*final(fragmentizer))),
                idle_result_view(result),
            ),
            final(self).interval() == old(self).interval(),
            final(self).flag() == old(self).flag(),
            final(self).started() == if final(self)@.timed {
                old(self).started()
            } else {
                None
            },
    {
        if let Some(text) = output.bye {
            return ImapCoroutineState::Complete(Err(ImapIdleError::Bye(text)));
        }
        if let Some(status) = output.tagged {
            let err = match status.kind {
                StatusKind::Success => ImapIdleError::UnexpectedTagged,
                StatusKind::No => ImapIdleError::No(status.text),
                StatusKind::Bad => ImapIdleError::Bad(status.text),
            };
            return ImapCoroutineState::Complete(Err(err));
        }
        if !output.continuation_request {
            return ImapCoroutineState::Complete(Err(ImapIdleError::ExpectedContinuationRequest));
        }
        // Servers may pack untagged responses into the same frame as
        // `+ idling`; surface them immediately.
        if output.data.len() > 0 || output.untagged.len() > 0 {
            self.state = State::Read;
            return ImapCoroutineState::Yielded(
                ImapIdleYield::Event(
                    ImapIdleEvent { untagged: output.untagged, data: output.data },
                ),
            );
        }
        self.read(fragmentizer, None, stop)
    }

    /// DONE is completed.
    pub fn completed(
        &mut self,
        output: ImapSendOutput,
        fragmentizer: &mut Fragmentizer,
        timed_out: bool,
    ) -> (result: ImapCoroutineState<ImapIdleYield, Result<(), ImapIdleError>>)
        ensures
            old(self)@.completed(output@, timed_out, final(self)@, idle_result_view(result)),
            framing(*final(fragmentizer)) == framing(*old(fragmentizer)),
            final(self).interval() == old(self).interval(),
            final(self).flag() == old(self).flag(),
            final(self).started() == if final(self)@.timed {
                old(self).started()
            } else {
                None
            },
    {
        if output.bye.is_none() && output.tagged.is_some() {
            self.timer = None;
        }
        match judge(output.bye, output.tagged) {
            Ok(_) => {},
            Err(refusal) => {
                return ImapCoroutineState::Complete(Err(Self::refused(refusal)));
            },
        }
        if !timed_out {
            return ImapCoroutineState::Complete(Ok(()));
        }
        // The refresh interval is over: start a new IDLE.
        let tag = generate_tag(&mut self.tag);
        let mut send = ImapSend::new(encode_bare(tag, BareCommand::Idle));
        proof {
            first_step_of_bare(send@, BareCommand::Idle, framing(*fragmentizer), None);
        }
        let step = send.resume(fragmentizer, None);
        self.state = State::Idle(send);
        match step {
            ImapCoroutineState::Yielded(y) => {
                assert(begins_bare(send@, y@, BareCommand::Idle));
                ImapCoroutineState::Yielded(ImapIdleYield::from(y))
            },
            ImapCoroutineState::Complete(Ok(_)) => ImapCoroutineState::Complete(Ok(())),
            ImapCoroutineState::Complete(Err(err)) => ImapCoroutineState::Complete(
                Err(ImapIdleError::Send(err)),
            ),
        }
    }

    /// Advances the coroutine, when `done` says whether the caller wants
    /// to stop and `timed_out` whether the refresh interval is over.
    pub fn advance(
        &mut self,
        fragmentizer: &mut Fragmentizer,
        arg: Option<&[u8]>,
        done: bool,
        timed_out: bool,
    ) -> (result: ImapCoroutineState<ImapIdleYield, Result<(), ImapIdleError>>)
        ensures
            old(self)@.steps(
                framing(*old(fragmentizer)),
                arg_view(arg),
                done,
                timed_out,
                (final(self)@, framing(*final(fragmentizer))),
                idle_result_view(result),
            ),
            final(self).interval() == old(self).interval(),
            final(self).flag() == old(self).flag(),
            final(self).started() == if final(self)@.timed {
                old(self).started()
            } else {
                None
            },
    {
        match &mut self.state {
            State::Idle(send) => match send.resume(fragmentizer, arg) {
                ImapCoroutineState::Yielded(y) => ImapCoroutineState::Yielded(
                    ImapIdleYield::from(y),
                ),
                ImapCoroutineState::Complete(Err(err)) => ImapCoroutineState::Complete(
                    Err(ImapIdleError::Send(err)),
                ),
                ImapCoroutineState::Complete(Ok(output)) => self.answered(
                    output,
                    fragmentizer,
                    done || timed_out,
                ),
            },
            State::Read => self.read(fragmentizer, arg, done || timed_out),
            State::Done(send) => match send.resume(fragmentizer, arg) {
                ImapCoroutineState::Yielded(y) => ImapCoroutineState::Yielded(
                    ImapIdleYield::from(y),
                ),
                ImapCoroutineState::Complete(Err(err)) => ImapCoroutineState::Complete(
                    Err(ImapIdleError::Send(err)),
                ),
                ImapCoroutineState::Complete(Ok(output)) => self.completed(
                    output,
                    fragmentizer,
                    timed_out,
                ),
            },
        }
    }
}

impl ImapCoroutine for ImapIdle {
    type Yield = ImapIdleYield;

    type Return = Result<(), ImapIdleError>;

    /// What happens depends on what the caller's flag says and on how much
    /// of the refresh interval elapsed: see [`ImapIdle::advance`] for each
    /// case.
    fn resume(&mut self, fragmentizer: &mut Fragmentizer, arg: Option<&[u8]>) -> (result:
        ImapCoroutineState<ImapIdleYield, Result<(), ImapIdleError>>)
        ensures
            exists|done: bool, start: Instant, elapsed: Duration|
                {
                    &&& #[trigger] old(self)@.armed().steps(
                        framing(*old(fragmentizer)),
                        arg_view(arg),
                        done,
                        old(self).over_after(elapsed),
                        (final(self)@, framing(*final(fragmentizer))),
                        idle_result_view(result),
                    )
                    &&& old(self).over_after(elapsed) == (nanoseconds(elapsed) >= old(
                        self,
                    ).interval())
                    // The flag is the caller's.
                    &&& flag_says(old(self).flag(), done)
                    // The interval runs from the first step on, and what
                    // elapsed of it is measured in this step.
                    &&& match old(self).started() {
                        Some(instant) => start == instant,
                        None => call_ensures(Instant::now, (), start),
                    }
                    &&& #[trigger] call_ensures(Instant::elapsed, (&start,), elapsed)
                    &&& final(self).started() == if final(self)@.timed {
                        Some(start)
                    } else {
                        None
                    }
                },
            final(self).interval() == old(self).interval(),
            final(self).flag() == old(self).flag(),
    {
        if self.timer.is_none() {
            self.timer = Some(Instant::now());
        }
        let done = self.done.load(Ordering::SeqCst);
        let timed_out = self.timed_out();
        let ghost start = self.started()->0;
        let ghost elapsed = choose|elapsed: Duration|
            timed_out == #[trigger] self.over_after(elapsed) && call_ensures(
                Instant::elapsed,
                (&start,),
                elapsed,
            );
        let result = self.advance(fragmentizer, arg, done, timed_out);
        assert(old(self)@.armed().steps(
            framing(*old(fragmentizer)),
            arg_view(arg),
            done,
            old(self).over_after(elapsed),
            (self@, framing(*fragmentizer)),
            idle_result_view(result),
        ));
        result
    }
}

} // verus!
