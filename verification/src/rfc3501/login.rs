//! IMAP LOGIN coroutine. Unlike the SASL `AUTHENTICATE` mechanisms,
//! `LOGIN` is a single-shot command: the credentials travel in the clear
//! as IMAP strings on the command line, so the connection must be
//! TLS-protected. There is no SASL challenge and no initial-response
//! flow.

use imap_codec::fragmentizer::Fragmentizer;
use imap_codec::imap_types::response::Capability;
use vstd::prelude::*;

use crate::command::{encode_login, fresh_tag, is_sendable, BareCommand, CommandView};
use crate::coroutine::{arg_view, ImapCoroutine, ImapCoroutineState, ImapYield, YieldView};
use crate::framing::{framing, Framing};
use crate::outcome::{conclude, judge, step_view, verdict, FailureView, Refusal};
use crate::response::{
    parameters_view, CodeView, Parameters, ParametersView, ServerCode, ServerData,
};
use crate::rfc2971::id::{id_outcome, ImapServerId, ImapServerIdError, ImapServerIdOptions};
use crate::rfc3501::capability::{
    capabilities_view, capability_outcome, code_capabilities, data_capabilities, ImapCapabilityGet,
    ImapCapabilityGetError,
};
use crate::send::{
    begins, begins_bare, data_views, first_step_of, first_step_of_bare, starts, ImapSend,
    ImapSendError, ImapSendOutput, OutputView, SendState,
};

verus! {

/// Failure causes during the IMAP LOGIN flow.
#[derive(Clone, Debug)]
pub enum ImapLoginError {
    /// The server rejected the command with a NO response.
    No(String),
    /// The server rejected the command with a BAD response.
    Bad(String),
    /// The server closed the connection with a BYE response.
    Bye(String),
    /// The server never answered with a tagged response.
    MissingTagged,
    /// The underlying exchange failed.
    Send(ImapSendError),
    /// The CAPABILITY round-trip failed.
    Capability(ImapCapabilityGetError),
    /// The ID round-trip failed.
    ServerId(ImapServerIdError),
}

impl View for ImapLoginError {
    type V = FailureView;

    open spec fn view(&self) -> FailureView {
        match *self {
            ImapLoginError::No(text) => FailureView::No(text@),
            ImapLoginError::Bad(text) => FailureView::Bad(text@),
            ImapLoginError::Bye(text) => FailureView::Bye(text@),
            ImapLoginError::MissingTagged => FailureView::MissingTagged,
            ImapLoginError::Send(err) => FailureView::Send(err@),
            ImapLoginError::Capability(err) => FailureView::Capability(Box::new(err@)),
            ImapLoginError::ServerId(err) => FailureView::ServerId(Box::new(err@)),
        }
    }
}

/// A user or a password that LOGIN cannot carry: one with a NUL, a
/// carriage return or a line feed.
#[derive(Clone, Debug)]
pub struct InvalidLoginCredentials;

/// Text that LOGIN can carry.
pub open spec fn is_credential(text: Seq<char>) -> bool {
    is_sendable(text) && forall|i: int|
        0 <= i < text.len() ==> #[trigger] text[i] != '\r' && text[i] != '\n'
}

/// Optional post-authentication round-trips.
#[derive(Debug)]
pub struct ImapLoginOptions {
    /// Ask for the capabilities when the server advertised none.
    pub ensure_capabilities: bool,
    /// Identify the client: `None` skips, `Some(empty)` sends `ID NIL`,
    /// `Some(params)` sends `ID (k v ...)`.
    pub auto_id: Option<Parameters>,
}

impl Default for ImapLoginOptions {
    fn default() -> (opts: Self)
        ensures
            opts.ensure_capabilities == false,
            opts.auto_id is None,
    {
        ImapLoginOptions { ensure_capabilities: false, auto_id: None }
    }
}

/// Where the coroutine stands.
pub enum LoginPhase {
    Send(SendState),
    Capability(SendState),
    Id(SendState),
}

/// State of [`ImapLogin`].
pub struct LoginState {
    pub phase: LoginPhase,
    /// The capabilities that the server advertised.
    pub observed: Seq<Capability<'static>>,
    pub ensure_capabilities: bool,
    pub auto_id: Option<ParametersView>,
}

/// What a step of [`ImapLogin`] returns.
pub type LoginResult = ImapCoroutineState<YieldView, Result<Seq<Capability<'static>>, FailureView>>;

/// The capabilities that the answer to LOGIN advertises: those of the
/// last CAPABILITY response, or else those of the completion.
pub open spec fn login_capabilities(code: Option<CodeView>, output: OutputView) -> Option<
    Seq<Capability<'static>>,
> {
    match data_capabilities(output.data) {
        Some(capabilities) => Some(capabilities),
        None => code_capabilities(code),
    }
}

/// What goes on the wire for the parameters: an empty list is sent as
/// none.
pub open spec fn wire_parameters(parameters: ParametersView) -> Option<ParametersView> {
    if parameters.len() == 0 {
        None
    } else {
        Some(parameters)
    }
}

impl LoginState {
    /// Once the capabilities are known, the client identifies itself
    /// where that is wanted; then the session is ready.
    pub open spec fn identify(self, after: LoginState, result: LoginResult) -> bool {
        match self.auto_id {
            Some(parameters) => {
                &&& after.phase matches LoginPhase::Id(send)
                &&& result matches ImapCoroutineState::Yielded(y)
                &&& begins(
                    send,
                    y,
                    CommandView::Id { parameters: wire_parameters(parameters) },
                )
                &&& after == (LoginState { phase: LoginPhase::Id(send), auto_id: None, ..self })
            },
            None => self.finish(after, result),
        }
    }

    /// The session is ready.
    pub open spec fn finish(self, after: LoginState, result: LoginResult) -> bool {
        &&& after == (LoginState { observed: Seq::empty(), ..self })
        &&& result == ImapCoroutineState::<YieldView, _>::Complete(
            Ok::<_, FailureView>(self.observed),
        )
    }

    /// The login is accepted: what follows depends on the options and on
    /// what the server advertised.
    pub open spec fn accepted(self, after: LoginState, result: LoginResult) -> bool {
        if self.ensure_capabilities && self.observed.len() == 0 {
            &&& after.phase matches LoginPhase::Capability(send)
            &&& result matches ImapCoroutineState::Yielded(y)
            &&& begins_bare(send, y, BareCommand::Capability)
            &&& after == (LoginState { phase: LoginPhase::Capability(send), ..self })
        } else {
            self.identify(after, result)
        }
    }

    pub open spec fn yields(self, y: YieldView, after: LoginState, result: LoginResult) -> bool {
        &&& after == self
        &&& result == ImapCoroutineState::<
            _,
            Result<Seq<Capability<'static>>, FailureView>,
        >::Yielded(y)
    }

    pub open spec fn fails(self, err: FailureView, after: LoginState, result: LoginResult) -> bool {
        &&& after == self
        &&& result == ImapCoroutineState::<YieldView, _>::Complete(
            Err::<Seq<Capability<'static>>, _>(err),
        )
    }

    /// What a step leads to. It is determined but for the tags of the
    /// commands that follow LOGIN.
    pub open spec fn steps(
        self,
        framing: Framing,
        arg: Option<Seq<u8>>,
        after: (LoginState, Framing),
        result: LoginResult,
    ) -> bool {
        match self.phase {
            LoginPhase::Send(send) => {
                let inner = send.resume(framing, arg);
                let state = LoginState { phase: LoginPhase::Send(inner.state), ..self };
                &&& after.1 == inner.framing
                &&& match inner.result {
                    ImapCoroutineState::Yielded(y) => state.yields(y, after.0, result),
                    ImapCoroutineState::Complete(Err(err)) => state.fails(
                        FailureView::Send(err),
                        after.0,
                        result,
                    ),
                    ImapCoroutineState::Complete(Ok(output)) => match verdict(output) {
                        Err(err) => state.fails(err, after.0, result),
                        Ok(status) => match login_capabilities(status.code, output) {
                            Some(observed) => LoginState { observed, ..state }.accepted(
                                after.0,
                                result,
                            ),
                            None => state.accepted(after.0, result),
                        },
                    },
                }
            },
            LoginPhase::Capability(send) => {
                let inner = send.resume(framing, arg);
                let state = LoginState { phase: LoginPhase::Capability(inner.state), ..self };
                &&& after.1 == inner.framing
                &&& match conclude(inner.result, |output: OutputView| capability_outcome(output)) {
                    ImapCoroutineState::Yielded(y) => state.yields(y, after.0, result),
                    ImapCoroutineState::Complete(Err(err)) => state.fails(
                        FailureView::Capability(Box::new(err)),
                        after.0,
                        result,
                    ),
                    ImapCoroutineState::Complete(Ok(observed)) => LoginState {
                        observed,
                        ..state
                    }.identify(after.0, result),
                }
            },
            LoginPhase::Id(send) => {
                let inner = send.resume(framing, arg);
                let state = LoginState { phase: LoginPhase::Id(inner.state), ..self };
                &&& after.1 == inner.framing
                &&& match conclude(inner.result, |output: OutputView| id_outcome(output)) {
                    ImapCoroutineState::Yielded(y) => state.yields(y, after.0, result),
                    ImapCoroutineState::Complete(Err(err)) => state.fails(
                        FailureView::ServerId(Box::new(err)),
                        after.0,
                        result,
                    ),
                    ImapCoroutineState::Complete(Ok(_)) => state.finish(after.0, result),
                }
            },
        }
    }
}

/// How the answers are split into reads does not matter.
pub proof fn reads_can_be_split(
    state: LoginState,
    framing: Framing,
    first: Seq<u8>,
    middle: (LoginState, Framing),
    second: Seq<u8>,
    after: (LoginState, Framing),
    result: LoginResult,
)
    requires
        first.len() > 0,
        second.len() > 0,
        state.steps(
            framing,
            Some(first),
            middle,
            ImapCoroutineState::Yielded(YieldView::WantsRead),
        ),
        middle.0.steps(middle.1, Some(second), after, result),
    ensures
        state.steps(framing, Some(first + second), after, result),
{
    let send = match state.phase {
        LoginPhase::Send(send) => send,
        LoginPhase::Capability(send) => send,
        LoginPhase::Id(send) => send,
    };
    crate::send::reads_can_be_split(send, framing, first, second);
}

/// A login is reported as such only once the server accepted it: while
/// LOGIN itself is answered, nothing but its completion leads on.
pub proof fn login_needs_the_server(
    state: LoginState,
    framing: Framing,
    arg: Option<Seq<u8>>,
    after: (LoginState, Framing),
    result: LoginResult,
)
    requires
        state.phase is Send,
        state.steps(framing, arg, after, result),
        !(after.0.phase is Send) || result matches ImapCoroutineState::Complete(Ok(_)),
    ensures
        state.phase matches LoginPhase::Send(send) && {
            &&& send.resume(framing, arg).result matches ImapCoroutineState::Complete(Ok(output))
            &&& verdict(output) is Ok
        },
{
}

/// Whether `text` is free of carriage returns and line feeds.
fn is_one_line(text: &str) -> (one_line: bool)
    ensures
        one_line == forall|i: int|
            0 <= i < text@.len() ==> #[trigger] text@[i] != '\r' && text@[i] != '\n',
{
    for c in it: text.chars()
        invariant
            it.seq() == text@,
            forall|i: int|
                0 <= i < it.index() ==> #[trigger] text@[i] != '\r' && text@[i] != '\n',
    {
        if c == '\r' || c == '\n' {
            assert(text@[it.index()] == c);
            return false;
        }
    }
    true
}

/// Where the coroutine stands.
enum State {
    Send(ImapSend),
    Capability(ImapCapabilityGet),
    Id(ImapServerId),
}

/// I/O-free coroutine for RFC 3501 `LOGIN`.
pub struct ImapLogin {
    state: State,
    observed: Vec<Capability<'static>>,
    opts: ImapLoginOptions,
}

impl View for ImapLogin {
    type V = LoginState;

    closed spec fn view(&self) -> LoginState {
        LoginState {
            phase: match self.state {
                State::Send(send) => LoginPhase::Send(send@),
                State::Capability(capability) => LoginPhase::Capability(capability@),
                State::Id(id) => LoginPhase::Id(id@),
            },
            observed: self.observed@,
            ensure_capabilities: self.opts.ensure_capabilities,
            auto_id: parameters_view(self.opts.auto_id),
        }
    }
}

impl ImapLogin {
    /// Creates a coroutine that logs in as `user`, under a fresh tag.
    /// Fails when `user` or `password` contains NUL, CR or LF.
    pub fn new(user: &str, password: &str, opts: ImapLoginOptions) -> (result: Result<
        Self,
        InvalidLoginCredentials,
    >)
        ensures
            match result {
                Ok(login) => {
                    &&& is_credential(user@)
                    &&& is_credential(password@)
                    &&& login@.phase matches LoginPhase::Send(send)
                    &&& starts(send, CommandView::Login { user: user@, password: password@ })
                    &&& login@ == (LoginState {
                        phase: LoginPhase::Send(send),
                        observed: Seq::empty(),
                        ensure_capabilities: opts.ensure_capabilities,
                        auto_id: parameters_view(opts.auto_id),
                    })
                },
                Err(_) => !is_credential(user@) || !is_credential(password@),
            },
    {
        if !is_one_line(user) || !is_one_line(password) {
            return Err(InvalidLoginCredentials);
        }
        match encode_login(fresh_tag(), user, password) {
            Ok(encoded) => {
                let login = ImapLogin {
                    state: State::Send(ImapSend::new(encoded)),
                    observed: Vec::new(),
                    opts,
                };
                assert(login@.observed =~= Seq::empty());
                Ok(login)
            },
            Err(_) => Err(InvalidLoginCredentials),
        }
    }

    fn refused(refusal: Refusal) -> (err: ImapLoginError)
        ensures
            err@ == refusal@,
    {
        match refusal {
            Refusal::No(text) => ImapLoginError::No(text),
            Refusal::Bad(text) => ImapLoginError::Bad(text),
            Refusal::Bye(text) => ImapLoginError::Bye(text),
            Refusal::MissingTagged => ImapLoginError::MissingTagged,
        }
    }

    /// Keeps what the answer to LOGIN advertises.
    pub fn observe(&mut self, output: ImapSendOutput) -> (result: Result<(), ImapLoginError>)
        ensures
            match verdict(output@) {
                Err(err) => final(self)@ == old(self)@ && result is Err && result->Err_0@ == err,
                Ok(status) => result is Ok && final(self)@ == match login_capabilities(
                    status.code,
                    output@,
                ) {
                    Some(observed) => LoginState { observed, ..old(self)@ },
                    None => old(self)@,
                },
            },
    {
        let status = match judge(output.bye, output.tagged) {
            Ok(status) => status,
            Err(refusal) => {
                return Err(Self::refused(refusal));
            },
        };
        let ghost listed = code_capabilities(status@.code);
        let mut found: Option<Vec<Capability<'static>>> = None;
        if let Some(ServerCode::Capability(capabilities)) = status.code {
            found = Some(capabilities);
        }
        let ghost views = data_views(output.data@);
        for data in it: output.data
            invariant
                it.seq() == output.data@,
                views == data_views(output.data@),
                capabilities_view(found) == match data_capabilities(views.take(it.index())) {
                    Some(capabilities) => Some(capabilities),
                    None => listed,
                },
        {
            proof {
                let seen = views.take(it.index() + 1);
                assert(seen.drop_last() =~= views.take(it.index()));
                assert(seen.last() == data@);
            }
            if let ServerData::Capability(capabilities) = data {
                found = Some(capabilities);
            }
        }
        assert(views.take(views.len() as int) =~= views);
        if let Some(capabilities) = found {
            self.observed = capabilities;
        }
        Ok(())
    }

    /// Identifies the client where that is wanted; else the session is
    /// ready.
    pub fn identify(&mut self, fragmentizer: &mut Fragmentizer) -> (step: ImapCoroutineState<
        ImapYield,
        Result<Vec<Capability<'static>>, ImapLoginError>,
    >)
        ensures
            old(self)@.identify(final(self)@, step_view(step)),
            framing(*final(fragmentizer)) == framing(*old(fragmentizer)),
    {
        if let Some(parameters) = self.opts.auto_id.take() {
            let parameters = if parameters.len() == 0 {
                None
            } else {
                Some(parameters)
            };
            let mut id = ImapServerId::new(ImapServerIdOptions { parameters });
            proof {
                first_step_of(
                    id@,
                    CommandView::Id { parameters: parameters_view(parameters) },
                    framing(*fragmentizer),
                    None,
                );
            }
            let step = id.resume(fragmentizer, None);
            self.state = State::Id(id);
            return match step {
                ImapCoroutineState::Yielded(y) => ImapCoroutineState::Yielded(y),
                ImapCoroutineState::Complete(Ok(_)) => self.finish(),
                ImapCoroutineState::Complete(Err(err)) => ImapCoroutineState::Complete(
                    Err(ImapLoginError::ServerId(err)),
                ),
            };
        }
        self.finish()
    }

    /// The session is ready.
    fn finish(&mut self) -> (step: ImapCoroutineState<
        ImapYield,
        Result<Vec<Capability<'static>>, ImapLoginError>,
    >)
        ensures
            old(self)@.finish(final(self)@, step_view(step)),
    {
        let mut observed: Vec<Capability<'static>> = Vec::new();
        std::mem::swap(&mut observed, &mut self.observed);
        assert(self@.observed =~= Seq::empty());
        ImapCoroutineState::Complete(Ok(observed))
    }

    /// Asks for the capabilities where that is wanted and needed, else
    /// goes on.
    pub fn accept(&mut self, fragmentizer: &mut Fragmentizer) -> (step: ImapCoroutineState<
        ImapYield,
        Result<Vec<Capability<'static>>, ImapLoginError>,
    >)
        ensures
            old(self)@.accepted(final(self)@, step_view(step)),
            framing(*final(fragmentizer)) == framing(*old(fragmentizer)),
    {
        if !self.opts.ensure_capabilities || self.observed.len() > 0 {
            return self.identify(fragmentizer);
        }
        let mut capability = ImapCapabilityGet::new();
        proof {
            first_step_of_bare(capability@, BareCommand::Capability, framing(*fragmentizer), None);
        }
        let step = capability.resume(fragmentizer, None);
        self.state = State::Capability(capability);
        match step {
            ImapCoroutineState::Yielded(y) => ImapCoroutineState::Yielded(y),
            ImapCoroutineState::Complete(Ok(observed)) => {
                self.observed = observed;
                self.identify(fragmentizer)
            },
            ImapCoroutineState::Complete(Err(err)) => ImapCoroutineState::Complete(
                Err(ImapLoginError::Capability(err)),
            ),
        }
    }
}

impl ImapCoroutine for ImapLogin {
    type Yield = ImapYield;

    type Return = Result<Vec<Capability<'static>>, ImapLoginError>;

    fn resume(&mut self, fragmentizer: &mut Fragmentizer, arg: Option<&[u8]>) -> (step:
        ImapCoroutineState<ImapYield, Result<Vec<Capability<'static>>, ImapLoginError>>)
        ensures
            old(self)@.steps(
                framing(*old(fragmentizer)),
                arg_view(arg),
                (final(self)@, framing(*final(fragmentizer))),
                step_view(step),
            ),
    {
        match &mut self.state {
            State::Send(send) => match send.resume(fragmentizer, arg) {
                ImapCoroutineState::Yielded(y) => ImapCoroutineState::Yielded(y),
                ImapCoroutineState::Complete(Err(err)) => ImapCoroutineState::Complete(
                    Err(ImapLoginError::Send(err)),
                ),
                ImapCoroutineState::Complete(Ok(output)) => match self.observe(output) {
                    Ok(()) => self.accept(fragmentizer),
                    Err(err) => ImapCoroutineState::Complete(Err(err)),
                },
            },
            State::Capability(capability) => match capability.resume(fragmentizer, arg) {
                ImapCoroutineState::Yielded(y) => ImapCoroutineState::Yielded(y),
                ImapCoroutineState::Complete(Err(err)) => ImapCoroutineState::Complete(
                    Err(ImapLoginError::Capability(err)),
                ),
                ImapCoroutineState::Complete(Ok(observed)) => {
                    self.observed = observed;
                    self.identify(fragmentizer)
                },
            },
            State::Id(id) => match id.resume(fragmentizer, arg) {
                ImapCoroutineState::Yielded(y) => ImapCoroutineState::Yielded(y),
                ImapCoroutineState::Complete(Err(err)) => ImapCoroutineState::Complete(
                    Err(ImapLoginError::ServerId(err)),
                ),
                ImapCoroutineState::Complete(Ok(_)) => self.finish(),
            },
        }
    }
}

} // verus!
