//! What the opening of a session and the upload of a message are for,
//! stated over what the server says at each step.

use imap_codec::imap_types;
use imap_codec::imap_types::mailbox::Mailbox;
use imap_codec::imap_types::response::Capability;
use vstd::prelude::*;

use crate::command::{
    command_fragments, dumped, is_sendable, is_tag_text, tag_text, BareCommand, CommandView,
    FragmentView,
};
use crate::coroutine::{ImapCoroutineState, YieldView};
use crate::framing::{decimal_value, Framing};
use crate::laws::{accepts, refuses};
use crate::outcome::{is_step, FailureView};
use crate::response::{DecodeError, ParametersView, StatusKind};
use crate::rfc2971::id::id_outcome;
use crate::rfc3501::append::ImapMessageAppendOptions;
use crate::rfc3501::append_stream::{
    append_header, append_outcome, decimal_text, is_append_header, AppendPhase, AppendState,
    AppendYieldView,
};
use crate::rfc3501::capability::capability_outcome;
use crate::rfc3501::greeting::{
    GreetingKind, GreetingPhase, GreetingResult, GreetingState, GreetingView,
};
use crate::rfc3501::greeting_with_capability::attributed_result;
use crate::rfc3501::login::{
    is_credential, login_capabilities, LoginPhase, LoginResult, LoginState,
};
use crate::rfc3501::mailbox::wire_form;
use crate::send::{
    begins, begins_bare, joined, parts_are_the_command, OutputView, SendState,
};
use crate::send_laws::{end_of, is_next, is_trace};

verus! {

/// A command goes on as its exchange does, fails when that fails, and
/// ends with what the answer amounts to.
pub proof fn command_follows_its_exchange<T>(
    before: (SendState, Framing),
    arg: Option<Seq<u8>>,
    after: (SendState, Framing),
    step: ImapCoroutineState<YieldView, Result<T, FailureView>>,
    finish: spec_fn(OutputView) -> Result<T, FailureView>,
)
    requires
        is_step(before, arg, after, step, finish),
    ensures
        ({
            let inner = before.0.resume(before.1, arg);
            &&& after.0 == inner.state
            &&& after.1 == inner.framing
            &&& inner.result is Yielded ==> step is Yielded && step->Yielded_0
                == inner.result->Yielded_0
            &&& inner.result is Complete ==> step is Complete
            &&& inner.result is Complete && inner.result->Complete_0 is Err ==> {
                &&& step->Complete_0 is Err
                &&& step->Complete_0->Err_0 == FailureView::Send(inner.result->Complete_0->Err_0)
            }
            &&& inner.result is Complete && inner.result->Complete_0 is Ok ==> step->Complete_0
                == finish(inner.result->Complete_0->Ok_0)
        }),
{
}

/// What is written of a command that was just begun, and what is still to
/// be written of it, are the command, under a tag.
pub proof fn begun_command_is_the_command(after: SendState, y: YieldView, command: CommandView)
    requires
        begins(after, y, command),
    ensures
        y is WantsWrite,
        !after.writing,
        after.output.tagged is None && after.output.bye is None,
        !after.output.continuation_request,
        after.output.data.len() == 0 && after.output.untagged.len() == 0,
        exists|tag: imap_types::core::Tag<'static>| #[trigger]
            is_tag_text(tag_text(tag)) && joined(seq![y->WantsWrite_0] + after.parts) == dumped(
                command_fragments(tag, command),
            ),
{
    let tag = choose|tag: imap_types::core::Tag<'static>| #[trigger]
        is_tag_text(tag_text(tag)) && {
            let parts = crate::send::parts_of(command_fragments(tag, command));
            &&& after == (SendState {
                parts: parts.skip(1),
                writing: false,
                output: OutputView::empty(),
            })
            &&& y == YieldView::WantsWrite(parts[0])
        };
    let parts = crate::send::parts_of(command_fragments(tag, command));
    parts_are_the_command(command_fragments(tag, command));
    assert(seq![y->WantsWrite_0] + after.parts =~= parts);
}

proof fn lemma_digits(n: nat)
    ensures
        decimal_text(n).len() > 0,
        forall|k: int|
            0 <= k < decimal_text(n).len() ==> '0' as u8 <= #[trigger] decimal_text(n)[k]
                <= '9' as u8,
        decimal_value(decimal_text(n)) == n,
        n > 0 ==> decimal_text(n)[0] != '0' as u8,
        n == 0 ==> decimal_text(n).len() == 1,
    decreases n,
{
    let text = decimal_text(n);
    if n < 10 {
        assert(text.drop_last() =~= Seq::empty());
        assert(decimal_value(text.drop_last()) == 0);
    } else {
        lemma_digits(n / 10);
        let head = decimal_text(n / 10);
        assert(text.drop_last() =~= head);
        assert forall|k: int| 0 <= k < text.len() implies '0' as u8 <= #[trigger] text[k]
            <= '9' as u8 by {
            if k < head.len() {
                assert(text[k] == head[k]);
            }
        }
        assert(text[0] == head[0]);
    }
}

/// What precedes the message on the wire is the command with an empty
/// literal, up to that literal's size: there stands the size of the
/// message instead, in decimal digits without leading zeros, and a `+`
/// where the message is to follow at once.
pub proof fn header_is_the_command(
    fragments: Seq<FragmentView>,
    before: Seq<u8>,
    len: u32,
    non_sync: bool,
)
    requires
        fragments.len() >= 2,
        dumped(fragments.take(fragments.len() - 2)) == before + seq![
            '{' as u8,
            '0' as u8,
            '+' as u8,
            '}' as u8,
            '\r' as u8,
            '\n' as u8,
        ],
    ensures
        exists|digits: Seq<u8>|
            {
                &&& #[trigger] decimal_value(digits) == len
                &&& digits.len() > 0
                &&& forall|k: int|
                    0 <= k < digits.len() ==> '0' as u8 <= #[trigger] digits[k] <= '9' as u8
                &&& len > 0 ==> digits[0] != '0' as u8
                &&& len == 0 ==> digits.len() == 1
                &&& append_header(fragments, len, non_sync) == before + seq!['{' as u8] + digits
                    + (if non_sync {
                    seq!['+' as u8]
                } else {
                    Seq::empty()
                }) + seq!['}' as u8, '\r' as u8, '\n' as u8]
            },
{
    let digits = decimal_text(len as nat);
    let head = dumped(fragments.take(fragments.len() - 2));
    lemma_digits(len as nat);
    assert(decimal_value(digits) == len);
    assert(head.take(head.len() - 6) =~= before);
    assert(append_header(fragments, len, non_sync) =~= before + seq!['{' as u8] + digits + (
    if non_sync {
        seq!['+' as u8]
    } else {
        Seq::empty()
    }) + seq!['}' as u8, '\r' as u8, '\n' as u8]);
}

/// First the header is written. A message that may follow at once is
/// asked for next; otherwise the server is to ask for it.
pub proof fn header_goes_first(state: AppendState, framing: Framing, arg: Option<Seq<u8>>)
    ensures
        state.phase matches AppendPhase::WriteHeader(header) ==> {
            let step = state.resume(framing, arg);
            &&& step.result is Yielded
            &&& step.result->Yielded_0 == AppendYieldView::WantsWrite(header)
            &&& step.framing == framing
            &&& step.state.non_sync == state.non_sync
            &&& step.state.stream_pending == state.stream_pending
            &&& step.state.phase == if state.non_sync {
                AppendPhase::Stream
            } else {
                AppendPhase::Continuation(SendState::receive())
            }
        },
        state.phase is Stream && !state.stream_pending ==> {
            let step = state.resume(framing, arg);
            &&& step.result is Yielded
            &&& step.result->Yielded_0 is WantsStream
            &&& step.framing == framing
            &&& step.state.phase is Stream
            &&& step.state.stream_pending
        },
        state.phase is Stream && state.stream_pending && (arg is None || arg->0.len() > 0) ==> {
            let step = state.resume(framing, arg);
            &&& step.result is Yielded
            &&& step.result->Yielded_0 == AppendYieldView::WantsWrite(seq!['\r' as u8, '\n' as u8])
            &&& step.framing == framing
            &&& step.state.phase is Recv
            &&& !step.state.stream_pending
        },
{
}

/// The message is asked for only when the server asks for it. A BYE or a
/// completion instead is a refusal; so is a completion that reports
/// success, as the message was not sent.
pub proof fn message_needs_the_server(
    state: AppendState,
    send: SendState,
    framing: Framing,
    arg: Option<Seq<u8>>,
)
    requires
        state.phase == AppendPhase::Continuation(send),
        !state.stream_pending,
    ensures
        ({
            let inner = send.resume(framing, arg);
            let step = state.resume(framing, arg);
            &&& step.framing == inner.framing
            &&& step.state.non_sync == state.non_sync
            &&& match inner.result {
                ImapCoroutineState::Yielded(YieldView::WantsRead) => {
                    &&& step.result is Yielded
                    &&& step.result->Yielded_0 is WantsRead
                    &&& step.state.phase == AppendPhase::Continuation(inner.state)
                },
                ImapCoroutineState::Yielded(YieldView::WantsWrite(bytes)) => {
                    &&& step.result is Yielded
                    &&& step.result->Yielded_0 == AppendYieldView::WantsWrite(bytes)
                    &&& step.state.phase == AppendPhase::Continuation(inner.state)
                },
                ImapCoroutineState::Complete(Err(err)) => {
                    &&& step.result is Complete
                    &&& step.result->Complete_0 is Err
                    &&& step.result->Complete_0->Err_0 == FailureView::Send(err)
                },
                ImapCoroutineState::Complete(Ok(output)) => if output.bye is None
                    && output.tagged is None {
                    &&& step.result is Yielded
                    &&& step.result->Yielded_0 is WantsStream
                    &&& step.state.phase is Stream
                    &&& step.state.stream_pending
                } else {
                    &&& step.result is Complete
                    &&& step.result->Complete_0 is Err
                    &&& step.result->Complete_0->Err_0 == if output.bye is Some {
                        FailureView::Bye(output.bye->0)
                    } else if output.tagged->0.kind == StatusKind::No {
                        FailureView::No(output.tagged->0.text)
                    } else {
                        FailureView::Bad(output.tagged->0.text)
                    }
                },
            }
        }),
{
}

/// Once the message is sent, the upload follows the exchange and ends
/// with what the answer amounts to.
pub proof fn upload_ends_with_the_answer(
    state: AppendState,
    send: SendState,
    framing: Framing,
    arg: Option<Seq<u8>>,
)
    requires
        state.phase == AppendPhase::Recv(send),
    ensures
        ({
            let inner = send.resume(framing, arg);
            let step = state.resume(framing, arg);
            &&& step.framing == inner.framing
            &&& step.state.phase == AppendPhase::Recv(inner.state)
            &&& match inner.result {
                ImapCoroutineState::Yielded(YieldView::WantsRead) => {
                    &&& step.result is Yielded
                    &&& step.result->Yielded_0 is WantsRead
                },
                ImapCoroutineState::Yielded(YieldView::WantsWrite(bytes)) => {
                    &&& step.result is Yielded
                    &&& step.result->Yielded_0 == AppendYieldView::WantsWrite(bytes)
                },
                ImapCoroutineState::Complete(Err(err)) => {
                    &&& step.result is Complete
                    &&& step.result->Complete_0 is Err
                    &&& step.result->Complete_0->Err_0 == FailureView::Send(err)
                },
                ImapCoroutineState::Complete(Ok(output)) => {
                    &&& step.result is Complete
                    &&& step.result->Complete_0 == append_outcome(output)
                },
            }
        }),
{
}

/// Whether parsing leads from `start` along `trace` to the end of the
/// next message, or stops short of it.
pub open spec fn leads_to_message(
    start: Framing,
    trace: Seq<Framing>,
    next: Framing,
    found: bool,
) -> bool {
    &&& is_trace(start, trace)
    &&& found ==> {
        &&& trace.len() > 0
        &&& next == trace.last()
        &&& next.complete()
        &&& forall|k: int| 0 <= k < trace.len() - 1 ==> !(#[trigger] trace[k]).complete()
    }
    &&& !found ==> {
        &&& end_of(start, trace).progress().1 is None
        &&& next == end_of(start, trace).progress().0
        &&& forall|k: int| 0 <= k < trace.len() ==> !(#[trigger] trace[k]).complete()
    }
}

/// The greeting is the first message that the bytes at hand complete.
pub proof fn greeting_is_the_first_message(start: Framing)
    ensures
        exists|trace: Seq<Framing>| #[trigger]
            leads_to_message(start, trace, start.next_message().0, start.next_message().1),
    decreases start.unparsed.len(), start.owed(),
{
    start.lemma_progress();
    let (next, fragment) = start.progress();
    let (last, found) = start.next_message();
    let none: Seq<Framing> = Seq::empty();
    if fragment is None {
        assert(leads_to_message(start, none, last, found));
    } else if next.complete() {
        let trace = seq![next];
        assert(is_next(start, trace, 0));
        assert(leads_to_message(start, trace, last, found));
    } else {
        greeting_is_the_first_message(next);
        let trace = choose|trace: Seq<Framing>| #[trigger]
            leads_to_message(next, trace, last, found);
        let whole = seq![next] + trace;
        assert forall|k: int| 0 <= k < whole.len() implies #[trigger] is_next(
            start,
            whole,
            k,
        ) by {
            if k > 0 {
                assert(is_next(next, trace, k - 1));
            }
        }
        assert(end_of(start, whole) == end_of(next, trace));
        assert forall|k: int| 1 <= k < whole.len() implies #[trigger] whole[k]
            == trace[k - 1] by {}
        assert(leads_to_message(start, whole, last, found));
    }
}

/// What follows a greeting that was read. A BYE refuses the session. Any
/// other opens it, authenticated already where the server says PREAUTH;
/// where capabilities are wanted and it lists none, they are asked for
/// first.
pub proof fn greeting_opens_the_session(
    state: GreetingState,
    greeting: GreetingView,
    after: GreetingState,
    result: GreetingResult,
)
    requires
        state.greeted(greeting, after, result),
    ensures
        greeting.kind == GreetingKind::Bye ==> {
            &&& result is Complete
            &&& result->Complete_0 is Err
            &&& result->Complete_0->Err_0 == FailureView::Bye(greeting.text)
        },
        greeting.kind != GreetingKind::Bye ==> {
            &&& after.pre_authenticated == (greeting.kind == GreetingKind::PreAuth)
            &&& after.ensure_capabilities == state.ensure_capabilities
        },
        greeting.kind != GreetingKind::Bye && (greeting.capability.len() > 0
            || !state.ensure_capabilities) ==> {
            &&& result is Complete
            &&& result->Complete_0 is Ok
            &&& result->Complete_0->Ok_0.capability == greeting.capability
            &&& result->Complete_0->Ok_0.pre_authenticated == (greeting.kind
                == GreetingKind::PreAuth)
        },
        greeting.kind != GreetingKind::Bye && greeting.capability.len() == 0
            && state.ensure_capabilities ==> {
            &&& after.phase is Capability
            &&& result is Yielded
            &&& begins_bare(
                after.phase->Capability_0,
                result->Yielded_0,
                BareCommand::Capability,
            )
        },
{
}

/// How the greeting is read: bytes are asked for until they complete a
/// message. Nothing read is a connection that was closed; a message that
/// is no greeting is a failure that holds it.
pub proof fn greeting_is_awaited(
    state: GreetingState,
    framing: Framing,
    arg: Option<Seq<u8>>,
    after: (GreetingState, Framing),
    result: GreetingResult,
)
    requires
        state.phase is Read,
        state.steps(framing, arg, after, result),
    ensures
        arg is None ==> result is Yielded && result->Yielded_0 is WantsRead && after == (
            state,
            framing,
        ),
        arg is Some && arg->0.len() == 0 ==> {
            &&& result is Complete
            &&& result->Complete_0 is Err
            &&& result->Complete_0->Err_0 == FailureView::Eof
        },
        arg is Some && arg->0.len() > 0 ==> {
            let (next, found) = (Framing {
                unparsed: framing.unparsed + arg->0,
                ..framing
            }).next_message();
            &&& after.1 == next
            &&& !found ==> result is Yielded && result->Yielded_0 is WantsRead && after.0 == state
            &&& found && next.greet() is Ok ==> state.greeted(
                next.greet()->Ok_0,
                after.0,
                result,
            )
            &&& found && next.greet() is Err ==> {
                &&& result is Complete
                &&& result->Complete_0 is Err
                &&& result->Complete_0->Err_0 == match next.greet()->Err_0 {
                    DecodeError::Undecodable => FailureView::DecodingFailure(next.message),
                    DecodeError::Poisoned => FailureView::MessageIsPoisoned(next.message),
                    DecodeError::TooLong => FailureView::MessageTooLong(next.message),
                }
            }
        },
{
}

/// Once the capabilities were asked for, the session opens with those
/// that the server answers, authenticated or not as the greeting said.
pub proof fn session_opens_with_the_capabilities(
    state: GreetingState,
    send: SendState,
    framing: Framing,
    arg: Option<Seq<u8>>,
    after: (GreetingState, Framing),
    result: GreetingResult,
)
    requires
        state.phase == GreetingPhase::Capability(send),
        state.steps(framing, arg, after, result),
    ensures
        ({
            let inner = send.resume(framing, arg);
            &&& after.1 == inner.framing
            &&& after.0.phase == GreetingPhase::Capability(inner.state)
            &&& after.0.pre_authenticated == state.pre_authenticated
            &&& match inner.result {
                ImapCoroutineState::Yielded(y) => result is Yielded && result->Yielded_0 == y,
                ImapCoroutineState::Complete(Err(err)) => {
                    &&& result is Complete
                    &&& result->Complete_0 is Err
                    &&& result->Complete_0->Err_0 == FailureView::Capability(
                        Box::new(FailureView::Send(err)),
                    )
                },
                ImapCoroutineState::Complete(Ok(output)) => match capability_outcome(output) {
                    Ok(capability) => {
                        &&& result is Complete
                        &&& result->Complete_0 is Ok
                        &&& result->Complete_0->Ok_0.capability == capability
                        &&& result->Complete_0->Ok_0.pre_authenticated == state.pre_authenticated
                    },
                    Err(err) => {
                        &&& result is Complete
                        &&& result->Complete_0 is Err
                        &&& result->Complete_0->Err_0 == FailureView::Capability(Box::new(err))
                    },
                },
            }
        }),
{
}

/// A failure is told apart by what failed: getting the capabilities, or
/// reading the greeting. Nothing else changes.
pub proof fn failures_are_attributed(result: GreetingResult)
    ensures
        result is Yielded ==> attributed_result(result) == result,
        result is Complete && result->Complete_0 is Ok ==> attributed_result(result) == result,
        result is Complete && result->Complete_0 is Err ==> {
            let after = attributed_result(result);
            &&& after is Complete
            &&& after->Complete_0 is Err
            &&& result->Complete_0->Err_0 is Capability ==> after->Complete_0->Err_0
                == result->Complete_0->Err_0
            &&& !(result->Complete_0->Err_0 is Capability) ==> after->Complete_0->Err_0
                == FailureView::Greeting(Box::new(result->Complete_0->Err_0))
        },
{
}

/// Whether the client goes on to identify itself with what it was given,
/// an empty list standing for none, or is done where it was given
/// nothing: the session then has the given capabilities.
pub open spec fn identifies_or_is_done(
    auto_id: Option<ParametersView>,
    observed: Seq<Capability<'static>>,
    after: LoginState,
    result: LoginResult,
) -> bool {
    match auto_id {
        Some(parameters) => {
            &&& after.phase is Id
            &&& after.observed == observed
            &&& after.auto_id is None
            &&& result is Yielded
            &&& parameters.len() == 0 ==> begins(
                after.phase->Id_0,
                result->Yielded_0,
                CommandView::Id { parameters: None },
            )
            &&& parameters.len() > 0 ==> begins(
                after.phase->Id_0,
                result->Yielded_0,
                CommandView::Id { parameters: Some(parameters) },
            )
        },
        None => {
            &&& result is Complete
            &&& result->Complete_0 is Ok
            &&& result->Complete_0->Ok_0 == observed
        },
    }
}

/// A login that the server refuses fails for that reason. One that it
/// accepts takes the capabilities that come with it; where none come and
/// they are wanted, they are asked for.
pub proof fn login_goes_by_the_server(
    state: LoginState,
    send: SendState,
    framing: Framing,
    arg: Option<Seq<u8>>,
    after: (LoginState, Framing),
    result: LoginResult,
)
    requires
        state.phase == LoginPhase::Send(send),
        state.steps(framing, arg, after, result),
    ensures
        ({
            let inner = send.resume(framing, arg);
            &&& after.1 == inner.framing
            &&& match inner.result {
                ImapCoroutineState::Yielded(y) => {
                    &&& result is Yielded
                    &&& result->Yielded_0 == y
                    &&& after.0.phase == LoginPhase::Send(inner.state)
                },
                ImapCoroutineState::Complete(Err(err)) => {
                    &&& result is Complete
                    &&& result->Complete_0 is Err
                    &&& result->Complete_0->Err_0 == FailureView::Send(err)
                },
                ImapCoroutineState::Complete(Ok(output)) => if accepts(output) {
                    let told = login_capabilities(output.tagged->0.code, output);
                    let observed = if told is Some {
                        told->0
                    } else {
                        state.observed
                    };
                    if state.ensure_capabilities && observed.len() == 0 {
                        &&& after.0.phase is Capability
                        &&& after.0.auto_id == state.auto_id
                        &&& result is Yielded
                        &&& begins_bare(
                            after.0.phase->Capability_0,
                            result->Yielded_0,
                            BareCommand::Capability,
                        )
                    } else {
                        identifies_or_is_done(state.auto_id, observed, after.0, result)
                    }
                } else {
                    &&& result is Complete
                    &&& result->Complete_0 is Err
                    &&& refuses(output, result->Complete_0->Err_0)
                },
            }
        }),
{
}

/// After the login, the capabilities are those that the server answers;
/// then the client identifies itself or is done. The answer to its
/// identification leaves them as they are.
pub proof fn login_ends_with_the_capabilities(
    state: LoginState,
    send: SendState,
    framing: Framing,
    arg: Option<Seq<u8>>,
    after: (LoginState, Framing),
    result: LoginResult,
)
    requires
        state.steps(framing, arg, after, result),
        state.phase == LoginPhase::Capability(send) || state.phase == LoginPhase::Id(send),
    ensures
        ({
            let inner = send.resume(framing, arg);
            &&& after.1 == inner.framing
            &&& match inner.result {
                ImapCoroutineState::Yielded(y) => {
                    &&& result is Yielded
                    &&& result->Yielded_0 == y
                    &&& after.0.phase == if state.phase is Id {
                        LoginPhase::Id(inner.state)
                    } else {
                        LoginPhase::Capability(inner.state)
                    }
                },
                ImapCoroutineState::Complete(Err(err)) => {
                    &&& result is Complete
                    &&& result->Complete_0 is Err
                    &&& result->Complete_0->Err_0 == if state.phase is Id {
                        FailureView::ServerId(Box::new(FailureView::Send(err)))
                    } else {
                        FailureView::Capability(Box::new(FailureView::Send(err)))
                    }
                },
                ImapCoroutineState::Complete(Ok(output)) => if state.phase is Id {
                    match id_outcome(output) {
                        Ok(_) => {
                            &&& result is Complete
                            &&& result->Complete_0 is Ok
                            &&& result->Complete_0->Ok_0 == state.observed
                        },
                        Err(err) => {
                            &&& result is Complete
                            &&& result->Complete_0 is Err
                            &&& result->Complete_0->Err_0 == FailureView::ServerId(Box::new(err))
                        },
                    }
                } else {
                    match capability_outcome(output) {
                        Ok(observed) => identifies_or_is_done(
                            state.auto_id,
                            observed,
                            after.0,
                            result,
                        ),
                        Err(err) => {
                            &&& result is Complete
                            &&& result->Complete_0 is Err
                            &&& result->Complete_0->Err_0 == FailureView::Capability(Box::new(err))
                        },
                    }
                },
            }
        }),
{
}

/// An upload starts with its header to be written, and a session with its
/// greeting to be read.
pub proof fn sessions_start_from_the_beginning(header: Seq<u8>, non_sync: bool, ensure: bool)
    ensures
        AppendState::start(header, non_sync).phase == AppendPhase::WriteHeader(header),
        AppendState::start(header, non_sync).non_sync == non_sync,
        !AppendState::start(header, non_sync).stream_pending,
        GreetingState::start(ensure).phase is Read,
        !GreetingState::start(ensure).pre_authenticated,
        GreetingState::start(ensure).ensure_capabilities == ensure,
{
}

/// The header of an upload is that of an APPEND to the mailbox under its
/// wire name, with the flags and the date of the options, for a literal
/// of the size of the message.
pub proof fn upload_goes_to_the_mailbox(
    header: Seq<u8>,
    mailbox: Mailbox<'static>,
    len: u32,
    opts: ImapMessageAppendOptions,
)
    requires
        is_append_header(header, mailbox, len, opts),
    ensures
        exists|tag: imap_types::core::Tag<'static>| #[trigger]
            is_tag_text(tag_text(tag)) && header == append_header(
                command_fragments(
                    tag,
                    CommandView::AppendEmpty {
                        mailbox: wire_form(mailbox),
                        flags: opts.flags@,
                        date: opts.date,
                    },
                ),
                len,
                opts.non_sync,
            ),
{
}

/// LOGIN can carry every text but one with a NUL, a carriage return or a
/// line feed.
pub proof fn credentials_are_one_line(text: Seq<char>)
    ensures
        is_credential(text) <==> !text.contains('\0') && !text.contains('\r') && !text.contains(
            '\n',
        ),
{
    if !is_credential(text) {
        if !is_sendable(text) {
            let i = choose|i: int| 0 <= i < text.len() && text[i] == '\0';
            assert(text.contains(text[i]));
        } else {
            let i = choose|i: int| 0 <= i < text.len() && (text[i] == '\r' || text[i] == '\n');
            assert(text.contains(text[i]));
        }
    }
}

} // verus!
