//! What idling is for, stated over what the server says at each step.

use vstd::prelude::*;

use crate::command::BareCommand;
use crate::coroutine::{ImapCoroutineState, YieldView};
use crate::framing::Framing;
use crate::laws::{accepts, refuses};
use crate::outcome::FailureView;
use crate::response::StatusKind;
use crate::rfc2177::idle::{IdlePhase, IdleResult, IdleState, IdleYieldView};
use crate::send::{begins_bare, drain, OutputView, SendErrorView, SendState};

verus! {

/// Whether the server granted an IDLE: it asked for more, and neither
/// said BYE nor completed the command.
pub open spec fn grants(output: OutputView) -> bool {
    output.bye is None && output.tagged is None && output.continuation_request
}

/// Why an IDLE that was not granted fails.
pub open spec fn denies(output: OutputView, err: FailureView) -> bool {
    if output.bye is Some {
        err == FailureView::Bye(output.bye->0)
    } else if output.tagged is Some {
        match output.tagged->0.kind {
            StatusKind::Success => err is UnexpectedTagged,
            StatusKind::No => err == FailureView::No(output.tagged->0.text),
            StatusKind::Bad => err == FailureView::Bad(output.tagged->0.text),
        }
    } else {
        err is ExpectedContinuationRequest
    }
}

/// Whether a step hands on what the exchange below asks for.
pub open spec fn hands_on(y: YieldView, result: IdleResult) -> bool {
    &&& result is Yielded
    &&& match y {
        YieldView::WantsRead => result->Yielded_0 is WantsRead,
        YieldView::WantsWrite(bytes) => result->Yielded_0 == IdleYieldView::WantsWrite(bytes),
    }
}

/// Whether a step says DONE, on a line of its own, and then awaits the
/// completion of the command.
pub open spec fn says_done(after: IdleState, result: IdleResult) -> bool {
    &&& result is Yielded
    &&& result->Yielded_0 is WantsWrite
    &&& result->Yielded_0->WantsWrite_0 == seq![
        'D' as u8,
        'O' as u8,
        'N' as u8,
        'E' as u8,
        '\r' as u8,
        '\n' as u8,
    ]
    &&& after.phase == IdlePhase::Done(SendState::receive())
}

/// While IDLE is asked for, the exchange decides. Granted, it goes on to
/// read events, or to DONE where it is time to stop; what the server said
/// along with it is an event. Not granted, it fails for that reason.
pub proof fn idle_needs_the_server(
    state: IdleState,
    send: SendState,
    framing: Framing,
    arg: Option<Seq<u8>>,
    done: bool,
    timed_out: bool,
    after: (IdleState, Framing),
    result: IdleResult,
)
    requires
        state.phase == IdlePhase::Idle(send),
        state.steps(framing, arg, done, timed_out, after, result),
    ensures
        ({
            let inner = send.resume(framing, arg);
            &&& after.1 == inner.framing
            &&& after.0.timed == state.timed
            &&& match inner.result {
                ImapCoroutineState::Yielded(y) => hands_on(y, result) && after.0.phase
                    == IdlePhase::Idle(inner.state),
                ImapCoroutineState::Complete(Err(err)) => {
                    &&& result is Complete
                    &&& result->Complete_0 is Err
                    &&& result->Complete_0->Err_0 == FailureView::Send(err)
                },
                ImapCoroutineState::Complete(Ok(output)) => if !grants(output) {
                    &&& result is Complete
                    &&& result->Complete_0 is Err
                    &&& denies(output, result->Complete_0->Err_0)
                } else if output.data.len() > 0 || output.untagged.len() > 0 {
                    &&& after.0.phase is Read
                    &&& result is Yielded
                    &&& result->Yielded_0 == (IdleYieldView::Event {
                        untagged: output.untagged,
                        data: output.data,
                    })
                } else if done || timed_out {
                    says_done(after.0, result)
                } else {
                    &&& after.0.phase is Read
                    &&& result is Yielded
                    &&& result->Yielded_0 is WantsRead
                },
            }
        }),
{
    lemma_done_line();
}

proof fn lemma_done_line()
    ensures
        crate::command::done_line() == seq![
            'D' as u8,
            'O' as u8,
            'N' as u8,
            'E' as u8,
            '\r' as u8,
            '\n' as u8,
        ],
{
    assert(crate::command::done_line() =~= seq![
        'D' as u8,
        'O' as u8,
        'N' as u8,
        'E' as u8,
        '\r' as u8,
        '\n' as u8,
    ]);
}

/// While events are read, DONE is said when the caller wants to stop or
/// the refresh interval is over, whatever was read. Otherwise what is
/// read becomes an event; nothing read is a connection that was closed,
/// and what cannot be read is a failure that holds it.
pub proof fn events_are_read(
    state: IdleState,
    framing: Framing,
    arg: Option<Seq<u8>>,
    done: bool,
    timed_out: bool,
    after: (IdleState, Framing),
    result: IdleResult,
)
    requires
        state.phase is Read,
        state.steps(framing, arg, done, timed_out, after, result),
    ensures
        after.0.timed == state.timed,
        done || timed_out ==> says_done(after.0, result) && after.1 == framing,
        !done && !timed_out ==> after.0.phase is Read,
        !done && !timed_out && arg is None ==> {
            &&& after.1 == framing
            &&& result is Yielded
            &&& result->Yielded_0 is WantsRead
        },
        !done && !timed_out && arg is Some && arg->0.len() == 0 ==> {
            &&& after.1 == framing
            &&& result is Complete
            &&& result->Complete_0 is Err
            &&& result->Complete_0->Err_0 is Eof
        },
        !done && !timed_out && arg is Some && arg->0.len() > 0 ==> {
            let drained = drain(
                OutputView::empty(),
                (Framing { unparsed: framing.unparsed + arg->0, ..framing }),
                false,
            );
            &&& after.1 == drained.framing
            &&& drained.failure is None ==> {
                &&& result is Yielded
                &&& result->Yielded_0 == (IdleYieldView::Event {
                    untagged: drained.output.untagged,
                    data: drained.output.data,
                })
            }
            &&& drained.failure is Some ==> {
                &&& result is Complete
                &&& result->Complete_0 is Err
                &&& result->Complete_0->Err_0 == match drained.failure->0 {
                    SendErrorView::Eof => FailureView::Eof,
                    SendErrorView::DecodingFailure(message) => FailureView::DecodingFailure(
                        message,
                    ),
                    SendErrorView::MessageIsPoisoned(message) => FailureView::MessageIsPoisoned(
                        message,
                    ),
                    SendErrorView::MessageTooLong(message) => FailureView::MessageTooLong(message),
                }
            }
        },
{
    lemma_done_line();
}

/// After DONE, the exchange decides. Once the server completes it, idling
/// is over, or begins anew where the refresh interval was: the interval
/// then starts anew, too. What the server refuses fails for that reason.
pub proof fn idle_ends_or_begins_anew(
    state: IdleState,
    send: SendState,
    framing: Framing,
    arg: Option<Seq<u8>>,
    done: bool,
    timed_out: bool,
    after: (IdleState, Framing),
    result: IdleResult,
)
    requires
        state.phase == IdlePhase::Done(send),
        state.steps(framing, arg, done, timed_out, after, result),
    ensures
        ({
            let inner = send.resume(framing, arg);
            &&& after.1 == inner.framing
            &&& match inner.result {
                ImapCoroutineState::Yielded(y) => {
                    &&& hands_on(y, result)
                    &&& after.0.phase == IdlePhase::Done(inner.state)
                    &&& after.0.timed == state.timed
                },
                ImapCoroutineState::Complete(Err(err)) => {
                    &&& result is Complete
                    &&& result->Complete_0 is Err
                    &&& result->Complete_0->Err_0 == FailureView::Send(err)
                },
                ImapCoroutineState::Complete(Ok(output)) => if !accepts(output) {
                    &&& result is Complete
                    &&& result->Complete_0 is Err
                    &&& refuses(output, result->Complete_0->Err_0)
                } else if timed_out {
                    &&& !after.0.timed
                    &&& after.0.phase is Idle
                    &&& result is Yielded
                    &&& result->Yielded_0 is WantsWrite
                    &&& begins_bare(
                        after.0.phase->Idle_0,
                        YieldView::WantsWrite(result->Yielded_0->WantsWrite_0),
                        BareCommand::Idle,
                    )
                } else {
                    &&& !after.0.timed
                    &&& result is Complete
                    &&& result->Complete_0 is Ok
                },
            }
        }),
{
}

} // verus!
