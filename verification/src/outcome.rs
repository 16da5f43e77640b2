//! How an exchange ends: what is common to every command.

use vstd::prelude::*;

use crate::coroutine::{ImapCoroutineState, ImapYield, YieldView};
use crate::framing::Framing;
use crate::response::{StatusBody, StatusKind, StatusView};
use crate::send::{OutputView, SendErrorView, SendState};

verus! {

/// Model of the failures of all coroutines.
pub enum FailureView {
    No(Seq<char>),
    Bad(Seq<char>),
    Bye(Seq<char>),
    MissingTagged,
    MissingBye,
    MissingData,
    MissingCapability,
    InvalidSequenceSet,
    ShortBody,
    ShortMessage,
    UnexpectedLiteral,
    UnexpectedTagged,
    ExpectedContinuationRequest,
    UidMissing,
    Eof,
    NoCommand,
    MissingTag,
    DuplicateTag(Seq<char>),
    IncompleteCommand,
    DecodingFailure(Seq<u8>),
    MessageIsPoisoned(Seq<u8>),
    MessageTooLong(Seq<u8>),
    Send(SendErrorView),
    Greeting(Box<FailureView>),
    Capability(Box<FailureView>),
    ServerId(Box<FailureView>),
    Search(Box<FailureView>),
    Fetch(Box<FailureView>),
}

/// Why a command was not completed successfully.
#[derive(Debug)]
pub enum Refusal {
    /// The server rejected the command with a NO response.
    No(String),
    /// The server rejected the command with a BAD response.
    Bad(String),
    /// The server closed the connection with a BYE response.
    Bye(String),
    /// The server never answered with a tagged response.
    MissingTagged,
}

impl View for Refusal {
    type V = FailureView;

    open spec fn view(&self) -> FailureView {
        match *self {
            Refusal::No(text) => FailureView::No(text@),
            Refusal::Bad(text) => FailureView::Bad(text@),
            Refusal::Bye(text) => FailureView::Bye(text@),
            Refusal::MissingTagged => FailureView::MissingTagged,
        }
    }
}

/// The completion that a tagged response reports.
pub open spec fn completion(tagged: Option<StatusView>) -> Result<StatusView, FailureView> {
    match tagged {
        None => Err(FailureView::MissingTagged),
        Some(status) => match status.kind {
            StatusKind::Success => Ok(status),
            StatusKind::No => Err(FailureView::No(status.text)),
            StatusKind::Bad => Err(FailureView::Bad(status.text)),
        },
    }
}

/// The completion of a command. A BYE takes precedence over everything
/// else the server answered.
pub open spec fn verdict(output: OutputView) -> Result<StatusView, FailureView> {
    match output.bye {
        Some(text) => Err(FailureView::Bye(text)),
        None => completion(output.tagged),
    }
}

pub open spec fn completion_view(result: Result<StatusBody, Refusal>) -> Result<
    StatusView,
    FailureView,
> {
    match result {
        Ok(status) => Ok(status@),
        Err(refusal) => Err(refusal@),
    }
}

/// The completion that a tagged response reports.
pub fn complete(tagged: Option<StatusBody>) -> (result: Result<StatusBody, Refusal>)
    ensures
        completion_view(result) == completion(crate::send::status_view(tagged)),
{
    match tagged {
        None => Err(Refusal::MissingTagged),
        Some(status) => match status.kind {
            StatusKind::Success => Ok(status),
            StatusKind::No => Err(Refusal::No(status.text)),
            StatusKind::Bad => Err(Refusal::Bad(status.text)),
        },
    }
}

/// The completion of a command, given the text of the BYE and the tagged
/// response.
pub fn judge(bye: Option<String>, tagged: Option<StatusBody>) -> (result: Result<
    StatusBody,
    Refusal,
>)
    ensures
        completion_view(result) == match bye {
            Some(text) => Err(FailureView::Bye(text@)),
            None => completion(crate::send::status_view(tagged)),
        },
{
    match bye {
        Some(text) => Err(Refusal::Bye(text)),
        None => complete(tagged),
    }
}

/// Model of what a coroutine completes with.
pub open spec fn result_view<T: View, E: View<V = FailureView>>(result: Result<T, E>) -> Result<
    T::V,
    FailureView,
> {
    match result {
        Ok(value) => Ok(value@),
        Err(err) => Err(err@),
    }
}

/// Model of what a step of a coroutine returns.
pub open spec fn step_view<T: View, E: View<V = FailureView>>(
    step: ImapCoroutineState<ImapYield, Result<T, E>>,
) -> ImapCoroutineState<YieldView, Result<T::V, FailureView>> {
    match step {
        ImapCoroutineState::Yielded(y) => ImapCoroutineState::Yielded(y@),
        ImapCoroutineState::Complete(result) => ImapCoroutineState::Complete(result_view(result)),
    }
}

/// Model of what a coroutine completes with, when `view` models the
/// value.
pub open spec fn result_view_by<T, V, E: View<V = FailureView>>(
    result: Result<T, E>,
    view: spec_fn(T) -> V,
) -> Result<V, FailureView> {
    match result {
        Ok(value) => Ok(view(value)),
        Err(err) => Err(err@),
    }
}

/// Model of what a step of a coroutine returns, when `view` models the
/// value.
pub open spec fn step_view_by<T, V, E: View<V = FailureView>>(
    step: ImapCoroutineState<ImapYield, Result<T, E>>,
    view: spec_fn(T) -> V,
) -> ImapCoroutineState<YieldView, Result<V, FailureView>> {
    match step {
        ImapCoroutineState::Yielded(y) => ImapCoroutineState::Yielded(y@),
        ImapCoroutineState::Complete(result) => ImapCoroutineState::Complete(
            result_view_by(result, view),
        ),
    }
}

/// A command is done when its exchange is: `finish` says what the answer
/// amounts to.
pub open spec fn conclude<T>(
    step: ImapCoroutineState<YieldView, Result<OutputView, SendErrorView>>,
    finish: spec_fn(OutputView) -> Result<T, FailureView>,
) -> ImapCoroutineState<YieldView, Result<T, FailureView>> {
    match step {
        ImapCoroutineState::Yielded(y) => ImapCoroutineState::Yielded(y),
        ImapCoroutineState::Complete(Ok(output)) => ImapCoroutineState::Complete(finish(output)),
        ImapCoroutineState::Complete(Err(err)) => ImapCoroutineState::Complete(
            Err(FailureView::Send(err)),
        ),
    }
}

/// Whether a coroutine that wraps one exchange took the step from
/// `before` to `after` and returned `step`.
pub open spec fn is_step<T>(
    before: (SendState, Framing),
    arg: Option<Seq<u8>>,
    after: (SendState, Framing),
    step: ImapCoroutineState<YieldView, Result<T, FailureView>>,
    finish: spec_fn(OutputView) -> Result<T, FailureView>,
) -> bool {
    let inner = before.0.resume(before.1, arg);
    &&& after == (inner.state, inner.framing)
    &&& step == conclude(inner.result, finish)
}

/// How the answer to a command is split into reads does not matter.
pub proof fn reads_can_be_split<T>(
    before: (SendState, Framing),
    first: Seq<u8>,
    middle: (SendState, Framing),
    second: Seq<u8>,
    after: (SendState, Framing),
    step: ImapCoroutineState<YieldView, Result<T, FailureView>>,
    finish: spec_fn(OutputView) -> Result<T, FailureView>,
)
    requires
        first.len() > 0,
        second.len() > 0,
        is_step(
            before,
            Some(first),
            middle,
            ImapCoroutineState::Yielded(YieldView::WantsRead),
            finish,
        ),
        is_step(middle, Some(second), after, step, finish),
    ensures
        is_step(before, Some(first + second), after, step, finish),
{
    crate::send::reads_can_be_split(before.0, before.1, first, second);
}

/// What `pick` finds in the items, in order.
pub open spec fn each_of<A, B>(items: Seq<A>, pick: spec_fn(A) -> Option<B>) -> Seq<B>
    decreases items.len(),
{
    if items.len() == 0 {
        Seq::empty()
    } else {
        let before = each_of(items.drop_last(), pick);
        match pick(items.last()) {
            Some(found) => before.push(found),
            None => before,
        }
    }
}

/// What `pick` finds last in the items.
pub open spec fn last_of<A, B>(items: Seq<A>, pick: spec_fn(A) -> Option<B>) -> Option<B>
    decreases items.len(),
{
    if items.len() == 0 {
        None
    } else {
        match pick(items.last()) {
            Some(found) => Some(found),
            None => last_of(items.drop_last(), pick),
        }
    }
}

} // verus!
