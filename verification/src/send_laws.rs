//! What an exchange is for, stated over the messages of the server and
//! the parts of the command.

use imap_codec::imap_types;
use vstd::prelude::*;

use crate::command::{
    bare_line, command_fragments, dumped, is_tag_text, tag_text, BareCommand, CommandView,
    FragmentView,
};
use crate::coroutine::YieldView;
use crate::framing::Framing;
use crate::response::{DecodeError, ResponseView};
use crate::send::{
    begins_bare, drain, joined, parts_of, starts, starts_bare, sync_literals, Drained, OutputView,
    SendErrorView, SendState,
};

verus! {

/// A response adds to what the server answered and leaves the rest of it
/// as it is.
pub proof fn response_is_added(output: OutputView, response: ResponseView)
    ensures
        ({
            let after = output.collect(response);
            &&& after.data.len() == output.data.len() + if response is Data {
                1int
            } else {
                0int
            }
            &&& output.data == after.data.take(output.data.len() as int)
            &&& response is Data ==> after.data.last() == response->Data_0
            &&& after.untagged.len() == output.untagged.len() + if response is Untagged {
                1int
            } else {
                0int
            }
            &&& output.untagged == after.untagged.take(output.untagged.len() as int)
            &&& response is Untagged ==> after.untagged.last() == response->Untagged_0
            &&& after.tagged == if response is Tagged {
                Some(response->Tagged_0)
            } else {
                output.tagged
            }
            &&& after.bye == if response is Bye {
                Some(response->Bye_0)
            } else {
                output.bye
            }
            &&& after.continuation_request == (output.continuation_request
                || response is Continuation)
        }),
        OutputView::empty().data.len() == 0,
        OutputView::empty().untagged.len() == 0,
        OutputView::empty().tagged is None,
        OutputView::empty().bye is None,
        !OutputView::empty().continuation_request,
{
    let after = output.collect(response);
    assert(after.data.take(output.data.len() as int) =~= output.data);
    assert(after.untagged.take(output.untagged.len() as int) =~= output.untagged);
}

/// Whether parsing goes on to place `k` of `trace` by one fragment.
pub open spec fn is_next(start: Framing, trace: Seq<Framing>, k: int) -> bool {
    let before = if k == 0 {
        start
    } else {
        trace[k - 1]
    };
    before.progress().1 is Some && trace[k] == before.progress().0
}

/// Whether `trace` is how parsing goes on from `start`, one fragment at a
/// time.
pub open spec fn is_trace(start: Framing, trace: Seq<Framing>) -> bool {
    forall|k: int| 0 <= k < trace.len() ==> #[trigger] is_next(start, trace, k)
}

/// Where a trace leads.
pub open spec fn end_of(start: Framing, trace: Seq<Framing>) -> Framing {
    if trace.len() == 0 {
        start
    } else {
        trace.last()
    }
}

/// Whether a response is complete and can be read.
pub open spec fn is_response(framing: Framing) -> bool {
    framing.complete() && framing.decode() is Ok
}

/// Whether a line is complete, unreadable and passed over: an untagged
/// one, where those may be.
pub open spec fn is_passed_over(framing: Framing, lenient: bool) -> bool {
    &&& framing.complete()
    &&& framing.decode() is Err
    &&& framing.decode()->Err_0 == DecodeError::Undecodable
    &&& lenient
    &&& framing.message.len() >= 2
    &&& framing.message[0] == '*' as u8
    &&& framing.message[1] == ' ' as u8
}

/// The responses along a trace.
pub open spec fn responses(trace: Seq<Framing>) -> Seq<ResponseView> {
    trace.filter(|framing: Framing| is_response(framing)).map_values(
        |framing: Framing| framing.decode()->Ok_0,
    )
}

/// What the server answered, with more responses, one after another.
pub open spec fn with_responses(output: OutputView, more: Seq<ResponseView>) -> OutputView {
    more.fold_left(output, |output: OutputView, response: ResponseView| output.collect(response))
}

/// Whether the bytes at hand lead from `start` along `trace` to what is
/// left in the end.
pub open spec fn goes_along(
    output: OutputView,
    start: Framing,
    lenient: bool,
    trace: Seq<Framing>,
    drained: Drained,
) -> bool {
    let end = end_of(start, trace);
    &&& is_trace(start, trace)
    &&& drained.output == with_responses(output, responses(trace))
    &&& match drained.failure {
        None => {
            &&& end.progress().1 is None
            &&& drained.framing == end.progress().0
            &&& forall|k: int|
                0 <= k < trace.len() && (#[trigger] trace[k]).complete() ==> is_response(trace[k])
                    || is_passed_over(trace[k], lenient)
        },
        Some(failure) => {
            &&& trace.len() > 0
            &&& drained.framing == end
            &&& end.complete()
            &&& end.decode() is Err
            &&& !is_passed_over(end, lenient)
            &&& failure == match end.decode()->Err_0 {
                DecodeError::Undecodable => SendErrorView::DecodingFailure(end.message),
                DecodeError::Poisoned => SendErrorView::MessageIsPoisoned(end.message),
                DecodeError::TooLong => SendErrorView::MessageTooLong(end.message),
            }
            &&& forall|k: int|
                0 <= k < trace.len() - 1 && (#[trigger] trace[k]).complete() ==> is_response(
                    trace[k],
                ) || is_passed_over(trace[k], lenient)
        },
    }
}

proof fn lemma_responses(first: Framing, trace: Seq<Framing>, output: OutputView)
    ensures
        is_response(first) ==> with_responses(output, responses(seq![first] + trace))
            == with_responses(output.collect(first.decode()->Ok_0), responses(trace)),
        !is_response(first) ==> responses(seq![first] + trace) == responses(trace),
{
    let wanted = |framing: Framing| is_response(framing);
    Seq::filter_distributes_over_add(seq![first], trace, wanted);
    assert(seq![first].drop_last() =~= Seq::empty());
    assert(seq![first].filter(wanted) == if is_response(first) {
        seq![first]
    } else {
        Seq::empty()
    }) by {
        reveal_with_fuel(Seq::filter, 2);
        assert(seq![first].last() == first);
        assert(wanted(first) == is_response(first));
        assert(Seq::<Framing>::empty().push(first) =~= seq![first]);
    }
    let all = responses(seq![first] + trace);
    if is_response(first) {
        let response = first.decode()->Ok_0;
        let step = |output: OutputView, response: ResponseView| output.collect(response);
        assert(all =~= seq![response] + responses(trace));
        all.lemma_fold_left_split(output, step, 1);
        assert(all.subrange(0, 1) =~= seq![response]);
        assert(all.subrange(1, all.len() as int) =~= responses(trace));
        assert(seq![response].fold_left(output, step) == output.collect(response)) by {
            reveal_with_fuel(Seq::fold_left, 2);
            assert(seq![response].drop_last() =~= Seq::empty());
        }
    } else {
        assert(all =~= responses(trace));
    }
}

proof fn lemma_along(
    output: OutputView,
    start: Framing,
    lenient: bool,
    next: Framing,
    trace: Seq<Framing>,
    drained: Drained,
)
    requires
        start.progress().1 is Some,
        next == start.progress().0,
        goes_along(
            if is_response(next) {
                output.collect(next.decode()->Ok_0)
            } else {
                output
            },
            next,
            lenient,
            trace,
            drained,
        ),
        next.complete() ==> is_response(next) || is_passed_over(next, lenient),
    ensures
        goes_along(output, start, lenient, seq![next] + trace, drained),
{
    let whole = seq![next] + trace;
    lemma_responses(next, trace, output);
    assert forall|k: int| 0 <= k < whole.len() implies #[trigger] is_next(start, whole, k) by {
        if k > 0 {
            assert(is_next(next, trace, k - 1));
        }
    }
    assert(end_of(start, whole) == end_of(next, trace));
    let count = if drained.failure is Some {
        whole.len() - 1
    } else {
        whole.len() as int
    };
    assert forall|k: int| 0 <= k < count && (#[trigger] whole[k]).complete() implies is_response(
        whole[k],
    ) || is_passed_over(whole[k], lenient) by {
        if k > 0 {
            assert(whole[k] == trace[k - 1]);
        }
    }
}

/// Reading on, fragment by fragment, every response that the bytes at
/// hand complete is added, in order, until no fragment is left. A line
/// that cannot be read ends it with that line's failure, unless it is an
/// untagged one and those may be passed over.
pub proof fn every_response_is_collected(output: OutputView, start: Framing, lenient: bool)
    ensures
        exists|trace: Seq<Framing>| #[trigger]
            goes_along(output, start, lenient, trace, drain(output, start, lenient)),
    decreases start.unparsed.len(), start.owed(),
{
    start.lemma_progress();
    let drained = drain(output, start, lenient);
    let (next, fragment) = start.progress();
    let none: Seq<Framing> = Seq::empty();
    assert(responses(none) =~= Seq::empty()) by {
        reveal(Seq::filter);
    }
    assert(with_responses(output, responses(none)) == output);
    if fragment is None {
        assert(goes_along(output, start, lenient, none, drained));
    } else if next.complete() && next.decode() is Err && !is_passed_over(next, lenient) {
        let trace = seq![next];
        assert(is_next(start, trace, 0));
        assert(trace =~= seq![next] + none);
        lemma_responses(next, none, output);
        assert(goes_along(output, start, lenient, trace, drained));
    } else {
        let after = if is_response(next) {
            output.collect(next.decode()->Ok_0)
        } else {
            output
        };
        every_response_is_collected(after, next, lenient);
        let trace = choose|trace: Seq<Framing>| #[trigger]
            goes_along(after, next, lenient, trace, drain(after, next, lenient));
        lemma_along(output, start, lenient, next, trace, drained);
    }
}

/// Before it reads, an exchange writes the part whose turn it is, and
/// nothing else happens. With nothing to write it asks for bytes.
pub proof fn parts_are_written_in_turn(
    state: SendState,
    framing: Framing,
    arg: Option<Seq<u8>>,
)
    ensures
        state.writing && state.parts.len() > 0 ==> {
            let step = state.resume(framing, arg);
            &&& step.framing == framing
            &&& step.state.output == state.output
            &&& !step.state.writing
            &&& step.result is Yielded
            &&& step.result->Yielded_0 is WantsWrite
            &&& seq![step.result->Yielded_0->WantsWrite_0] + step.state.parts == state.parts
        },
        !(state.writing && state.parts.len() > 0) && arg is None ==> {
            let step = state.resume(framing, arg);
            &&& step.framing == framing
            &&& step.state == state
            &&& step.result is Yielded
            &&& step.result->Yielded_0 is WantsRead
        },
{
    if state.writing && state.parts.len() > 0 {
        let step = state.resume(framing, arg);
        assert(seq![step.result->Yielded_0->WantsWrite_0] + step.state.parts =~= state.parts);
    }
}

/// Once bytes are read without a failure, the exchange is over when the
/// server completed the command, said BYE, or asked for more while no
/// part is left; everything it answered is then handed over, and nothing
/// kept. Where a part is left and the server asked for more, that part is
/// written and the request forgotten. In every other case more bytes are
/// awaited.
pub proof fn exchange_goes_by_the_server(state: SendState, framing: Framing, bytes: Seq<u8>)
    requires
        bytes.len() > 0,
        !(state.writing && state.parts.len() > 0),
    ensures
        ({
            let step = state.resume(framing, Some(bytes));
            let drained = drain(
                state.output,
                Framing { unparsed: framing.unparsed + bytes, ..framing },
                true,
            );
            let answered = drained.output;
            let over = answered.tagged is Some || answered.bye is Some
                || answered.continuation_request && state.parts.len() == 0;
            &&& step.framing == drained.framing
            &&& drained.failure is Some ==> {
                &&& step.result is Complete
                &&& step.result->Complete_0 is Err
                &&& step.result->Complete_0->Err_0 == drained.failure->0
                &&& step.state.parts == state.parts
                &&& step.state.output == answered
            }
            &&& drained.failure is None && over ==> {
                &&& step.result is Complete
                &&& step.result->Complete_0 is Ok
                &&& step.result->Complete_0->Ok_0 == answered
                &&& step.state.parts == state.parts
                &&& step.state.output.data.len() == 0
                &&& step.state.output.untagged.len() == 0
                &&& step.state.output.tagged is None
                &&& step.state.output.bye is None
                &&& !step.state.output.continuation_request
            }
            &&& drained.failure is None && !over && answered.continuation_request ==> {
                &&& step.result is Yielded
                &&& step.result->Yielded_0 is WantsWrite
                &&& seq![step.result->Yielded_0->WantsWrite_0] + step.state.parts == state.parts
                &&& !step.state.writing
                &&& !step.state.output.continuation_request
                &&& step.state.output.data == answered.data
                &&& step.state.output.untagged == answered.untagged
                &&& step.state.output.tagged is None
                &&& step.state.output.bye is None
            }
            &&& drained.failure is None && !over && !answered.continuation_request ==> {
                &&& step.result is Yielded
                &&& step.result->Yielded_0 is WantsRead
                &&& step.state.parts == state.parts
                &&& step.state.output == answered
            }
        }),
{
    let step = state.resume(framing, Some(bytes));
    if step.result is Yielded && step.result->Yielded_0 is WantsWrite {
        assert(seq![step.result->Yielded_0->WantsWrite_0] + step.state.parts =~= state.parts);
    }
}

/// A command is cut right before each synchronising literal, and nowhere
/// else: up to the literal at place `at`, there is one part more than
/// there are such literals before it, and those parts hold what stands
/// before it.
pub proof fn command_is_cut_at_literals(fragments: Seq<FragmentView>, at: int)
    requires
        0 <= at < fragments.len(),
        fragments[at] is Literal,
        fragments[at]->sync,
    ensures
        ({
            let count = 1 + sync_literals(fragments.take(at)) as int;
            &&& count < parts_of(fragments).len()
            &&& joined(parts_of(fragments).take(count)) == dumped(fragments.take(at))
            &&& fragments[at]->data.is_prefix_of(parts_of(fragments)[count])
        }),
    decreases fragments.len(),
{
    let head = fragments.drop_last();
    let parts = parts_of(fragments);
    let before = parts_of(head);
    let count = 1 + sync_literals(fragments.take(at)) as int;
    crate::send::parts_are_the_command(head);
    crate::send::parts_are_the_command(fragments);
    if at == fragments.len() - 1 {
        assert(fragments.take(at) =~= head);
        assert(parts.take(count) =~= before);
    } else {
        assert(head.take(at) =~= fragments.take(at));
        assert(head[at] == fragments[at]);
        command_is_cut_at_literals(head, at);
        assert(parts.take(count) =~= before.take(count));
        assert(before[count].is_prefix_of(parts[count]));
    }
}

/// An exchange starts with the whole command to be written, and nothing
/// answered. One whose command was written already starts with nothing to
/// write.
pub proof fn exchange_starts_with_nothing_answered(fragments: Seq<FragmentView>)
    ensures
        joined(SendState::start(fragments).parts) == dumped(fragments),
        SendState::start(fragments).parts.len() > 0,
        SendState::start(fragments).writing,
        SendState::start(fragments).output == OutputView::empty(),
        SendState::receive().parts.len() == 0,
        !SendState::receive().writing,
        SendState::receive().output == OutputView::empty(),
{
    crate::send::parts_are_the_command(fragments);
}

/// A command that is ready to be written starts an exchange with its
/// fragments, under a tag.
pub proof fn command_starts_under_a_tag(state: SendState, command: CommandView)
    requires
        starts(state, command),
    ensures
        state.writing,
        state.output == OutputView::empty(),
        exists|tag: imap_types::core::Tag<'static>| #[trigger]
            is_tag_text(tag_text(tag)) && joined(state.parts) == dumped(
                command_fragments(tag, command),
            ),
{
    let tag = choose|tag: imap_types::core::Tag<'static>| #[trigger]
        is_tag_text(tag_text(tag)) && state == SendState::start(command_fragments(tag, command));
    crate::send::parts_are_the_command(command_fragments(tag, command));
}

/// A command without arguments is written as its tag, a space, its
/// keyword and CRLF, whether it is still to be written or was just begun.
pub proof fn bare_command_is_one_line(
    state: SendState,
    after: SendState,
    y: YieldView,
    command: BareCommand,
)
    requires
        starts_bare(state, command),
        begins_bare(after, y, command),
    ensures
        state.writing,
        state.output == OutputView::empty(),
        after.parts.len() == 0,
        !after.writing,
        after.output == OutputView::empty(),
        y is WantsWrite,
        exists|tag: imap_types::core::Tag<'static>| #[trigger]
            is_tag_text(tag_text(tag)) && joined(state.parts) == tag_text(tag) + seq![' ' as u8]
                + command.keyword() + seq!['\r' as u8, '\n' as u8],
        exists|tag: imap_types::core::Tag<'static>| #[trigger]
            is_tag_text(tag_text(tag)) && y->WantsWrite_0 == tag_text(tag) + seq![' ' as u8]
                + command.keyword() + seq!['\r' as u8, '\n' as u8],
{
    let tag = choose|tag: imap_types::core::Tag<'static>| #[trigger]
        is_tag_text(tag_text(tag)) && state == SendState::start(
            seq![FragmentView::Line(bare_line(tag, command))],
        );
    let fragments = seq![FragmentView::Line(bare_line(tag, command))];
    crate::send::parts_are_the_command(fragments);
    assert(fragments.drop_last() =~= Seq::empty());
    assert(dumped(fragments.drop_last()) =~= Seq::empty());
    assert(dumped(fragments) =~= bare_line(tag, command));
}

} // verus!
