//! What raw commands and the upgrade to TLS are for, stated over the
//! messages and the bytes on the wire.

use imap_codec::imap_types;
use vstd::prelude::*;
use vstd::utf8::decode_utf8;

use crate::command::{tag_text, BareCommand};
use crate::coroutine::YieldView;
use crate::framing::{Expecting, Framing};
use crate::outcome::FailureView;
use crate::rfc3501::raw::{
    capture, command_tags, message_tag, response_text, tags_of, unacknowledged, Captured, RawState,
    MAX_COMMAND_SIZE,
};
use crate::rfc3501::starttls::{first_occurs_at, occurs_at, StartTlsState};
use crate::send_laws::{end_of, is_next, is_trace};

verus! {

/// The messages that are completed along a trace.
pub open spec fn messages(trace: Seq<Framing>) -> Seq<Seq<u8>> {
    trace.filter(|framing: Framing| framing.complete()).map_values(
        |framing: Framing| framing.message,
    )
}

/// All messages, joined.
pub open spec fn all_bytes(messages: Seq<Seq<u8>>) -> Seq<u8>
    decreases messages.len(),
{
    if messages.len() == 0 {
        Seq::empty()
    } else {
        messages[0] + all_bytes(messages.skip(1))
    }
}

/// Whether one of the messages carries `tag`.
pub open spec fn is_carried(messages: Seq<Seq<u8>>, tag: Seq<u8>) -> bool {
    exists|k: int| 0 <= k < messages.len() && message_tag(#[trigger] messages[k]) == Some(tag)
}

proof fn lemma_messages(first: Framing, trace: Seq<Framing>)
    ensures
        first.complete() ==> messages(seq![first] + trace) == seq![first.message] + messages(trace),
        !first.complete() ==> messages(seq![first] + trace) == messages(trace),
{
    let wanted = |framing: Framing| framing.complete();
    Seq::filter_distributes_over_add(seq![first], trace, wanted);
    assert(seq![first].drop_last() =~= Seq::empty());
    assert(seq![first].filter(wanted) == if first.complete() {
        seq![first]
    } else {
        Seq::empty()
    }) by {
        reveal_with_fuel(Seq::filter, 2);
        assert(seq![first].last() == first);
        assert(wanted(first) == first.complete());
        assert(Seq::<Framing>::empty().push(first) =~= seq![first]);
    }
    if first.complete() {
        assert(messages(seq![first] + trace) =~= seq![first.message] + messages(trace));
    } else {
        assert(messages(seq![first] + trace) =~= messages(trace));
    }
}

proof fn lemma_no_messages()
    ensures
        messages(Seq::empty()).len() == 0,
{
    reveal(Seq::filter);
}

proof fn lemma_trace_on(start: Framing, next: Framing, trace: Seq<Framing>)
    requires
        start.progress().1 is Some,
        next == start.progress().0,
        is_trace(next, trace),
    ensures
        is_trace(start, seq![next] + trace),
        end_of(start, seq![next] + trace) == end_of(next, trace),
{
    let whole = seq![next] + trace;
    assert forall|k: int| 0 <= k < whole.len() implies #[trigger] is_next(start, whole, k) by {
        if k > 0 {
            assert(is_next(next, trace, k - 1));
        }
    }
}

/// Whether the messages along `trace` are what was captured from `start`
/// on.
pub open spec fn captures(
    pending: Seq<Seq<u8>>,
    response: Seq<u8>,
    start: Framing,
    trace: Seq<Framing>,
    captured: Captured,
) -> bool {
    let end = end_of(start, trace);
    &&& is_trace(start, trace)
    &&& end.progress().1 is None
    &&& captured.framing == end.progress().0
    &&& captured.response == response + all_bytes(messages(trace))
    &&& forall|tag: Seq<u8>| #[trigger]
        captured.pending.contains(tag) <==> pending.contains(tag) && !is_carried(
            messages(trace),
            tag,
        )
}

/// Every message that the bytes at hand complete is added to the
/// response, in order, and every command whose tag one of them carries is
/// no longer awaited; the others still are.
pub proof fn every_message_is_captured(pending: Seq<Seq<u8>>, response: Seq<u8>, start: Framing)
    ensures
        exists|trace: Seq<Framing>| #[trigger]
            captures(pending, response, start, trace, capture(pending, response, start)),
    decreases start.unparsed.len(), start.owed(),
{
    start.lemma_progress();
    let captured = capture(pending, response, start);
    let (next, fragment) = start.progress();
    if fragment is None {
        let none: Seq<Framing> = Seq::empty();
        lemma_no_messages();
        assert(captured.response =~= response + all_bytes(messages(none)));
        assert(captures(pending, response, start, none, captured));
    } else {
        let rest = if next.complete() {
            unacknowledged(pending, next.message)
        } else {
            pending
        };
        let more = if next.complete() {
            response + next.message
        } else {
            response
        };
        every_message_is_captured(rest, more, next);
        let trace = choose|trace: Seq<Framing>| #[trigger]
            captures(rest, more, next, trace, capture(rest, more, next));
        let whole = seq![next] + trace;
        let all = messages(whole);
        lemma_trace_on(start, next, trace);
        lemma_messages(next, trace);
        if next.complete() {
            assert(all.skip(1) =~= messages(trace));
            assert(captured.response =~= response + all_bytes(all));
        }
        assert forall|tag: Seq<u8>| #[trigger] captured.pending.contains(tag) <==> pending.contains(
            tag,
        ) && !is_carried(all, tag) by {
            if next.complete() {
                lemma_kept(pending, next.message, tag);
                lemma_carried(next.message, messages(trace), tag);
            }
        }
        assert(captures(pending, response, start, whole, captured));
    }
}

proof fn lemma_carried(first: Seq<u8>, rest: Seq<Seq<u8>>, tag: Seq<u8>)
    ensures
        is_carried(seq![first] + rest, tag) <==> message_tag(first) == Some(tag) || is_carried(
            rest,
            tag,
        ),
{
    let all = seq![first] + rest;
    if is_carried(rest, tag) {
        let k = choose|k: int| 0 <= k < rest.len() && message_tag(#[trigger] rest[k]) == Some(tag);
        assert(all[k + 1] == rest[k]);
    }
    if message_tag(first) == Some(tag) {
        assert(all[0] == first);
    }
    if is_carried(all, tag) {
        let k = choose|k: int| 0 <= k < all.len() && message_tag(#[trigger] all[k]) == Some(tag);
        if k > 0 {
            assert(all[k] == rest[k - 1]);
        }
    }
}

proof fn lemma_kept(pending: Seq<Seq<u8>>, message: Seq<u8>, tag: Seq<u8>)
    ensures
        unacknowledged(pending, message).contains(tag) <==> pending.contains(tag) && message_tag(
            message,
        ) != Some(tag),
{
    let other = |tag: Seq<u8>| message_tag(message) != Some(tag);
    if pending.contains(tag) && message_tag(message) != Some(tag) {
        let k = choose|k: int| 0 <= k < pending.len() && pending[k] == tag;
        pending.lemma_filter_contains(other, k);
    }
    if pending.filter(other).contains(tag) {
        let kept = pending.filter(other);
        let k = choose|k: int| 0 <= k < kept.len() && kept[k] == tag;
        pending.lemma_filter_pred(other, k);
        assert(other(tag));
        lemma_filter_from(pending, other, tag);
    }
}

proof fn lemma_filter_from(tags: Seq<Seq<u8>>, wanted: spec_fn(Seq<u8>) -> bool, tag: Seq<u8>)
    requires
        tags.filter(wanted).contains(tag),
    ensures
        tags.contains(tag),
    decreases tags.len(),
{
    reveal(Seq::filter);
    if tags.len() > 0 {
        let head = tags.drop_last();
        let kept = tags.filter(wanted);
        let k = choose|k: int| 0 <= k < kept.len() && kept[k] == tag;
        if wanted(tags.last()) && k == kept.len() - 1 {
            assert(tags[tags.len() - 1] == tag);
        } else {
            assert(head.filter(wanted)[k] == tag);
            lemma_filter_from(head, wanted, tag);
            let i = choose|i: int| 0 <= i < head.len() && head[i] == tag;
            assert(tags[i] == tag);
        }
    }
}

/// How raw commands are exchanged: they are written first. Then bytes are
/// read until no command is awaited any more, and all that was captured
/// is the answer. Nothing read is a connection that was closed.
pub proof fn raw_commands_are_exchanged(state: RawState, framing: Framing, arg: Option<Seq<u8>>)
    ensures
        state.command is Some ==> {
            let step = state.resume(framing, arg);
            &&& step.result is Yielded
            &&& step.result->Yielded_0 == YieldView::WantsWrite(state.command->0)
            &&& step.framing == framing
            &&& step.state.command is None
            &&& step.state.pending == state.pending
            &&& step.state.response == state.response
        },
        state.command is None && arg is None ==> {
            let step = state.resume(framing, arg);
            &&& step.result is Yielded
            &&& step.result->Yielded_0 is WantsRead
            &&& step.framing == framing
            &&& step.state == state
        },
        state.command is None && arg is Some && arg->0.len() == 0 ==> {
            let step = state.resume(framing, arg);
            &&& step.result is Complete
            &&& step.result->Complete_0 is Err
            &&& step.result->Complete_0->Err_0 is Eof
        },
        state.command is None && arg is Some && arg->0.len() > 0 ==> {
            let step = state.resume(framing, arg);
            let captured = capture(
                state.pending,
                state.response,
                (Framing { unparsed: framing.unparsed + arg->0, ..framing }),
            );
            &&& step.framing == captured.framing
            &&& step.state.command is None
            &&& step.state.pending == captured.pending
            &&& step.state.response == captured.response
            &&& captured.pending.len() > 0 ==> step.result is Yielded
                && step.result->Yielded_0 is WantsRead
            &&& captured.pending.len() == 0 ==> {
                &&& step.result is Complete
                &&& step.result->Complete_0 is Ok
                &&& step.result->Complete_0->Ok_0 == response_text(captured.response)
            }
        },
{
}

/// Whether the messages along `trace` give the tags, or the reason why
/// the commands cannot be sent, after the tags that were seen before.
pub open spec fn gives_tags(
    start: Framing,
    seen: Seq<Seq<u8>>,
    trace: Seq<Framing>,
    result: Result<Seq<Seq<u8>>, FailureView>,
) -> bool {
    let end = end_of(start, trace);
    let found = messages(trace);
    let told = Seq::new(found.len(), |k: int| message_tag(found[k])->0);
    &&& is_trace(start, trace)
    &&& match result {
        Ok(tags) => {
            &&& end.progress().1 is None
            &&& end.progress().0.message.len() == 0
            &&& forall|k: int| 0 <= k < found.len() ==> message_tag(#[trigger] found[k]) is Some
            &&& tags == seen + told
            &&& tags.len() > 0
        },
        Err(FailureView::IncompleteCommand) => {
            &&& end.progress().1 is None
            &&& end.progress().0.message.len() > 0
        },
        Err(FailureView::NoCommand) => {
            &&& end.progress().1 is None
            &&& end.progress().0.message.len() == 0
            &&& found.len() == 0
            &&& seen.len() == 0
        },
        Err(FailureView::MissingTag) => {
            &&& found.len() > 0
            &&& message_tag(found.last()) is None
        },
        Err(FailureView::DuplicateTag(text)) => {
            &&& found.len() > 0
            &&& message_tag(found.last()) is Some
            &&& text == decode_utf8(message_tag(found.last())->0)
            &&& seen.contains(message_tag(found.last())->0) || is_carried(
                found.drop_last(),
                message_tag(found.last())->0,
            )
        },
        Err(_) => false,
    }
}

/// The tags of raw commands are those of the messages that they make up,
/// in order. They cannot be sent where there is none, where the last is
/// cut off, where one has no tag, or where one has the tag of an earlier
/// one.
pub proof fn commands_have_their_tags(start: Framing, seen: Seq<Seq<u8>>)
    ensures
        exists|trace: Seq<Framing>| #[trigger]
            gives_tags(start, seen, trace, tags_of(start, seen)),
        seen.no_duplicates() && tags_of(start, seen) is Ok ==> tags_of(
            start,
            seen,
        )->Ok_0.no_duplicates(),
    decreases start.unparsed.len(), start.owed(),
{
    start.lemma_progress();
    let result = tags_of(start, seen);
    let (next, fragment) = start.progress();
    let none: Seq<Framing> = Seq::empty();
    lemma_no_messages();
    if fragment is None {
        assert(result is Ok ==> result->Ok_0 =~= seen + Seq::new(
            messages(none).len(),
            |k: int| message_tag(messages(none)[k])->0,
        ));
        assert(gives_tags(start, seen, none, result));
    } else {
        let tag = message_tag(next.message);
        let stops = next.complete() && (tag is None || seen.contains(tag->0));
        lemma_messages(next, none);
        if stops {
            let trace = seq![next] + none;
            lemma_trace_on(start, next, none);
            assert(messages(trace).last() == next.message);
            assert(gives_tags(start, seen, trace, result));
        } else {
            let more = if next.complete() {
                seen.push(tag->0)
            } else {
                seen
            };
            commands_have_their_tags(next, more);
            let trace = choose|trace: Seq<Framing>| #[trigger]
                gives_tags(next, more, trace, tags_of(next, more));
            lemma_tags_on(start, seen, next, trace, result);
        }
    }
}

proof fn lemma_tags_on(
    start: Framing,
    seen: Seq<Seq<u8>>,
    next: Framing,
    trace: Seq<Framing>,
    result: Result<Seq<Seq<u8>>, FailureView>,
)
    requires
        start.progress().1 is Some,
        next == start.progress().0,
        next.complete() ==> message_tag(next.message) is Some,
        gives_tags(
            next,
            if next.complete() {
                seen.push(message_tag(next.message)->0)
            } else {
                seen
            },
            trace,
            result,
        ),
    ensures
        gives_tags(start, seen, seq![next] + trace, result),
{
    let whole = seq![next] + trace;
    lemma_trace_on(start, next, trace);
    lemma_messages(next, trace);
    if next.complete() {
        let tag = message_tag(next.message)->0;
        let rest = messages(trace);
        let found = messages(whole);
        assert(found =~= seq![next.message] + rest);
        match result {
            Ok(tags) => {
                assert forall|k: int| 0 <= k < found.len() implies message_tag(
                    #[trigger] found[k],
                ) is Some by {
                    if k > 0 {
                        assert(found[k] == rest[k - 1]);
                    }
                }
                assert(tags =~= seen + Seq::new(
                    found.len(),
                    |k: int| message_tag(found[k])->0,
                ));
            },
            Err(FailureView::DuplicateTag(_)) => {
                assert(found.last() == rest.last());
                let last = message_tag(found.last())->0;
                assert(found.drop_last() =~= seq![next.message] + rest.drop_last());
                lemma_carried(next.message, rest.drop_last(), last);
                if seen.push(tag).contains(last) && !seen.contains(last) {
                    let k = choose|k: int|
                        0 <= k < seen.push(tag).len() && seen.push(tag)[k] == last;
                    if k < seen.len() {
                        assert(seen[k] == last);
                    }
                }
            },
            Err(_) => {},
        }
    }
}

/// How an upgrade to TLS is asked for. Up to the end of the first line,
/// what is read is the greeting: it is dropped, and the command written.
/// Then bytes are read until the line with the tag is complete: it starts
/// where the tag and a space stand first. What follows it is left over.
pub proof fn upgrade_is_asked_for(state: StartTlsState, bytes: Seq<u8>, start: int, end: int)
    requires
        bytes.len() > 0,
    ensures
        state.resume(None).result is Yielded,
        state.resume(None).result->Yielded_0 is WantsRead,
        state.resume(None).state == state,
        state.resume(Some(Seq::empty())).result is Complete,
        state.resume(Some(Seq::empty())).result->Complete_0 is Err,
        state.resume(Some(Seq::empty())).result->Complete_0->Err_0 is Eof,
        state.command is Some && !(state.buffer + bytes).contains('\n' as u8) ==> {
            let step = state.resume(Some(bytes));
            &&& step.result is Yielded
            &&& step.result->Yielded_0 is WantsRead
            &&& step.state.buffer == state.buffer + bytes
            &&& step.state.command == state.command
        },
        state.command is Some && 0 <= end < (state.buffer + bytes).len() && (state.buffer
            + bytes)[end] == '\n' as u8 && !(state.buffer + bytes).take(end).contains(
            '\n' as u8,
        ) ==> {
            let step = state.resume(Some(bytes));
            &&& step.result is Yielded
            &&& step.result->Yielded_0 == YieldView::WantsWrite(state.command->0)
            &&& step.state.command is None
            &&& step.state.needle == state.needle
            &&& step.state.buffer == (state.buffer + bytes).skip(end + 1)
        },
        state.command is None && (forall|i: int|
            !#[trigger] occurs_at(state.buffer + bytes, state.needle, i)) ==> {
            let step = state.resume(Some(bytes));
            &&& step.result is Yielded
            &&& step.result->Yielded_0 is WantsRead
            &&& step.state.buffer == state.buffer + bytes
        },
        state.command is None && is_first_at(state.buffer + bytes, state.needle, start)
            && !(state.buffer + bytes).skip(start).contains('\n' as u8) ==> {
            let step = state.resume(Some(bytes));
            &&& step.result is Yielded
            &&& step.result->Yielded_0 is WantsRead
            &&& step.state.buffer == state.buffer + bytes
        },
        state.command is None && is_first_at(state.buffer + bytes, state.needle, start) && start
            <= end < (state.buffer + bytes).len() && (state.buffer + bytes)[end] == '\n' as u8
            && !(state.buffer + bytes).subrange(start, end).contains('\n' as u8) ==> {
            let step = state.resume(Some(bytes));
            &&& step.result is Complete
            &&& step.result->Complete_0 is Ok
            &&& step.result->Complete_0->Ok_0 == (state.buffer + bytes).skip(end + 1)
        },
{
    let all = state.buffer + bytes;
    all.index_of_first_ensures(0x0a);
    if state.command is Some {
        if 0 <= end < all.len() && all[end] == '\n' as u8 && !all.take(end).contains('\n' as u8) {
            let index = all.index_of_first(0x0a)->0;
            assert(all.contains(0x0a));
            if index < end {
                assert(all.take(end)[index] == 0x0a);
            }
            assert(index == end);
        }
    } else {
        if is_first_at(all, state.needle, start) {
            occurrence_is_byte_for_byte(all, state.needle, start);
            assert(first_occurs_at(all, state.needle, start));
            let found = choose|i: int| first_occurs_at(all, state.needle, i);
            assert(occurs_at(all, state.needle, found) && occurs_at(all, state.needle, start));
            assert(found == start);
            let tail = all.skip(start);
            tail.index_of_first_ensures(0x0a);
            if start <= end < all.len() && all[end] == '\n' as u8 && !all.subrange(
                start,
                end,
            ).contains('\n' as u8) {
                assert(tail[end - start] == 0x0a);
                let index = tail.index_of_first(0x0a)->0;
                if index < end - start {
                    assert(all.subrange(start, end)[index] == 0x0a);
                }
                assert(index == end - start);
            }
        }
    }
}

/// Whether `needle` stands at `start` in `bytes`, and nowhere before.
pub open spec fn is_first_at(bytes: Seq<u8>, needle: Seq<u8>, start: int) -> bool {
    &&& 0 <= start
    &&& start + needle.len() <= bytes.len()
    &&& forall|k: int| 0 <= k < needle.len() ==> bytes[start + k] == #[trigger] needle[k]
    &&& forall|i: int| 0 <= i < start ==> !#[trigger] occurs_at(bytes, needle, i)
}

/// A text stands at a place when each of its bytes does.
pub proof fn occurrence_is_byte_for_byte(bytes: Seq<u8>, needle: Seq<u8>, index: int)
    ensures
        occurs_at(bytes, needle, index) <==> 0 <= index && index + needle.len() <= bytes.len()
            && forall|k: int| 0 <= k < needle.len() ==> bytes[index + k] == #[trigger] needle[k],
{
    if 0 <= index && index + needle.len() <= bytes.len() {
        let part = bytes.subrange(index, index + needle.len());
        if part == needle {
            assert forall|k: int| 0 <= k < needle.len() implies bytes[index + k]
                == #[trigger] needle[k] by {
                assert(part[k] == needle[k]);
            }
        }
        if forall|k: int| 0 <= k < needle.len() ==> bytes[index + k] == #[trigger] needle[k] {
            assert(part =~= needle);
        }
    }
}

/// The tags of raw commands are read from the first byte on, with nothing
/// seen before, and with room for 50 MiB.
pub proof fn commands_are_read_from_the_start(command: Seq<u8>, start: Framing)
    requires
        start.unparsed == command,
        start.message.len() == 0,
        start.expecting == Expecting::Line(Seq::empty()),
        !start.too_long,
        !start.poisoned,
        start.limit == Some(52_428_800u32),
    ensures
        command_tags(command) == tags_of(start, Seq::empty()),
{
    let empty = Framing::empty(MAX_COMMAND_SIZE).enqueue(command);
    assert(empty.unparsed =~= command);
    assert(empty.message =~= start.message);
    assert(start == empty);
}

/// An upgrade starts with its command to be written: the tag, a space,
/// STARTTLS and CRLF. Its answer is told by the tag and a space.
pub proof fn upgrade_starts_under_its_tag(tag: imap_types::core::Tag<'static>)
    ensures
        ({
            let start = StartTlsState::start(tag);
            &&& start.command == Some(
                tag_text(tag) + seq![' ' as u8] + BareCommand::StartTls.keyword() + seq![
                    '\r' as u8,
                    '\n' as u8,
                ],
            )
            &&& start.needle == tag_text(tag) + seq![' ' as u8]
            &&& start.buffer.len() == 0
        }),
{
    assert(StartTlsState::start(tag).needle =~= tag_text(tag) + seq![' ' as u8]);
}

} // verus!
