//! What streaming bodies is for, stated over the lines that the server
//! sends and the octets between them.

use imap_codec::imap_types;
use imap_codec::imap_types::sequence::SequenceSet;
use vstd::prelude::*;

use crate::command::{
    command_fragments, dumped, is_tag_text, item_set, sequence_set_of, tag_text, CommandView,
    ItemName,
};
use crate::framing::{decimal_value, Fragment, Framing};
use crate::outcome::FailureView;
use crate::response::{ResponseView, StatusKind};
use crate::rfc3501::fetch_stream::{
    is_body_command, FetchStreamPhase, FetchStreamState, FetchStreamYieldView,
};
use crate::rfc3501::fetch_stream_batch::{
    after_spaces, is_batch_command, is_first_uid_token, is_uid_token, leading_digits,
    leading_spaces, parsed_uid, BatchPhase, BatchState, BatchYieldView,
};
use crate::rfc3501::lines::{ending, scan, LineEventView, Scan};

verus! {

/// Whether a response ends a command: a completion or a BYE.
pub open spec fn is_ending(response: ResponseView) -> bool {
    response is Tagged || response is Bye
}

/// A command ends well with a completion, with the text of a NO or a BAD,
/// or with that of a BYE.
pub open spec fn ends_with(response: ResponseView, result: Result<(), FailureView>) -> bool {
    match result {
        Ok(_) => response is Tagged && response->Tagged_0.kind == StatusKind::Success,
        Err(FailureView::No(text)) => response is Tagged && response->Tagged_0.kind
            == StatusKind::No && text == response->Tagged_0.text,
        Err(FailureView::Bad(text)) => response is Tagged && response->Tagged_0.kind
            == StatusKind::Bad && text == response->Tagged_0.text,
        Err(FailureView::Bye(text)) => response is Bye && text == response->Bye_0,
        Err(_) => false,
    }
}

/// Only a completion or a BYE ends a command, and it ends the way that
/// the server says.
pub proof fn ending_is_the_servers(response: ResponseView)
    ensures
        ending(response) is Some <==> is_ending(response),
        ending(response) matches Some(result) ==> ends_with(response, result),
{
}

/// One line as it is read: its bytes, what the parser makes of them and
/// where that leaves the parser.
pub struct LineRead {
    pub line: Seq<u8>,
    pub fragment: Option<Fragment>,
    pub framing: Framing,
}

/// Whether the line at place `k` is one, and is parsed after those before
/// it.
pub open spec fn is_read_next(start: Framing, reads: Seq<LineRead>, k: int) -> bool {
    let before = if k == 0 {
        start
    } else {
        reads[k - 1].framing
    };
    let line = reads[k].line;
    &&& line.len() > 0
    &&& line.last() == '\n' as u8
    &&& !line.drop_last().contains('\n' as u8)
    &&& (reads[k].framing, reads[k].fragment) == Framing {
        unparsed: before.unparsed + line,
        ..before
    }.progress()
}

pub open spec fn are_read(start: Framing, reads: Seq<LineRead>) -> bool {
    forall|k: int| 0 <= k < reads.len() ==> #[trigger] is_read_next(start, reads, k)
}

/// Whether a line announces a literal of the given size.
pub open spec fn announces(read: LineRead, length: u32) -> bool {
    read.fragment == Some(Fragment::Line(Some(length)))
}

/// Whether a line ends the command.
pub open spec fn ends(read: LineRead) -> bool {
    &&& read.fragment == Some(Fragment::Line(None))
    &&& read.framing.decode() is Ok
    &&& is_ending(read.framing.decode()->Ok_0)
}

/// Whether a line does not matter.
pub open spec fn is_quiet(read: LineRead) -> bool {
    !ends(read) && forall|length: u32| !announces(read, length)
}

/// All lines, joined.
pub open spec fn lines_of(reads: Seq<LineRead>) -> Seq<u8>
    decreases reads.len(),
{
    if reads.len() == 0 {
        Seq::empty()
    } else {
        reads[0].line + lines_of(reads.skip(1))
    }
}

/// Whether reading lines out of `pending` leads to what is left.
pub open spec fn reads_to(
    pending: Seq<u8>,
    start: Framing,
    reads: Seq<LineRead>,
    found: Scan,
) -> bool {
    &&& are_read(start, reads)
    &&& pending == lines_of(reads) + found.pending
    &&& found.framing == if reads.len() == 0 {
        start
    } else {
        reads.last().framing
    }
    &&& match found.event {
        LineEventView::Starved => {
            &&& !found.pending.contains('\n' as u8)
            &&& forall|k: int| 0 <= k < reads.len() ==> is_quiet(#[trigger] reads[k])
        },
        LineEventView::Announced { line, length } => {
            &&& reads.len() > 0
            &&& forall|k: int| 0 <= k < reads.len() - 1 ==> is_quiet(#[trigger] reads[k])
            &&& announces(reads.last(), length)
            &&& line == reads.last().line
        },
        LineEventView::Ended(result) => {
            &&& reads.len() > 0
            &&& forall|k: int| 0 <= k < reads.len() - 1 ==> is_quiet(#[trigger] reads[k])
            &&& ends(reads.last())
            &&& ends_with(reads.last().framing.decode()->Ok_0, result)
        },
    }
}

proof fn lemma_reads_on(
    pending: Seq<u8>,
    start: Framing,
    read: LineRead,
    rest: Seq<u8>,
    reads: Seq<LineRead>,
    found: Scan,
)
    requires
        is_read_next(start, seq![read], 0),
        is_quiet(read),
        pending == read.line + rest,
        reads_to(rest, read.framing, reads, found),
    ensures
        reads_to(pending, start, seq![read] + reads, found),
{
    let whole = seq![read] + reads;
    assert forall|k: int| 0 <= k < whole.len() implies #[trigger] is_read_next(start, whole, k) by {
        if k > 0 {
            assert(is_read_next(read.framing, reads, k - 1));
        }
    }
    assert(whole.skip(1) =~= reads);
    assert(read.line + (lines_of(reads) + found.pending) =~= read.line + lines_of(reads)
        + found.pending);
    assert forall|k: int| 1 <= k < whole.len() implies #[trigger] whole[k] == reads[k - 1] by {}
}

/// Lines are taken out of the bytes at hand, one after another and none
/// in part, until one announces a literal, one ends the command, or no
/// whole line is left. What follows that line is left alone.
pub proof fn lines_are_read_in_turn(pending: Seq<u8>, start: Framing)
    ensures
        exists|reads: Seq<LineRead>| #[trigger]
            reads_to(pending, start, reads, scan(pending, start)),
    decreases pending.len(),
{
    let found = scan(pending, start);
    let none: Seq<LineRead> = Seq::empty();
    pending.index_of_first_ensures(0x0a);
    match pending.index_of_first(0x0a) {
        None => {
            assert(pending =~= lines_of(none) + found.pending);
            assert(reads_to(pending, start, none, found));
        },
        Some(index) => {
            let line = pending.take(index + 1);
            let rest = pending.skip(index + 1);
            let (next, fragment) = start.enqueue(line).progress();
            let read = LineRead { line, fragment, framing: next };
            assert(pending =~= line + rest);
            assert(line.last() == 0x0a);
            assert(!line.drop_last().contains('\n' as u8)) by {
                if line.drop_last().contains('\n' as u8) {
                    let i = choose|i: int|
                        0 <= i < line.len() - 1 && line.drop_last()[i] == '\n' as u8;
                    assert(pending[i] == 0x0a);
                }
            }
            assert(is_read_next(start, seq![read], 0));
            if next.decode() is Ok {
                ending_is_the_servers(next.decode()->Ok_0);
            }
            if is_quiet(read) {
                assert(fragment matches Some(Fragment::Line(Some(length))) ==> announces(
                    read,
                    length,
                ));
                assert(found == scan(rest, next));
                lines_are_read_in_turn(rest, next);
                let reads = choose|reads: Seq<LineRead>| #[trigger]
                    reads_to(rest, next, reads, scan(rest, next));
                lemma_reads_on(pending, start, read, rest, reads, found);
            } else {
                let reads = seq![read];
                assert(reads.skip(1) =~= none);
                assert(lines_of(none) =~= Seq::empty());
                assert(lines_of(reads) =~= line + lines_of(none));
                assert(pending =~= lines_of(reads) + rest);
                assert(reads_to(pending, start, reads, found));
            }
        },
    }
}

/// Whether the word UID stands at `i`, at the start of a word, with that
/// many spaces and that many digits behind it, and no more digits.
pub open spec fn is_uid_at(line: Seq<u8>, i: int, spaces: int, digits: int) -> bool {
    let end = i + 3 + spaces + digits;
    &&& 0 <= i
    &&& 0 < spaces
    &&& 0 < digits
    &&& end <= line.len()
    &&& line[i] == 'U' as u8 || line[i] == 'u' as u8
    &&& line[i + 1] == 'I' as u8 || line[i + 1] == 'i' as u8
    &&& line[i + 2] == 'D' as u8 || line[i + 2] == 'd' as u8
    &&& i > 0 ==> !('0' as u8 <= line[i - 1] <= '9' as u8 || 'A' as u8 <= line[i - 1] <= 'Z' as u8
        || 'a' as u8 <= line[i - 1] <= 'z' as u8)
    &&& forall|k: int| i + 3 <= k < i + 3 + spaces ==> #[trigger] line[k] == ' ' as u8
    &&& forall|k: int|
        i + 3 + spaces <= k < end ==> '0' as u8 <= #[trigger] line[k] <= '9' as u8
    &&& end < line.len() ==> !('0' as u8 <= line[end] <= '9' as u8)
}

proof fn lemma_spaces(s: Seq<u8>)
    ensures
        leading_spaces(s) <= s.len(),
        forall|k: int| 0 <= k < leading_spaces(s) ==> #[trigger] s[k] == 0x20,
        leading_spaces(s) < s.len() ==> s[leading_spaces(s) as int] != 0x20,
    decreases s.len(),
{
    if s.len() > 0 && s[0] == 0x20 {
        lemma_spaces(s.skip(1));
        assert forall|k: int| 0 <= k < leading_spaces(s) implies #[trigger] s[k] == 0x20 by {
            if k > 0 {
                assert(s[k] == s.skip(1)[k - 1]);
            }
        }
    }
}

proof fn lemma_digits(s: Seq<u8>)
    ensures
        leading_digits(s) <= s.len(),
        forall|k: int| 0 <= k < leading_digits(s) ==> 0x30 <= #[trigger] s[k] <= 0x39,
        leading_digits(s) < s.len() ==> !(0x30 <= s[leading_digits(s) as int] <= 0x39),
    decreases s.len(),
{
    if s.len() > 0 && 0x30 <= s[0] <= 0x39 {
        lemma_digits(s.skip(1));
        assert forall|k: int| 0 <= k < leading_digits(s) implies 0x30 <= #[trigger] s[k]
            <= 0x39 by {
            if k > 0 {
                assert(s[k] == s.skip(1)[k - 1]);
            }
        }
    }
}

proof fn lemma_uid_at(line: Seq<u8>, i: int, spaces: int, digits: int)
    requires
        0 <= i,
    ensures
        is_uid_at(line, i, spaces, digits) <==> is_uid_token(line, i) && spaces
            == leading_spaces(line.skip(i + 3)) && digits == leading_digits(after_spaces(line, i)),
{
    if i + 3 <= line.len() {
        let tail = line.skip(i + 3);
        let text = after_spaces(line, i);
        lemma_spaces(tail);
        lemma_digits(text);
        let held = leading_spaces(tail) as int;
        let count = leading_digits(text) as int;
        assert(forall|k: int| 0 <= k < tail.len() ==> #[trigger] tail[k] == line[i + 3 + k]);
        assert(forall|k: int|
            0 <= k < text.len() ==> #[trigger] text[k] == line[i + 3 + held + k]);
        if is_uid_token(line, i) {
            assert forall|k: int| i + 3 <= k < i + 3 + held implies #[trigger] line[k]
                == ' ' as u8 by {
                assert(tail[k - i - 3] == line[k]);
            }
            assert forall|k: int| i + 3 + held <= k < i + 3 + held + count implies '0' as u8
                <= #[trigger] line[k] <= '9' as u8 by {
                assert(text[k - i - 3 - held] == line[k]);
            }
            if i + 3 + held + count < line.len() {
                assert(text[count] == line[i + 3 + held + count]);
            }
            assert(is_uid_at(line, i, held, count));
        }
        if is_uid_at(line, i, spaces, digits) {
            if held < spaces {
                assert(tail[held] == line[i + 3 + held]);
            } else if held > spaces {
                assert(tail[spaces] == line[i + 3 + spaces]);
            }
            assert(held == spaces);
            if count < digits {
                assert(text[count] == line[i + 3 + held + count]);
            } else if count > digits {
                assert(text[digits] == line[i + 3 + held + digits]);
            }
            assert(count == digits);
        }
    }
}

/// The UID of a line is the number behind the first word UID that has
/// one; a number too large for a UID is none.
pub proof fn uid_is_the_first_one(line: Seq<u8>, i: int, spaces: int, digits: int)
    requires
        is_uid_at(line, i, spaces, digits),
        forall|j: int, s: int, d: int| 0 <= j < i ==> !#[trigger] is_uid_at(line, j, s, d),
    ensures
        ({
            let from = i + 3 + spaces;
            let value = decimal_value(line.subrange(from, from + digits));
            match parsed_uid(line) {
                Some(uid) => uid == value,
                None => value > u32::MAX,
            }
        }),
{
    lemma_uid_at(line, i, spaces, digits);
    assert forall|k: int| 0 <= k < i implies !is_uid_token(line, k) by {
        let s = leading_spaces(line.skip(k + 3)) as int;
        let d = leading_digits(after_spaces(line, k)) as int;
        lemma_uid_at(line, k, s, d);
        assert(!is_uid_at(line, k, s, d));
    }
    assert(is_first_uid_token(line, i));
    let first = choose|i: int| is_first_uid_token(line, i);
    assert(first == i);
    lemma_spaces(line.skip(i + 3));
    let text = after_spaces(line, i);
    assert(text.take(digits) =~= line.subrange(i + 3 + spaces, i + 3 + spaces + digits));
}

/// A line without such a word has no UID.
pub proof fn no_word_no_uid(line: Seq<u8>)
    requires
        forall|j: int, s: int, d: int| 0 <= j ==> !#[trigger] is_uid_at(line, j, s, d),
    ensures
        parsed_uid(line) is None,
{
    assert forall|k: int| !is_first_uid_token(line, k) by {
        if is_first_uid_token(line, k) {
            let s = leading_spaces(line.skip(k + 3)) as int;
            let d = leading_digits(after_spaces(line, k)) as int;
            lemma_uid_at(line, k, s, d);
            assert(is_uid_at(line, k, s, d));
        }
    }
}

/// How the body of one message is fetched while lines are read, before
/// the body and after it. Nothing read is a connection that was closed.
/// Without a whole line more bytes are awaited. The completion ends it.
/// The first literal is the body, and another one is an error.
pub proof fn lines_around_the_body(state: FetchStreamState, framing: Framing, arg: Option<Seq<u8>>)
    requires
        state.phase is Header || state.phase is Trailer,
        state.is_valid(),
    ensures
        ({
            let step = state.resume(framing, arg);
            let at_hand = if arg is Some {
                state.pending + arg->0
            } else {
                state.pending
            };
            let found = scan(at_hand, framing);
            if arg is Some && arg->0.len() == 0 {
                &&& step.result is Complete
                &&& step.result->Complete_0 is Err
                &&& step.result->Complete_0->Err_0 == FailureView::MissingTagged
            } else {
                match found.event {
                    LineEventView::Starved => {
                        &&& step.result is Yielded
                        &&& step.result->Yielded_0 is WantsRead
                        &&& step.framing == found.framing
                        &&& step.state.phase == state.phase
                        &&& step.state.pending == found.pending
                    },
                    LineEventView::Ended(result) => {
                        &&& step.result is Complete
                        &&& step.result->Complete_0 == result
                        &&& step.framing == found.framing
                        &&& step.state.pending == found.pending
                    },
                    LineEventView::Announced { length, .. } => if state.phase is Trailer {
                        &&& step.result is Complete
                        &&& step.result->Complete_0 is Err
                        &&& step.result->Complete_0->Err_0 == FailureView::UnexpectedLiteral
                    } else if length == 0 {
                        step == (FetchStreamState {
                            phase: FetchStreamPhase::Trailer,
                            pending: found.pending,
                            remaining: 0,
                            stream_pending: false,
                        }).resume(found.framing.restart(), None)
                    } else {
                        &&& step.result is Yielded
                        &&& step.framing == found.framing
                        &&& step.state.phase is Stream
                        &&& found.pending.len() == 0 ==> step.result->Yielded_0 == (
                        FetchStreamYieldView::WantsStream { len: length })
                        &&& found.pending.len() > 0 ==> {
                            &&& step.result->Yielded_0 is BodyChunk
                            &&& step.result->Yielded_0->BodyChunk_0 + step.state.pending
                                == found.pending
                            &&& step.result->Yielded_0->BodyChunk_0.len() + step.state.remaining
                                == length
                            &&& step.state.remaining == 0 || step.state.pending.len() == 0
                        }
                    },
                }
            }
        }),
{
    let step = state.resume(framing, arg);
    let at_hand = if arg is Some {
        state.pending + arg->0
    } else {
        state.pending
    };
    let found = scan(at_hand, framing);
    if step.result is Yielded && step.result->Yielded_0 is BodyChunk {
        assert(step.result->Yielded_0->BodyChunk_0 + step.state.pending =~= found.pending);
    }
}

/// First the command is written. Once the driver has streamed the rest of
/// the body, or nothing of it is left, the lines behind it are read.
pub proof fn body_has_two_ends(state: FetchStreamState, framing: Framing, arg: Option<Seq<u8>>)
    requires
        state.is_valid(),
    ensures
        state.phase matches FetchStreamPhase::SendCommand(command) ==> {
            let step = state.resume(framing, arg);
            &&& step.result is Yielded
            &&& step.result->Yielded_0 == FetchStreamYieldView::WantsWrite(command)
            &&& step.framing == framing
            &&& step.state.phase is Header
            &&& step.state.pending == state.pending
        },
        state.phase is Stream && state.stream_pending ==> {
            let step = state.resume(framing, arg);
            if arg is Some && arg->0.len() == 0 {
                &&& step.result is Complete
                &&& step.result->Complete_0 is Err
                &&& step.result->Complete_0->Err_0 == FailureView::ShortBody
            } else {
                &&& step.result is Yielded
                &&& step.result->Yielded_0 is WantsRead
                &&& step.state.phase is Trailer
                &&& !step.state.stream_pending
                &&& step.state.pending.len() == 0
                &&& step.framing == framing.restart()
            }
        },
        state.phase is Stream && state.remaining == 0 ==> state.resume(framing, arg) == (
        FetchStreamState {
            phase: FetchStreamPhase::Trailer,
            pending: state.pending,
            remaining: 0,
            stream_pending: state.stream_pending,
        }).resume(framing.restart(), arg),
{
    if arg is Some && arg->0.len() == 0 {
        assert(arg == Some(Seq::<u8>::empty()));
    }
    if state.phase is Stream && state.stream_pending {
        Seq::<u8>::empty().index_of_first_ensures(0x0a);
        assert(state.pending =~= Seq::empty());
    }
}

/// How bodies are fetched while lines are read, before each of them and
/// after the last. Nothing read is a connection that was closed. Without
/// a whole line more bytes are awaited. The completion ends it. Each
/// literal is the body of the message whose UID its line has, and must
/// have one.
pub proof fn lines_between_bodies(state: BatchState, framing: Framing, arg: Option<Seq<u8>>)
    requires
        state.phase is NextItem,
    ensures
        ({
            let step = state.resume(framing, arg);
            let at_hand = if arg is Some {
                state.pending + arg->0
            } else {
                state.pending
            };
            let found = scan(at_hand, framing);
            if arg is Some && arg->0.len() == 0 {
                &&& step.result is Complete
                &&& step.result->Complete_0 is Err
                &&& step.result->Complete_0->Err_0 == FailureView::MissingTagged
            } else {
                &&& step.framing == found.framing
                &&& step.state.pending == found.pending
                &&& match found.event {
                    LineEventView::Starved => {
                        &&& step.result is Yielded
                        &&& step.result->Yielded_0 is WantsRead
                        &&& step.state.phase is NextItem
                    },
                    LineEventView::Ended(result) => {
                        &&& step.result is Complete
                        &&& step.result->Complete_0 == result
                    },
                    LineEventView::Announced { line, length } => if parsed_uid(line) is Some {
                        &&& step.result is Yielded
                        &&& step.result->Yielded_0 == (BatchYieldView::MessageStart {
                            uid: parsed_uid(line)->0,
                        })
                        &&& step.state.phase is Stream
                        &&& step.state.remaining == length
                    } else {
                        &&& step.result is Complete
                        &&& step.result->Complete_0 is Err
                        &&& step.result->Complete_0->Err_0 == FailureView::UidMissing
                    },
                }
            }
        }),
{
}

/// First the command is written. A message ends once the driver has
/// streamed the rest of its body, or nothing of it is left; the lines
/// behind it are read next.
pub proof fn each_body_has_two_ends(state: BatchState, framing: Framing, arg: Option<Seq<u8>>)
    requires
        state.is_valid(),
    ensures
        state.phase matches BatchPhase::SendCommand(command) ==> {
            let step = state.resume(framing, arg);
            &&& step.result is Yielded
            &&& step.result->Yielded_0 == BatchYieldView::WantsWrite(command)
            &&& step.framing == framing
            &&& step.state.phase is NextItem
            &&& step.state.pending == state.pending
        },
        state.phase is Stream && state.stream_pending && arg is Some && arg->0.len() == 0 ==> {
            let step = state.resume(framing, arg);
            &&& step.result is Complete
            &&& step.result->Complete_0 is Err
            &&& step.result->Complete_0->Err_0 == FailureView::ShortBody
        },
        state.phase is Stream && (state.remaining == 0 || state.stream_pending && (arg is None
            || arg->0.len() > 0)) ==> {
            let step = state.resume(framing, arg);
            &&& step.result is Yielded
            &&& step.result->Yielded_0 is MessageEnd
            &&& step.state.phase is NextItem
            &&& step.state.remaining == 0
            &&& step.state.pending == state.pending
            &&& step.framing == framing.restart()
        },
{
    if arg is Some && arg->0.len() == 0 {
        assert(arg == Some(Seq::<u8>::empty()));
    }
}

/// A body is fetched with BODY.PEEK[] alone, several with their UIDs
/// before them. Nothing is read or handed over before the command is
/// written.
pub proof fn bodies_are_asked_for(bytes: Seq<u8>, id: u32, messages: SequenceSet, uid: bool)
    ensures
        is_body_command(bytes, id, uid) ==> exists|tag: imap_types::core::Tag<'static>|
            #[trigger] is_tag_text(tag_text(tag)) && bytes == dumped(
                command_fragments(
                    tag,
                    CommandView::Fetch {
                        messages: sequence_set_of(seq![id]),
                        items: item_set(seq![ItemName::BodyPeek]),
                        uid,
                        modifiers: Seq::empty(),
                    },
                ),
            ),
        is_batch_command(bytes, messages, uid) ==> exists|tag: imap_types::core::Tag<'static>|
            #[trigger] is_tag_text(tag_text(tag)) && bytes == dumped(
                command_fragments(
                    tag,
                    CommandView::Fetch {
                        messages,
                        items: item_set(seq![ItemName::Uid, ItemName::BodyPeek]),
                        uid,
                        modifiers: Seq::empty(),
                    },
                ),
            ),
        FetchStreamState::start(bytes).phase == FetchStreamPhase::SendCommand(bytes),
        FetchStreamState::start(bytes).pending.len() == 0,
        FetchStreamState::start(bytes).remaining == 0,
        !FetchStreamState::start(bytes).stream_pending,
        BatchState::start(bytes).phase == BatchPhase::SendCommand(bytes),
        BatchState::start(bytes).pending.len() == 0,
        BatchState::start(bytes).remaining == 0,
        !BatchState::start(bytes).stream_pending,
{
}

} // verus!
