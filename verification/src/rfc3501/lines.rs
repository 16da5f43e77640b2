//! Reading a response line by line, with its literals left out.
//!
//! The streaming FETCH coroutines feed the parser buffer with whole lines
//! only, so that the octets of an announced literal can bypass it.

use imap_codec::fragmentizer::Fragmentizer;
use vstd::prelude::*;

use crate::framing::{
    announced, enqueue_bytes, framing, progress, Expecting, Fragment, Framing,
};
use crate::outcome::{completion, FailureView, Refusal};
use crate::response::{decode_response, ResponseView, ServerResponse, StatusKind};

verus! {

/// How a command ends with the current message: with its completion or
/// with a BYE. Any other message, decodable or not, ends nothing.
pub open spec fn terminal(framing: Framing) -> Option<Result<(), FailureView>> {
    match framing.decode() {
        Ok(response) => ending(response),
        Err(_) => None,
    }
}

/// How a command ends with a response: with its completion or with a BYE.
pub open spec fn ending(response: ResponseView) -> Option<Result<(), FailureView>> {
    match response {
        ResponseView::Tagged(status) => Some(
            match completion(Some(status)) {
                Ok(_) => Ok(()),
                Err(err) => Err(err),
            },
        ),
        ResponseView::Bye(text) => Some(Err(FailureView::Bye(text))),
        _ => None,
    }
}

/// What reading lines leads to.
#[derive(Debug)]
pub enum LineEvent {
    /// There is no complete line left.
    Starved,
    /// A line announces a literal.
    Announced { line: Vec<u8>, length: u32 },
    /// The command is over.
    Ended(Result<(), Refusal>),
}

/// Model of [`LineEvent`].
pub enum LineEventView {
    Starved,
    Announced { line: Seq<u8>, length: u32 },
    Ended(Result<(), FailureView>),
}

pub open spec fn ending_view(result: Result<(), Refusal>) -> Result<(), FailureView> {
    match result {
        Ok(_) => Ok(()),
        Err(refusal) => Err(refusal@),
    }
}

impl View for LineEvent {
    type V = LineEventView;

    open spec fn view(&self) -> LineEventView {
        match *self {
            LineEvent::Starved => LineEventView::Starved,
            LineEvent::Announced { line, length } => LineEventView::Announced {
                line: line@,
                length,
            },
            LineEvent::Ended(result) => LineEventView::Ended(ending_view(result)),
        }
    }
}

/// What [`scan`] leaves.
pub struct Scan {
    pub pending: Seq<u8>,
    pub framing: Framing,
    pub event: LineEventView,
}

/// Takes lines out of `pending` until one matters.
pub open spec fn scan(pending: Seq<u8>, framing: Framing) -> Scan
    decreases pending.len(),
{
    proof {
        pending.index_of_first_ensures(0x0a);
    }
    match pending.index_of_first(0x0a) {
        None => Scan { pending, framing, event: LineEventView::Starved },
        Some(index) => {
            let line = pending.take(index + 1);
            let rest = pending.skip(index + 1);
            let (next, fragment) = framing.enqueue(line).progress();
            match fragment {
                Some(Fragment::Line(Some(length))) => Scan {
                    pending: rest,
                    framing: next,
                    event: LineEventView::Announced { line, length },
                },
                Some(Fragment::Line(None)) => match terminal(next) {
                    Some(result) => Scan {
                        pending: rest,
                        framing: next,
                        event: LineEventView::Ended(result),
                    },
                    None => scan(rest, next),
                },
                _ => scan(rest, next),
            }
        },
    }
}

/// A line feed at the end, and nowhere else.
pub open spec fn is_line(line: Seq<u8>) -> bool {
    line.len() > 0 && line.index_of_first(0x0a) == Some(line.len() - 1)
}

/// Between two messages, with nothing enqueued.
pub open spec fn is_idle(framing: Framing) -> bool {
    &&& framing.unparsed.len() == 0
    &&& framing.complete() || framing.expecting == Expecting::Line(Seq::empty())
}

/// The line that begins a sequence is the first one that is read.
pub proof fn first_line(line: Seq<u8>, rest: Seq<u8>)
    requires
        is_line(line),
    ensures
        (line + rest).index_of_first(0x0a) == Some(line.len() - 1),
        (line + rest).take(line.len() as int) == line,
        (line + rest).skip(line.len() as int) == rest,
{
    let all = line + rest;
    line.index_of_first_ensures(0x0a);
    all.index_of_first_ensures(0x0a);
    assert(all[line.len() - 1] == 0x0a);
    assert(all.contains(0x0a));
    let index = all.index_of_first(0x0a)->0;
    if index < line.len() - 1 {
        assert(line[index] == all[index]);
    }
    assert(all.take(line.len() as int) =~= line);
    assert(all.skip(line.len() as int) =~= rest);
}

/// A line that announces a literal, read between two messages, is
/// reported with the size of that literal, and what follows it is left
/// alone.
pub proof fn announcement_is_found(line: Seq<u8>, rest: Seq<u8>, framing: Framing)
    requires
        is_line(line),
        announced(line) is Some,
        is_idle(framing),
    ensures
        scan(line + rest, framing).event == (LineEventView::Announced {
            line,
            length: announced(line)->0,
        }),
        scan(line + rest, framing).pending == rest,
{
    first_line(line, rest);
    let fed = framing.enqueue(line);
    assert(fed.unparsed =~= line);
    assert(Seq::<u8>::empty() + line.take(line.len() as int) =~= line);
}

/// Reading on with more bytes is the same as having had them all along,
/// and a line that matters does so whatever follows it.
pub proof fn scan_can_be_split(pending: Seq<u8>, framing: Framing, bytes: Seq<u8>)
    ensures
        ({
            let found = scan(pending, framing);
            scan(pending + bytes, framing) == if found.event is Starved {
                scan(found.pending + bytes, found.framing)
            } else {
                Scan { pending: found.pending + bytes, ..found }
            }
        }),
    decreases pending.len(),
{
    let all = pending + bytes;
    pending.index_of_first_ensures(0x0a);
    if let Some(index) = pending.index_of_first(0x0a) {
        let line = pending.take(index + 1);
        let rest = pending.skip(index + 1);
        line.index_of_first_ensures(0x0a);
        assert(line[index] == 0x0a);
        assert(line.contains(0x0a));
        assert forall|i: int| 0 <= i < index implies line[i] != 0x0a by {
            assert(line[i] == pending[i]);
        }
        assert(is_line(line));
        assert(all =~= line + (rest + bytes));
        first_line(line, rest + bytes);
        let (next, fragment) = framing.enqueue(line).progress();
        scan_can_be_split(rest, next, bytes);
    }
}

/// The position of the first `byte`.
pub(crate) fn position(bytes: &Vec<u8>, byte: u8) -> (index: Option<usize>)
    ensures
        match index {
            Some(index) => bytes@.index_of_first(byte) == Some(index as int) && index < bytes@.len()
                && index < usize::MAX,
            None => bytes@.index_of_first(byte) is None,
        },
{
    proof {
        bytes@.index_of_first_ensures(byte);
    }
    let mut index: usize = 0;
    while index < bytes.len()
        invariant
            index <= bytes@.len(),
            forall|i: int| 0 <= i < index ==> bytes@[i] != byte,
        decreases bytes@.len() - index,
    {
        if bytes[index] == byte {
            proof {
                bytes@.index_of_first_ensures(byte);
                assert(bytes@.contains(byte));
            }
            return Some(index);
        }
        index = index + 1;
    }
    assert(!bytes@.contains(byte)) by {
        if bytes@.contains(byte) {
            let at = choose|i: int| 0 <= i < bytes@.len() && bytes@[i] == byte;
            assert(bytes@[at] != byte);
        }
    }
    proof {
        bytes@.index_of_first_ensures(byte);
    }
    None
}

/// Takes the first `count` bytes out.
pub(crate) fn take_front(bytes: &mut Vec<u8>, count: usize) -> (front: Vec<u8>)
    requires
        count <= old(bytes)@.len(),
    ensures
        front@ == old(bytes)@.take(count as int),
        final(bytes)@ == old(bytes)@.skip(count as int),
{
    let mut rest = bytes.split_off(count);
    std::mem::swap(bytes, &mut rest);
    assert(rest@ =~= old(bytes)@.take(count as int));
    assert(bytes@ =~= old(bytes)@.skip(count as int));
    rest
}

/// How a command ends with the current message.
pub(crate) fn decode_terminal(fragmentizer: &Fragmentizer) -> (ending: Option<
    Result<(), Refusal>,
>)
    ensures
        match ending {
            Some(result) => terminal(framing(*fragmentizer)) == Some(ending_view(result)),
            None => terminal(framing(*fragmentizer)) is None,
        },
{
    match decode_response(fragmentizer) {
        Ok(response) => end(response),
        Err(_) => None,
    }
}

/// How a command ends with a response.
pub fn end(response: ServerResponse) -> (end: Option<Result<(), Refusal>>)
    ensures
        match end {
            Some(result) => ending(response@) == Some(ending_view(result)),
            None => ending(response@) is None,
        },
{
    match response {
        ServerResponse::Tagged(status) => Some(
            match status.kind {
                StatusKind::Success => Ok(()),
                StatusKind::No => Err(Refusal::No(status.text)),
                StatusKind::Bad => Err(Refusal::Bad(status.text)),
            },
        ),
        ServerResponse::Bye(text) => Some(Err(Refusal::Bye(text))),
        _ => None,
    }
}

/// Takes lines out of `pending` until one matters.
pub(crate) fn next_event(pending: &mut Vec<u8>, fragmentizer: &mut Fragmentizer) -> (event:
    LineEvent)
    ensures
        scan(old(pending)@, framing(*old(fragmentizer))) == (Scan {
            pending: final(pending)@,
            framing: framing(*final(fragmentizer)),
            event: event@,
        }),
{
    loop
        invariant
            scan(old(pending)@, framing(*old(fragmentizer))) == scan(
                pending@,
                framing(*fragmentizer),
            ),
        decreases pending@.len(),
    {
        proof {
            pending@.index_of_first_ensures(0x0a);
        }
        let newline = match position(pending, 0x0a) {
            Some(newline) => newline,
            None => {
                return LineEvent::Starved;
            },
        };
        let line = take_front(pending, newline + 1);
        enqueue_bytes(fragmentizer, line.as_slice());
        match progress(fragmentizer) {
            Some(Fragment::Line(Some(length))) => {
                return LineEvent::Announced { line, length };
            },
            Some(Fragment::Line(None)) => {
                if let Some(result) = decode_terminal(fragmentizer) {
                    return LineEvent::Ended(result);
                }
            },
            _ => {},
        }
    }
}

} // verus!
