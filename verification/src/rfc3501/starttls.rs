//! IMAP STARTTLS coroutine; returns any bytes received past the tagged
//! response.
//!
//! RFC 3501 §6.2.1 forbids trailing bytes, so a non-empty return value is
//! a STARTTLS-injection signal: refuse the upgrade.

use imap_codec::fragmentizer::Fragmentizer;
use imap_codec::imap_types;
use vstd::prelude::*;

use crate::command::{
    bare_line, dump, dumped, encode_bare, fresh_tag, is_tag_text, tag_bytes, tag_text, BareCommand,
    FragmentView,
};
use crate::coroutine::{arg_view, ImapCoroutine, ImapCoroutineState, ImapYield, YieldView};
use crate::outcome::{step_view, FailureView};
use crate::rfc3501::lines::{first_line, is_line, position, take_front};

verus! {

/// Failure causes during the IMAP STARTTLS handshake.
#[derive(Clone, Debug)]
pub enum ImapStartTlsError {
    /// The stream reached EOF during the STARTTLS exchange.
    Eof,
}

impl View for ImapStartTlsError {
    type V = FailureView;

    open spec fn view(&self) -> FailureView {
        FailureView::Eof
    }
}

/// Whether `needle` stands at `index` in `bytes`.
pub open spec fn occurs_at(bytes: Seq<u8>, needle: Seq<u8>, index: int) -> bool {
    0 <= index && index + needle.len() <= bytes.len() && bytes.subrange(
        index,
        index + needle.len(),
    ) == needle
}

/// Whether `index` is the first place where `needle` stands.
pub open spec fn first_occurs_at(bytes: Seq<u8>, needle: Seq<u8>, index: int) -> bool {
    occurs_at(bytes, needle, index) && forall|i: int|
        0 <= i < index ==> !occurs_at(bytes, needle, i)
}

/// Whether `needle` stands in `bytes`, and where first.
pub open spec fn first_occurrence(bytes: Seq<u8>, needle: Seq<u8>) -> Option<int> {
    if exists|i: int| first_occurs_at(bytes, needle, i) {
        Some(choose|i: int| first_occurs_at(bytes, needle, i))
    } else {
        None
    }
}

/// What follows the line in which `needle` stands first, once that line
/// is complete.
pub open spec fn after_line_with(bytes: Seq<u8>, needle: Seq<u8>) -> Option<Seq<u8>> {
    match first_occurrence(bytes, needle) {
        Some(start) => match bytes.skip(start).index_of_first(0x0a) {
            Some(end) => Some(bytes.skip(start + end + 1)),
            None => None,
        },
        None => None,
    }
}

/// State of [`ImapStartTls`].
pub struct StartTlsState {
    /// The command, as long as it is to be written.
    pub command: Option<Seq<u8>>,
    /// The tag of the command, followed by a space.
    pub needle: Seq<u8>,
    /// Bytes that were read and not discarded.
    pub buffer: Seq<u8>,
}

/// One step of [`ImapStartTls`].
pub struct StartTlsStep {
    pub state: StartTlsState,
    pub result: ImapCoroutineState<YieldView, Result<Seq<u8>, FailureView>>,
}

impl StartTlsState {
    /// Ready to discard the greeting, then to request the upgrade under
    /// `tag`.
    pub open spec fn start(tag: imap_types::core::Tag<'static>) -> StartTlsState {
        StartTlsState {
            command: Some(bare_line(tag, BareCommand::StartTls)),
            needle: tag_text(tag).push(0x20),
            buffer: Seq::empty(),
        }
    }

    pub open spec fn wants_read(self) -> StartTlsStep {
        StartTlsStep { state: self, result: ImapCoroutineState::Yielded(YieldView::WantsRead) }
    }

    /// What follows once more bytes are read: up to the end of the first
    /// line they are the greeting; then they are the response, of which
    /// what follows the tagged line is left over.
    pub open spec fn read(self) -> StartTlsStep {
        match self.command {
            Some(command) => match self.buffer.index_of_first(0x0a) {
                Some(index) => StartTlsStep {
                    state: StartTlsState {
                        command: None,
                        buffer: self.buffer.skip(index + 1),
                        ..self
                    },
                    result: ImapCoroutineState::Yielded(YieldView::WantsWrite(command)),
                },
                None => self.wants_read(),
            },
            None => match after_line_with(self.buffer, self.needle) {
                Some(rest) => StartTlsStep {
                    state: StartTlsState {
                        buffer: self.buffer.take(self.buffer.len() - rest.len()),
                        ..self
                    },
                    result: ImapCoroutineState::Complete(Ok(rest)),
                },
                None => self.wants_read(),
            },
        }
    }

    pub open spec fn resume(self, arg: Option<Seq<u8>>) -> StartTlsStep {
        match arg {
            None => self.wants_read(),
            Some(bytes) => if bytes.len() == 0 {
                StartTlsStep {
                    state: self,
                    result: ImapCoroutineState::Complete(Err(FailureView::Eof)),
                }
            } else {
                StartTlsState { buffer: self.buffer + bytes, ..self }.read()
            },
        }
    }
}

/// The position at which `needle` stands first.
fn find(bytes: &Vec<u8>, needle: &Vec<u8>) -> (index: Option<usize>)
    ensures
        match index {
            Some(index) => first_occurrence(bytes@, needle@) == Some(index as int) && index
                <= bytes@.len(),
            None => first_occurrence(bytes@, needle@) is None,
        },
{
    let mut index: usize = 0;
    while index <= bytes.len() && needle.len() <= bytes.len() - index
        invariant
            index <= bytes@.len() + 1,
            forall|i: int| 0 <= i < index ==> !occurs_at(bytes@, needle@, i),
        decreases bytes@.len() + 1 - index,
    {
        let mut matched: usize = 0;
        while matched < needle.len() && bytes[index + matched] == needle[matched]
            invariant
                matched <= needle@.len(),
                index + needle@.len() <= bytes@.len(),
                bytes@.len() <= usize::MAX,
                forall|k: int| 0 <= k < matched ==> bytes@[index + k] == needle@[k],
            decreases needle@.len() - matched,
        {
            matched = matched + 1;
        }
        let ghost window = bytes@.subrange(index as int, index + needle@.len());
        if matched == needle.len() {
            proof {
                assert(window =~= needle@);
                assert(first_occurs_at(bytes@, needle@, index as int));
                let first = choose|i: int| first_occurs_at(bytes@, needle@, i);
                assert(first_occurs_at(bytes@, needle@, first));
                assert(first == index);
            }
            return Some(index);
        }
        assert(window[matched as int] != needle@[matched as int]);
        if index == bytes.len() {
            assert(forall|i: int| !occurs_at(bytes@, needle@, i));
            return None;
        }
        index = index + 1;
    }
    assert(forall|i: int| !occurs_at(bytes@, needle@, i));
    None
}

/// I/O-free IMAP STARTTLS coroutine.
pub struct ImapStartTls {
    command: Option<Vec<u8>>,
    needle: Vec<u8>,
    buffer: Vec<u8>,
}

impl View for ImapStartTls {
    type V = StartTlsState;

    closed spec fn view(&self) -> StartTlsState {
        StartTlsState {
            command: match self.command {
                Some(command) => Some(command@),
                None => None,
            },
            needle: self.needle@,
            buffer: self.buffer@,
        }
    }
}

impl ImapStartTls {
    /// Creates a coroutine discarding the plain-text greeting, requesting
    /// the upgrade under a fresh tag and returning any leftover bytes.
    pub fn new() -> (starttls: Self)
        ensures
            exists|tag: imap_types::core::Tag<'static>| #[trigger]
                is_tag_text(tag_text(tag)) && starttls@ == StartTlsState::start(tag),
    {
        let tag = fresh_tag();
        let mut needle = tag_bytes(&tag);
        needle.push(0x20);
        let command = dump(encode_bare(tag, BareCommand::StartTls));
        let starttls = ImapStartTls { command: Some(command), needle, buffer: Vec::new() };
        proof {
            let fragments = seq![FragmentView::Line(bare_line(tag, BareCommand::StartTls))];
            assert(fragments.drop_last() =~= Seq::empty());
            assert(dumped(fragments.drop_last()) =~= Seq::empty());
            assert(command@ =~= bare_line(tag, BareCommand::StartTls));
            assert(starttls@.buffer =~= Seq::empty());
            assert(starttls@ == StartTlsState::start(tag));
        }
        starttls
    }
}

impl Default for ImapStartTls {
    fn default() -> (starttls: Self)
        ensures
            exists|tag: imap_types::core::Tag<'static>| #[trigger]
                is_tag_text(tag_text(tag)) && starttls@ == StartTlsState::start(tag),
    {
        Self::new()
    }
}

impl ImapCoroutine for ImapStartTls {
    type Yield = ImapYield;

    type Return = Result<Vec<u8>, ImapStartTlsError>;

    fn resume(&mut self, fragmentizer: &mut Fragmentizer, arg: Option<&[u8]>) -> (step:
        ImapCoroutineState<ImapYield, Result<Vec<u8>, ImapStartTlsError>>)
        ensures
            old(self)@.resume(arg_view(arg)) == (StartTlsStep {
                state: final(self)@,
                result: step_view(step),
            }),
            *final(fragmentizer) == *old(fragmentizer),
    {
        let bytes = match arg {
            None => {
                return ImapCoroutineState::Yielded(ImapYield::WantsRead);
            },
            Some(bytes) => bytes,
        };
        if bytes.len() == 0 {
            return ImapCoroutineState::Complete(Err(ImapStartTlsError::Eof));
        }
        self.buffer.extend_from_slice(bytes);
        assert(self.buffer@ =~= old(self)@.buffer + bytes@);
        if self.command.is_some() {
            let newline = match position(&self.buffer, 0x0a) {
                Some(newline) => newline,
                None => {
                    return ImapCoroutineState::Yielded(ImapYield::WantsRead);
                },
            };
            let _ = take_front(&mut self.buffer, newline + 1);
            return match self.command.take() {
                Some(command) => ImapCoroutineState::Yielded(ImapYield::WantsWrite(command)),
                None => ImapCoroutineState::Yielded(ImapYield::WantsRead),
            };
        }
        let start = match find(&self.buffer, &self.needle) {
            Some(start) => start,
            None => {
                return ImapCoroutineState::Yielded(ImapYield::WantsRead);
            },
        };
        let mut line = self.buffer.split_off(start);
        let ghost head = self.buffer@;
        match position(&line, 0x0a) {
            Some(end) => {
                let rest = line.split_off(end + 1);
                self.buffer.append(&mut line);
                proof {
                    let whole = old(self)@.buffer + bytes@;
                    assert(whole.skip(start as int) =~= whole.subrange(
                        start as int,
                        whole.len() as int,
                    ));
                    assert(rest@ =~= whole.skip(start + end + 1));
                    assert(self.buffer@ =~= whole.take(whole.len() - rest@.len()));
                }
                ImapCoroutineState::Complete(Ok(rest))
            },
            None => {
                self.buffer.append(&mut line);
                proof {
                    let whole = old(self)@.buffer + bytes@;
                    assert(whole.skip(start as int) =~= whole.subrange(
                        start as int,
                        whole.len() as int,
                    ));
                    assert(self.buffer@ =~= whole);
                }
                ImapCoroutineState::Yielded(ImapYield::WantsRead)
            },
        }
    }
}

/// How a response is split into reads does not matter: what is read in
/// two goes leads to the same step as if it were read at once.
pub proof fn reads_can_be_split(state: StartTlsState, first: Seq<u8>, second: Seq<u8>)
    requires
        first.len() > 0,
        second.len() > 0,
        state.resume(Some(first)).result == ImapCoroutineState::<
            YieldView,
            Result<Seq<u8>, FailureView>,
        >::Yielded(YieldView::WantsRead),
    ensures
        state.resume(Some(first)).state.resume(Some(second)) == state.resume(Some(first + second)),
{
    assert(state.buffer + first + second =~= state.buffer + (first + second));
}

/// The bytes after the tagged line, and no others, are left over: an
/// empty result means that the server sent nothing past its response.
pub proof fn leftover_follows_the_tagged_line(
    state: StartTlsState,
    before: Seq<u8>,
    line: Seq<u8>,
    after: Seq<u8>,
)
    requires
        state.command is None,
        state.buffer.len() == 0,
        first_occurs_at(before + state.needle + line + after, state.needle, before.len() as int),
        is_line(state.needle + line),
    ensures
        state.resume(Some(before + state.needle + line + after)).result
            == ImapCoroutineState::<YieldView, _>::Complete(Ok::<_, FailureView>(after)),
{
    let all = before + state.needle + line + after;
    assert(state.buffer + all =~= all);
    let first = choose|i: int| first_occurs_at(all, state.needle, i);
    assert(first_occurs_at(all, state.needle, first));
    assert(first == before.len());
    let tagged = state.needle + line;
    let tail = all.skip(before.len() as int);
    assert(tail =~= tagged + after);
    first_line(tagged, after);
    assert(all.skip(before.len() + (tagged.len() - 1) + 1) =~= after);
}

} // verus!
