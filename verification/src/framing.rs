//! Splitting the byte stream of a connection into messages.
//!
//! The work is done by imap-codec's [`Fragmentizer`]. This module gives
//! its contents a mathematical model ([`Framing`]) and states what each
//! of its methods does to that model.

use imap_codec::fragmentizer::{FragmentInfo, Fragmentizer};
use vstd::prelude::*;

verus! {

/// Declares imap-codec's `Fragmentizer`, the parser buffer shared by
/// every coroutine of one connection.
#[verifier::external_type_specification]
#[verifier::external_body]
pub struct ExFragmentizer(Fragmentizer);

/// What a fragmentizer looks for next.
pub enum Expecting {
    /// The current message is complete.
    Nothing,
    /// The end of a line, of which the given bytes are parsed already.
    Line(Seq<u8>),
    /// The end of a literal, of which that many bytes are missing.
    Literal(nat),
}

/// The contents of a fragmentizer.
pub struct Framing {
    /// Bytes that were enqueued and not looked at yet.
    pub unparsed: Seq<u8>,
    /// Bytes of the current message, cut off at the size limit.
    pub message: Seq<u8>,
    /// What comes next in the current message.
    pub expecting: Expecting,
    /// Whether bytes of the current message were dropped.
    pub too_long: bool,
    /// Whether decoding the current message is forbidden.
    pub poisoned: bool,
    /// Upper bound for the size of a message.
    pub limit: Option<u32>,
}

/// A fragment found in the current message.
pub enum Fragment {
    /// A line, with the size of the literal that it announces.
    Line(Option<u32>),
    /// A literal.
    Literal,
}

pub open spec fn is_digit(b: u8) -> bool {
    0x30 <= b <= 0x39
}

/// How many digits `s` ends with.
pub open spec fn trailing_digits(s: Seq<u8>) -> nat
    decreases s.len(),
{
    if s.len() > 0 && is_digit(s.last()) {
        1 + trailing_digits(s.drop_last())
    } else {
        0
    }
}

/// The number that a sequence of decimal digits stands for.
pub open spec fn decimal_value(digits: Seq<u8>) -> nat
    decreases digits.len(),
{
    if digits.len() == 0 {
        0
    } else {
        decimal_value(digits.drop_last()) * 10 + (digits.last() - 0x30) as nat
    }
}

/// `s` without its last byte, when that byte is `b`.
pub open spec fn strip_last(s: Seq<u8>, b: u8) -> Seq<u8> {
    if s.len() > 0 && s.last() == b {
        s.drop_last()
    } else {
        s
    }
}

/// The size of the literal that a complete line announces: the `N` of a
/// line that ends with `{N}` or `{N+}` before its CRLF or LF.
pub open spec fn announced(line: Seq<u8>) -> Option<u32> {
    let body = strip_last(strip_last(line, 0x0a), 0x0d);
    if body.len() > 0 && body.last() == 0x7d {
        let inner = strip_last(body.drop_last(), 0x2b);
        let count = trailing_digits(inner) as int;
        let open = inner.len() - count - 1;
        let value = decimal_value(inner.skip(inner.len() - count));
        if count > 0 && open >= 0 && inner[open] == 0x7b && value <= u32::MAX {
            Some(value as u32)
        } else {
            None
        }
    } else {
        None
    }
}

impl Framing {
    /// Nothing enqueued, nothing parsed.
    pub open spec fn empty(limit: u32) -> Framing {
        Framing {
            unparsed: Seq::empty(),
            message: Seq::empty(),
            expecting: Expecting::Line(Seq::empty()),
            too_long: false,
            poisoned: false,
            limit: Some(limit),
        }
    }

    pub open spec fn complete(self) -> bool {
        self.expecting is Nothing
    }

    pub open spec fn enqueue(self, bytes: Seq<u8>) -> Framing {
        Framing { unparsed: self.unparsed + bytes, ..self }
    }

    /// The next message is begun; what was parsed is forgotten.
    pub open spec fn restart(self) -> Framing {
        Framing {
            message: Seq::empty(),
            expecting: Expecting::Line(Seq::empty()),
            too_long: false,
            poisoned: false,
            ..self
        }
    }

    /// The first `count` unparsed bytes move to the message, as far as
    /// the size limit allows.
    pub open spec fn absorb(self, count: int, expecting: Expecting) -> Framing {
        let grown = self.message + self.unparsed.take(count);
        let fits = match self.limit {
            Some(limit) => grown.len() <= limit,
            None => true,
        };
        Framing {
            unparsed: self.unparsed.skip(count),
            message: if fits { grown } else { grown.take(self.limit->0 as int) },
            expecting,
            too_long: self.too_long || !fits,
            ..self
        }
    }

    /// One step of parsing, within the current message.
    pub open spec fn parse(self) -> (Framing, Option<Fragment>) {
        match self.expecting {
            Expecting::Nothing => (self, None),
            Expecting::Line(parsed) => {
                let end = self.unparsed.index_of_first(0x0a);
                match end {
                    Some(index) => {
                        let line = parsed + self.unparsed.take(index + 1);
                        let next = match announced(line) {
                            Some(length) => Expecting::Literal(length as nat),
                            None => Expecting::Nothing,
                        };
                        (self.absorb(index + 1, next), Some(Fragment::Line(announced(line))))
                    },
                    None => (
                        self.absorb(
                            self.unparsed.len() as int,
                            Expecting::Line(parsed + self.unparsed),
                        ),
                        None,
                    ),
                }
            },
            Expecting::Literal(missing) => if self.unparsed.len() >= missing {
                (
                    self.absorb(missing as int, Expecting::Line(Seq::empty())),
                    Some(Fragment::Literal),
                )
            } else {
                (
                    self.absorb(
                        self.unparsed.len() as int,
                        Expecting::Literal((missing - self.unparsed.len()) as nat),
                    ),
                    None,
                )
            },
        }
    }

    /// Whether a literal is still to be ended.
    pub open spec fn owed(self) -> nat {
        if self.expecting is Literal {
            1
        } else {
            0
        }
    }

    /// One step of parsing; a complete message makes room for the next.
    pub open spec fn progress(self) -> (Framing, Option<Fragment>) {
        if self.complete() {
            self.restart().parse()
        } else {
            self.parse()
        }
    }

    /// A fragment takes bytes or ends a literal, and only the want of
    /// bytes stops the search for one.
    pub proof fn lemma_progress(self)
        ensures
            match self.progress() {
                (next, Some(_)) => next.unparsed.len() < self.unparsed.len() || (
                next.unparsed.len() == self.unparsed.len() && next.owed() < self.owed()),
                (next, None) => next.unparsed.len() == 0 && !next.complete(),
            },
    {
        self.unparsed.index_of_first_ensures(0x0a);
    }
}

impl Framing {
    /// A fragment that is found does not depend on the bytes behind it.
    pub proof fn lemma_found_regardless(self, bytes: Seq<u8>)
        requires
            self.progress().1 is Some,
        ensures
            self.enqueue(bytes).progress() == (
                self.progress().0.enqueue(bytes),
                self.progress().1,
            ),
    {
        let begun = if self.complete() {
            self.restart()
        } else {
            self
        };
        let more = begun.enqueue(bytes);
        assert(self.enqueue(bytes).progress() == more.parse());
        let all = begun.unparsed + bytes;
        begun.unparsed.index_of_first_ensures(0x0a);
        all.index_of_first_ensures(0x0a);
        match begun.expecting {
            Expecting::Nothing => {},
            Expecting::Line(_) => {
                let index = begun.unparsed.index_of_first(0x0a)->0;
                assert(all[index] == 0x0a);
                assert(all.contains(0x0a));
                let found = all.index_of_first(0x0a)->0;
                if found < index {
                    assert(begun.unparsed[found] == all[found]);
                }
                assert(found == index);
                assert(all.take(index + 1) =~= begun.unparsed.take(index + 1));
                assert(all.skip(index + 1) =~= begun.unparsed.skip(index + 1) + bytes);
            },
            Expecting::Literal(missing) => {
                assert(all.take(missing as int) =~= begun.unparsed.take(missing as int));
                assert(all.skip(missing as int) =~= begun.unparsed.skip(missing as int) + bytes);
            },
        }
    }

    /// Moving bytes to the message at once or in two goes is the same.
    proof fn lemma_absorb_twice(
        self,
        bytes: Seq<u8>,
        count: int,
        middle: Expecting,
        last: Expecting,
    )
        requires
            0 <= count <= bytes.len(),
        ensures
            self.absorb(self.unparsed.len() as int, middle).enqueue(bytes).absorb(count, last)
                == self.enqueue(bytes).absorb(self.unparsed.len() + count, last),
    {
        let held = self.unparsed;
        let total = held.len() + count;
        let all = held + bytes;
        let first = self.absorb(held.len() as int, middle);
        let second = first.enqueue(bytes);
        assert(held.take(held.len() as int) =~= held);
        assert(second.unparsed =~= bytes);
        assert(all.skip(total) =~= bytes.skip(count));
        assert(all.take(total) =~= held + bytes.take(count));
        let twice = first.message + bytes.take(count);
        let once = self.message + all.take(total);
        match self.limit {
            Some(limit) => {
                if (self.message + held).len() <= limit {
                    assert(twice =~= once);
                } else {
                    assert(twice.take(limit as int) =~= once.take(limit as int));
                    assert(twice.len() <= limit ==> twice =~= once.take(limit as int));
                }
            },
            None => {
                assert(twice =~= once);
            },
        }
    }

    proof fn lemma_line_later(self, bytes: Seq<u8>)
        requires
            self.expecting is Line,
            self.parse().1 is None,
        ensures
            self.enqueue(bytes).parse() == self.parse().0.enqueue(bytes).parse(),
    {
        let parsed = self.expecting->Line_0;
        let held = self.unparsed;
        let all = held + bytes;
        let middle = Expecting::Line(parsed + held);
        assert(self.parse().0.enqueue(bytes).unparsed =~= bytes);
        held.index_of_first_ensures(0x0a);
        all.index_of_first_ensures(0x0a);
        bytes.index_of_first_ensures(0x0a);
        match bytes.index_of_first(0x0a) {
            Some(index) => {
                assert(all[held.len() + index] == 0x0a);
                let found = all.index_of_first(0x0a)->0;
                assert(found == held.len() + index) by {
                    assert(all.contains(0x0a));
                    if found < held.len() {
                        assert(held[found] == all[found]);
                        assert(held.contains(0x0a));
                    } else if found < held.len() + index {
                        assert(bytes[found - held.len()] == all[found]);
                    }
                }
                let line = parsed + all.take(found + 1);
                assert(line =~= parsed + held + bytes.take(index + 1));
                let last = match announced(line) {
                    Some(length) => Expecting::Literal(length as nat),
                    None => Expecting::Nothing,
                };
                self.lemma_absorb_twice(bytes, index + 1, middle, last);
            },
            None => {
                assert(!all.contains(0x0a)) by {
                    if all.contains(0x0a) {
                        let found = choose|i: int| 0 <= i < all.len() && all[i] == 0x0a;
                        if found < held.len() {
                            assert(held[found] == all[found]);
                            assert(held.contains(0x0a));
                        } else {
                            assert(bytes[found - held.len()] == all[found]);
                            assert(bytes.contains(0x0a));
                        }
                    }
                }
                assert(parsed + all =~= parsed + held + bytes);
                let last = Expecting::Line(parsed + all);
                self.lemma_absorb_twice(bytes, bytes.len() as int, middle, last);
            },
        }
    }

    proof fn lemma_literal_later(self, bytes: Seq<u8>)
        requires
            self.expecting is Literal,
            self.parse().1 is None,
        ensures
            self.enqueue(bytes).parse() == self.parse().0.enqueue(bytes).parse(),
    {
        let held = self.unparsed;
        let rest = (self.expecting->Literal_0 - held.len()) as nat;
        let middle = Expecting::Literal(rest);
        assert(self.parse().0.enqueue(bytes).unparsed =~= bytes);
        if bytes.len() >= rest {
            let last = Expecting::Line(Seq::empty());
            self.lemma_absorb_twice(bytes, rest as int, middle, last);
        } else {
            let last = Expecting::Literal((rest - bytes.len()) as nat);
            self.lemma_absorb_twice(bytes, bytes.len() as int, middle, last);
        }
    }

    /// A fragment whose bytes come in two goes is found as if they came
    /// at once.
    pub proof fn lemma_found_later(self, bytes: Seq<u8>)
        requires
            self.progress().1 is None,
        ensures
            self.enqueue(bytes).progress() == self.progress().0.enqueue(bytes).progress(),
    {
        let begun = if self.complete() {
            self.restart()
        } else {
            self
        };
        assert(self.enqueue(bytes).progress() == begun.enqueue(bytes).parse());
        if begun.expecting is Line {
            begun.lemma_line_later(bytes);
        } else {
            begun.lemma_literal_later(bytes);
        }
    }
}

/// What a fragmentizer holds.
pub uninterp spec fn framing(fragmentizer: Fragmentizer) -> Framing;

/// `Fragmentizer::new`: an empty buffer with the given size limit.
#[verifier::external_body]
pub(crate) fn new_fragmentizer(limit: u32) -> (fragmentizer: Fragmentizer)
    ensures
        framing(fragmentizer) == Framing::empty(limit),
{
    Fragmentizer::new(limit)
}

/// `Fragmentizer::enqueue_bytes`: appends `bytes` to the unparsed ones.
#[verifier::external_body]
pub(crate) fn enqueue_bytes(fragmentizer: &mut Fragmentizer, bytes: &[u8])
    ensures
        framing(*final(fragmentizer)) == framing(*old(fragmentizer)).enqueue(bytes@),
{
    fragmentizer.enqueue_bytes(bytes)
}

/// `Fragmentizer::progress`: looks for the next fragment, up to the next
/// line feed in a line and up to the announced size in a literal. A line
/// that announces no literal completes the message.
#[verifier::external_body]
pub(crate) fn progress(fragmentizer: &mut Fragmentizer) -> (fragment: Option<Fragment>)
    ensures
        (framing(*final(fragmentizer)), fragment) == framing(*old(fragmentizer)).progress(),
{
    match fragmentizer.progress() {
        Some(FragmentInfo::Line { announcement, .. }) => {
            Some(Fragment::Line(announcement.map(|announcement| announcement.length)))
        },
        Some(FragmentInfo::Literal { .. }) => Some(Fragment::Literal),
        None => None,
    }
}

/// `Fragmentizer::is_message_complete`.
#[verifier::external_body]
pub(crate) fn is_message_complete(fragmentizer: &Fragmentizer) -> (complete: bool)
    ensures
        complete == framing(*fragmentizer).complete(),
{
    fragmentizer.is_message_complete()
}

/// `Fragmentizer::message_bytes`: the bytes of the current message.
#[verifier::external_body]
pub(crate) fn message_bytes(fragmentizer: &Fragmentizer) -> (bytes: &[u8])
    ensures
        bytes@ == framing(*fragmentizer).message,
{
    fragmentizer.message_bytes()
}

/// `Fragmentizer::skip_message`: forgets the current message and begins
/// the next one with the unparsed bytes.
#[verifier::external_body]
pub(crate) fn skip_message(fragmentizer: &mut Fragmentizer)
    ensures
        framing(*final(fragmentizer)) == framing(*old(fragmentizer)).restart(),
{
    fragmentizer.skip_message()
}

} // verus!
