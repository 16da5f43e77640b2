//! RFC 3501 §5.1.3 modified UTF-7 for IMAP mailbox names.
//!
//! Outside of the wire, `Mailbox` values carry the *decoded* unicode
//! name; the modified UTF-7 wire form is produced on send and consumed
//! on receive by these helpers. Callers therefore pass and read unicode
//! strings transparently, the way `select("Brouillons")` would normally
//! read.
//!
//! The encoding is not idempotent, so the helpers are only called at
//! the wire boundary: input coroutines encode their mailbox argument
//! right before building the command, and response coroutines decode
//! the mailbox names they collect before returning them.

use base64::engine::general_purpose::{STANDARD, STANDARD_NO_PAD};
use base64::Engine;
use imap_codec::imap_types::mailbox::Mailbox;
use vstd::prelude::*;
use vstd::utf8::{
    char_is_scalar, char_u32_cast, decode_utf8, decode_utf8_encode_utf8, encode_utf8,
    encode_utf8_decode_utf8, encode_utf8_valid_utf8, is_scalar, valid_utf8,
};

use crate::command::is_sendable;

verus! {

/// `String::push`: appends one character.
pub assume_specification[ String::push ](string: &mut String, c: char)
    ensures
        final(string)@ == old(string)@.push(c),
;

/// `String::push_str`: appends a text.
pub assume_specification[ String::push_str ](string: &mut String, text: &str)
    ensures
        final(string)@ == old(string)@ + text@,
;

/// `char::from_u32`: the character with the given code point, unless
/// that is a surrogate or too large.
pub assume_specification[ char::from_u32 ](i: u32) -> (c: Option<char>)
    ensures
        match c {
            Some(c) => is_scalar(i) && c as u32 == i,
            None => !is_scalar(i),
        },
;

/// The character for six bits: the standard base64 alphabet.
pub open spec fn base64_char(sextet: int) -> char {
    if sextet < 26 {
        (0x41 + sextet) as u8 as char
    } else if sextet < 52 {
        (0x61 + sextet - 26) as u8 as char
    } else if sextet < 62 {
        (0x30 + sextet - 52) as u8 as char
    } else if sextet == 62 {
        '+'
    } else {
        '/'
    }
}

/// The six bits that a character of the standard base64 alphabet stands
/// for.
pub open spec fn base64_sextet(c: char) -> Option<int> {
    if 'A' <= c <= 'Z' {
        Some(c as u32 - 0x41)
    } else if 'a' <= c <= 'z' {
        Some(c as u32 - 0x61 + 26)
    } else if '0' <= c <= '9' {
        Some(c as u32 - 0x30 + 52)
    } else if c == '+' {
        Some(62)
    } else if c == '/' {
        Some(63)
    } else {
        None
    }
}

/// The base64 text of `bytes`: three bytes make four characters, and what
/// is left over is filled up with zero bits. No padding.
#[verifier::opaque]
pub open spec fn base64_text(bytes: Seq<u8>) -> Seq<char>
    decreases bytes.len(),
{
    let a = bytes[0] as int;
    let b = bytes[1] as int;
    let c = bytes[2] as int;
    if bytes.len() == 0 {
        Seq::empty()
    } else if bytes.len() == 1 {
        seq![base64_char(a / 4), base64_char(a % 4 * 16)]
    } else if bytes.len() == 2 {
        seq![base64_char(a / 4), base64_char(a % 4 * 16 + b / 16), base64_char(b % 16 * 4)]
    } else {
        seq![
            base64_char(a / 4),
            base64_char(a % 4 * 16 + b / 16),
            base64_char(b % 16 * 4 + c / 64),
            base64_char(c % 64),
        ] + base64_text(bytes.skip(3))
    }
}

/// What base64 `text` stands for, when it may not be padded: four
/// characters make three bytes, and bits that are left over are zero.
#[verifier::opaque]
pub open spec fn base64_unpadded(text: Seq<char>) -> Option<Seq<u8>>
    decreases text.len(),
{
    let w = base64_sextet(text[0]);
    let x = base64_sextet(text[1]);
    let y = base64_sextet(text[2]);
    let z = base64_sextet(text[3]);
    let first = (w->0 * 4 + x->0 / 16) as u8;
    let second = (x->0 % 16 * 16 + y->0 / 4) as u8;
    let third = (y->0 % 4 * 64 + z->0) as u8;
    if text.len() == 0 {
        Some(Seq::empty())
    } else if text.len() == 1 || w is None || x is None {
        None
    } else if text.len() == 2 {
        if x->0 % 16 == 0 {
            Some(seq![first])
        } else {
            None
        }
    } else if y is None {
        None
    } else if text.len() == 3 {
        if y->0 % 4 == 0 {
            Some(seq![first, second])
        } else {
            None
        }
    } else if z is None {
        None
    } else {
        match base64_unpadded(text.skip(4)) {
            Some(rest) => Some(seq![first, second, third] + rest),
            None => None,
        }
    }
}

/// What base64 `text` stands for, when it has to be padded with `=` to a
/// multiple of four characters.
pub open spec fn base64_padded(text: Seq<char>) -> Option<Seq<u8>> {
    let len = text.len() as int;
    if len % 4 != 0 {
        None
    } else if len > 0 && text[len - 1] == '=' && text[len - 2] == '=' {
        base64_unpadded(text.take(len - 2))
    } else if len > 0 && text[len - 1] == '=' {
        base64_unpadded(text.take(len - 1))
    } else {
        base64_unpadded(text)
    }
}

/// Letters, digits, `+` and `/`.
pub open spec fn is_base64_char(c: char) -> bool {
    ||| 'A' <= c <= 'Z'
    ||| 'a' <= c <= 'z'
    ||| '0' <= c <= '9'
    ||| c == '+'
    ||| c == '/'
}

pub open spec fn is_base64(text: Seq<char>) -> bool {
    forall|i: int| 0 <= i < text.len() ==> is_base64_char(#[trigger] text[i])
}

/// Whether `text` is made of the standard alphabet, is empty only for no
/// bytes, and can be decoded to `bytes` and to nothing else.
pub open spec fn is_base64_of(text: Seq<char>, bytes: Seq<u8>) -> bool {
    &&& is_base64(text)
    &&& text.len() == 0 ==> bytes.len() == 0
    &&& base64_unpadded(text) == Some(bytes)
    &&& base64_padded(text) is None || base64_padded(text) == Some(bytes)
}

/// `STANDARD_NO_PAD.encode`: the base64 text of `bytes`, without padding.
#[verifier::external_body]
fn base64_encode(bytes: &Vec<u8>) -> (text: String)
    ensures
        text@ == base64_text(bytes@),
{
    STANDARD_NO_PAD.encode(bytes)
}

proof fn lemma_sextet(sextet: int)
    requires
        0 <= sextet < 64,
    ensures
        base64_sextet(base64_char(sextet)) == Some(sextet),
        is_base64_char(base64_char(sextet)),
{
    char_u32_cast(base64_char(sextet), base64_char(sextet) as u32);
}

proof fn lemma_text_of_none()
    ensures
        is_base64_of(base64_text(Seq::empty()), Seq::empty()),
{
    reveal(base64_text);
    reveal(base64_unpadded);
}

proof fn lemma_text_of_one(a: u8)
    ensures
        is_base64_of(base64_text(seq![a]), seq![a]),
{
    reveal(base64_text);
    reveal(base64_unpadded);
    let a = a as int;
    let w = a / 4;
    let x = a % 4 * 16;
    lemma_sextet(w);
    lemma_sextet(x);
    assert(x % 16 == 0 && w * 4 + x / 16 == a);
    let bytes = seq![a as u8];
    let text = base64_text(bytes);
    assert(text =~= seq![base64_char(w), base64_char(x)]);
    assert(base64_unpadded(text)->0 =~= bytes);
}

proof fn lemma_text_of_two(a: u8, b: u8)
    ensures
        is_base64_of(base64_text(seq![a, b]), seq![a, b]),
{
    reveal(base64_text);
    reveal(base64_unpadded);
    let a = a as int;
    let b = b as int;
    let w = a / 4;
    let x = a % 4 * 16 + b / 16;
    let y = b % 16 * 4;
    lemma_sextet(w);
    lemma_sextet(x);
    lemma_sextet(y);
    assert(w * 4 + x / 16 == a);
    assert(y % 4 == 0 && x % 16 * 16 + y / 4 == b);
    let bytes = seq![a as u8, b as u8];
    let text = base64_text(bytes);
    assert(text =~= seq![base64_char(w), base64_char(x), base64_char(y)]);
    assert(base64_unpadded(text)->0 =~= bytes);
}

/// The four characters of three bytes.
spec fn quad(a: int, b: int, c: int) -> Seq<char> {
    seq![
        base64_char(a / 4),
        base64_char(a % 4 * 16 + b / 16),
        base64_char(b % 16 * 4 + c / 64),
        base64_char(c % 64),
    ]
}

proof fn lemma_quad(a: u8, b: u8, c: u8, rest: Seq<char>)
    ensures
        is_base64(quad(a as int, b as int, c as int)),
        base64_unpadded(quad(a as int, b as int, c as int) + rest) == match base64_unpadded(rest) {
            Some(bytes) => Some(seq![a, b, c] + bytes),
            None => None,
        },
{
    reveal(base64_unpadded);
    let a = a as int;
    let b = b as int;
    let c = c as int;
    let w = a / 4;
    let x = a % 4 * 16 + b / 16;
    let y = b % 16 * 4 + c / 64;
    let z = c % 64;
    lemma_sextet(w);
    lemma_sextet(x);
    lemma_sextet(y);
    lemma_sextet(z);
    assert(w * 4 + x / 16 == a);
    assert(x % 16 * 16 + y / 4 == b);
    assert(y % 4 * 64 + z == c);
    let text = quad(a, b, c) + rest;
    assert(text.skip(4) =~= rest);
    assert(text[0] == base64_char(w) && text[1] == base64_char(x) && text[2] == base64_char(y)
        && text[3] == base64_char(z));
}

proof fn lemma_base64_joined(first: Seq<char>, second: Seq<char>)
    requires
        is_base64(first),
        is_base64(second),
    ensures
        is_base64(first + second),
{
    let all = first + second;
    assert forall|i: int| 0 <= i < all.len() implies is_base64_char(#[trigger] all[i]) by {
        if i < first.len() {
            assert(all[i] == first[i]);
        } else {
            assert(all[i] == second[i - first.len()]);
        }
    }
}

/// Base64 without padding is no padded base64 of anything else.
proof fn lemma_not_padded(text: Seq<char>)
    requires
        is_base64(text),
    ensures
        base64_padded(text) is None || base64_padded(text) == base64_unpadded(text),
{
    if text.len() > 0 {
        assert(is_base64_char(text[text.len() - 1]));
    }
}

/// Base64 can be read back: the text of `bytes` is made of the standard
/// alphabet, is empty only for no bytes, and stands for `bytes` and for
/// nothing else.
pub proof fn base64_keeps_the_bytes(bytes: Seq<u8>)
    ensures
        is_base64_of(base64_text(bytes), bytes),
    decreases bytes.len(),
{
    if bytes.len() == 0 {
        assert(bytes =~= Seq::empty());
        lemma_text_of_none();
    } else if bytes.len() == 1 {
        assert(bytes =~= seq![bytes[0]]);
        lemma_text_of_one(bytes[0]);
    } else if bytes.len() == 2 {
        assert(bytes =~= seq![bytes[0], bytes[1]]);
        lemma_text_of_two(bytes[0], bytes[1]);
    } else {
        let rest = bytes.skip(3);
        let group = quad(bytes[0] as int, bytes[1] as int, bytes[2] as int);
        base64_keeps_the_bytes(rest);
        lemma_quad(bytes[0], bytes[1], bytes[2], base64_text(rest));
        lemma_base64_joined(group, base64_text(rest));
        assert(base64_text(bytes) == group + base64_text(rest)) by {
            reveal(base64_text);
        }
        assert(seq![bytes[0], bytes[1], bytes[2]] + rest =~= bytes);
        lemma_not_padded(base64_text(bytes));
    }
}

/// Model of optional bytes.
pub open spec fn bytes_view(bytes: Option<Vec<u8>>) -> Option<Seq<u8>> {
    match bytes {
        Some(bytes) => Some(bytes@),
        None => None,
    }
}

/// `STANDARD.decode`: requires canonical padding, and rejects what is not
/// of the standard alphabet and bits left over that are not zero.
#[verifier::external_body]
fn base64_decode_padded(text: &String) -> (bytes: Option<Vec<u8>>)
    ensures
        bytes_view(bytes) == base64_padded(text@),
{
    STANDARD.decode(text.as_bytes()).ok()
}

/// `STANDARD_NO_PAD.decode`: requires the absence of padding, and rejects
/// what is not of the standard alphabet and bits left over that are not
/// zero.
#[verifier::external_body]
fn base64_decode_unpadded(text: &String) -> (bytes: Option<Vec<u8>>)
    ensures
        bytes_view(bytes) == base64_unpadded(text@),
{
    STANDARD_NO_PAD.decode(text.as_bytes()).ok()
}

/// Characters that stand for themselves, `&` aside.
pub open spec fn is_printable(c: char) -> bool {
    0x20 <= c as u32 <= 0x7e
}

pub open spec fn all_printable(text: Seq<char>) -> bool {
    forall|i: int| 0 <= i < text.len() ==> is_printable(#[trigger] text[i])
}

/// The UTF-16 code units of a character.
pub open spec fn utf16_units(c: char) -> Seq<u16> {
    let n = c as u32 as int;
    if n < 0x10000 {
        seq![n as u16]
    } else {
        seq![
            (0xd800 + (n - 0x10000) / 0x400) as u16,
            (0xdc00 + (n - 0x10000) % 0x400) as u16,
        ]
    }
}

/// The UTF-16 code units of a text.
pub open spec fn utf16(text: Seq<char>) -> Seq<u16>
    decreases text.len(),
{
    if text.len() == 0 {
        Seq::empty()
    } else {
        utf16(text.drop_last()) + utf16_units(text.last())
    }
}

/// Code units as bytes, the high one first.
pub open spec fn big_endian(units: Seq<u16>) -> Seq<u8> {
    Seq::new(
        2 * units.len(),
        |i: int|
            if i % 2 == 0 {
                (units[i / 2] / 256) as u8
            } else {
                (units[i / 2] % 256) as u8
            },
    )
}

/// The code units that pairs of bytes stand for.
pub open spec fn code_units(bytes: Seq<u8>) -> Seq<u16> {
    Seq::new(
        bytes.len() / 2,
        |i: int| (bytes[2 * i] as int * 256 + bytes[2 * i + 1] as int) as u16,
    )
}

pub open spec fn is_high_surrogate(unit: u16) -> bool {
    0xd800 <= unit <= 0xdbff
}

pub open spec fn is_low_surrogate(unit: u16) -> bool {
    0xdc00 <= unit <= 0xdfff
}

/// The character that a pair of surrogates stands for.
pub open spec fn surrogate_pair(high: u16, low: u16) -> char {
    ((0x10000 + (high - 0xd800) * 0x400 + (low - 0xdc00)) as u32) as char
}

/// The text that UTF-16 code units stand for; a surrogate without its
/// counterpart stands for the replacement character.
pub open spec fn utf16_lossy(units: Seq<u16>) -> Seq<char>
    decreases units.len(),
{
    if units.len() == 0 {
        Seq::empty()
    } else if units.len() >= 2 && is_high_surrogate(units[0]) && is_low_surrogate(units[1]) {
        seq![surrogate_pair(units[0], units[1])] + utf16_lossy(units.skip(2))
    } else if is_high_surrogate(units[0]) || is_low_surrogate(units[0]) {
        seq!['\u{fffd}'] + utf16_lossy(units.skip(1))
    } else {
        seq![(units[0] as u32) as char] + utf16_lossy(units.skip(1))
    }
}

/// `/` is not allowed in a shifted run: `,` takes its place.
pub open spec fn comma_for_slash(c: char) -> char {
    if c == '/' {
        ','
    } else {
        c
    }
}

pub open spec fn slash_for_comma(c: char) -> char {
    if c == ',' {
        '/'
    } else {
        c
    }
}

/// The payload of a shifted run: the base64 text of its UTF-16BE form.
pub open spec fn shifted(run: Seq<char>) -> Seq<char> {
    base64_text(big_endian(utf16(run))).map_values(|c: char| comma_for_slash(c))
}

/// The shifted run whose base64 text is `text`.
pub open spec fn shift(text: Seq<char>) -> Seq<char> {
    seq!['&'] + text.map_values(|c: char| comma_for_slash(c)) + seq!['-']
}

/// How many characters at the start of `name` have to be shifted.
pub open spec fn run_length(name: Seq<char>) -> nat
    decreases name.len(),
{
    if name.len() == 0 || is_printable(name[0]) {
        0
    } else {
        1 + run_length(name.skip(1))
    }
}

pub open spec fn escaped(c: char) -> Seq<char> {
    if c == '&' {
        seq!['&', '-']
    } else {
        seq![c]
    }
}

/// The modified UTF-7 form of a mailbox name: printable ASCII as it is,
/// `&` as `&-`, every run of other characters between `&` and `-`.
pub open spec fn encoded(name: Seq<char>) -> Seq<char>
    decreases name.len(),
{
    if name.len() == 0 {
        Seq::empty()
    } else if is_printable(name[0]) {
        escaped(name[0]) + encoded(name.skip(1))
    } else {
        let count = run_length(name) as int;
        if count >= name.len() {
            seq!['&'] + shifted(name) + seq!['-']
        } else {
            seq!['&'] + shifted(name.take(count)) + seq!['-'] + encoded(name.skip(count))
        }
    }
}

/// The text that the payload of a shifted run stands for. A payload that
/// is no base64 or holds an odd number of bytes stands for the
/// replacement character.
pub open spec fn unshifted(payload: Seq<char>) -> Seq<char> {
    let text = payload.map_values(|c: char| slash_for_comma(c));
    unshifted_bytes(
        match base64_padded(text) {
            Some(bytes) => Some(bytes),
            None => base64_unpadded(text),
        },
    )
}

/// The text that the bytes of a shifted run stand for, if it holds any.
pub open spec fn unshifted_bytes(bytes: Option<Seq<u8>>) -> Seq<char> {
    if bytes is Some && bytes->0.len() % 2 == 0 {
        utf16_lossy(code_units(bytes->0))
    } else {
        seq!['\u{fffd}']
    }
}

/// How many characters precede the first `-`.
pub open spec fn payload_length(text: Seq<char>) -> nat
    decreases text.len(),
{
    if text.len() == 0 || text[0] == '-' {
        0
    } else {
        1 + payload_length(text.skip(1))
    }
}

/// The mailbox name that a modified UTF-7 text stands for.
pub open spec fn decoded(text: Seq<char>) -> Seq<char>
    decreases text.len(),
{
    if text.len() == 0 {
        Seq::empty()
    } else if text[0] != '&' {
        seq![text[0]] + decoded(text.skip(1))
    } else {
        let count = payload_length(text.skip(1)) as int;
        let closed = 1 + count < text.len();
        let plain = if count == 0 {
            seq!['&']
        } else {
            unshifted(text.skip(1).take(count))
        };
        if closed {
            plain + decoded(text.skip(count + 2))
        } else {
            plain
        }
    }
}

proof fn lemma_utf16_first(c: char, rest: Seq<char>)
    ensures
        utf16(seq![c] + rest) == utf16_units(c) + utf16(rest),
    decreases rest.len(),
{
    let text = seq![c] + rest;
    if rest.len() == 0 {
        assert(text.drop_last() =~= Seq::empty());
        assert(utf16(text.drop_last()) =~= Seq::empty());
        assert(utf16(text) =~= utf16_units(c) + utf16(rest));
    } else {
        assert(text.drop_last() =~= seq![c] + rest.drop_last());
        assert(text.last() == rest.last());
        lemma_utf16_first(c, rest.drop_last());
        assert(utf16(text) =~= utf16_units(c) + utf16(rest));
    }
}

/// Every text survives the way to UTF-16 and back.
pub proof fn utf16_keeps_the_text(text: Seq<char>)
    ensures
        utf16_lossy(utf16(text)) == text,
    decreases text.len(),
{
    if text.len() == 0 {
        assert(utf16_lossy(utf16(text)) =~= text);
    } else {
        let c = text[0];
        let rest = text.skip(1);
        let units = utf16(text);
        let n = c as u32 as int;
        assert(text =~= seq![c] + rest);
        lemma_utf16_first(c, rest);
        utf16_keeps_the_text(rest);
        char_is_scalar(c);
        char_u32_cast(c, c as u32);
        assert(units == utf16_units(c) + utf16(rest));
        if n < 0x10000 {
            assert(units.skip(1) =~= utf16(rest));
            assert(units[0] as u32 == c as u32);
        } else {
            assert(units.skip(2) =~= utf16(rest));
            assert(is_high_surrogate(units[0]) && is_low_surrogate(units[1]));
            assert(0x10000 + (units[0] - 0xd800) * 0x400 + (units[1] - 0xdc00) == n);
        }
        assert(utf16_lossy(units) =~= text);
    }
}

proof fn lemma_code_units(units: Seq<u16>)
    ensures
        big_endian(units).len() % 2 == 0,
        code_units(big_endian(units)) == units,
{
    assert(code_units(big_endian(units)) =~= units);
}

proof fn lemma_big_endian_add(a: Seq<u16>, b: Seq<u16>)
    ensures
        big_endian(a + b) == big_endian(a) + big_endian(b),
{
    assert(big_endian(a + b) =~= big_endian(a) + big_endian(b));
}

proof fn lemma_run_length(name: Seq<char>, count: nat)
    requires
        count <= name.len(),
        forall|i: int| 0 <= i < count ==> !is_printable(#[trigger] name[i]),
        count == name.len() || is_printable(name[count as int]),
    ensures
        run_length(name) == count,
    decreases count,
{
    if count > 0 {
        let rest = name.skip(1);
        assert forall|i: int| 0 <= i < count - 1 implies !is_printable(#[trigger] rest[i]) by {
            assert(rest[i] == name[i + 1]);
        }
        lemma_run_length(rest, (count - 1) as nat);
    }
}

proof fn lemma_payload_length(text: Seq<char>, count: nat)
    requires
        count <= text.len(),
        forall|i: int| 0 <= i < count ==> #[trigger] text[i] != '-',
        count == text.len() || text[count as int] == '-',
    ensures
        payload_length(text) == count,
    decreases count,
{
    if count > 0 {
        let rest = text.skip(1);
        assert forall|i: int| 0 <= i < count - 1 implies #[trigger] rest[i] != '-' by {
            assert(rest[i] == text[i + 1]);
        }
        lemma_payload_length(rest, (count - 1) as nat);
    }
}

/// Whether a shifted run can be read back.
pub open spec fn is_faithful(run: Seq<char>) -> bool {
    &&& shifted(run).len() > 0
    &&& all_printable(shifted(run))
    &&& !shifted(run).contains('-')
    &&& unshifted(shifted(run)) == run
}

proof fn lemma_faithful(run: Seq<char>)
    requires
        run.len() > 0,
        is_base64_of(base64_text(big_endian(utf16(run))), big_endian(utf16(run))),
    ensures
        is_faithful(run),
{
    let bytes = big_endian(utf16(run));
    let text = base64_text(bytes);
    assert(utf16(run).len() > 0);
    assert forall|i: int| 0 <= i < text.len() implies shifted(run)[i] != '-' && is_printable(
        #[trigger] shifted(run)[i],
    ) by {
        assert(is_base64_char(text[i]));
    }
    assert(shifted(run).map_values(|c: char| slash_for_comma(c)) =~= text) by {
        assert forall|i: int| 0 <= i < text.len() implies slash_for_comma(shifted(run)[i])
            == text[i] by {
            assert(is_base64_char(text[i]));
        }
    }
    lemma_code_units(utf16(run));
    utf16_keeps_the_text(run);
}

/// Whether every shifted run of a name can be read back.
pub open spec fn runs_are_faithful(name: Seq<char>) -> bool
    decreases name.len(),
{
    if name.len() == 0 {
        true
    } else if is_printable(name[0]) {
        runs_are_faithful(name.skip(1))
    } else {
        let count = run_length(name) as int;
        if count >= name.len() {
            is_faithful(name)
        } else {
            is_faithful(name.take(count)) && runs_are_faithful(name.skip(count))
        }
    }
}

proof fn lemma_run_length_bound(name: Seq<char>)
    ensures
        run_length(name) <= name.len(),
        forall|i: int| 0 <= i < run_length(name) ==> !is_printable(#[trigger] name[i]),
    decreases name.len(),
{
    if name.len() > 0 && !is_printable(name[0]) {
        lemma_run_length_bound(name.skip(1));
        assert forall|i: int| 0 <= i < run_length(name) implies !is_printable(
            #[trigger] name[i],
        ) by {
            if i > 0 {
                assert(name[i] == name.skip(1)[i - 1]);
            }
        }
    }
}

/// Reading one shifted run.
proof fn lemma_decode_run(payload: Seq<char>, rest: Seq<char>)
    requires
        payload.len() > 0,
        !payload.contains('-'),
    ensures
        decoded(seq!['&'] + payload + seq!['-'] + rest) == unshifted(payload) + decoded(rest),
{
    let text = seq!['&'] + payload + seq!['-'] + rest;
    assert forall|i: int| 0 <= i < payload.len() implies #[trigger] text.skip(1)[i] != '-' by {
        assert(text.skip(1)[i] == payload[i]);
    }
    lemma_payload_length(text.skip(1), payload.len());
    assert(text.skip(1).take(payload.len() as int) =~= payload);
    assert(text.skip(payload.len() as int + 2) =~= rest);
}

proof fn lemma_decode_encoded(name: Seq<char>)
    requires
        runs_are_faithful(name),
    ensures
        decoded(encoded(name)) == name,
        all_printable(encoded(name)),
    decreases name.len(),
{
    if name.len() == 0 {
        assert(decoded(encoded(name)) =~= name);
    } else if is_printable(name[0]) {
        let rest = name.skip(1);
        lemma_decode_encoded(rest);
        if name[0] == '&' {
            let text = encoded(name);
            lemma_payload_length(text.skip(1), 0);
            assert(text.skip(2) =~= encoded(rest));
            assert(decoded(text) =~= name);
        } else {
            assert(encoded(name).skip(1) =~= encoded(rest));
            assert(decoded(encoded(name)) =~= name);
        }
    } else {
        let count = run_length(name) as int;
        lemma_run_length_bound(name);
        if count >= name.len() {
            lemma_decode_run(shifted(name), Seq::empty());
            assert(encoded(name) =~= seq!['&'] + shifted(name) + seq!['-'] + Seq::empty());
            assert(decoded(encoded(name)) =~= name);
        } else {
            let run = name.take(count);
            let rest = name.skip(count);
            lemma_decode_run(shifted(run), encoded(rest));
            lemma_decode_encoded(rest);
            assert(decoded(encoded(name)) =~= name);
        }
    }
}

/// The wire form of the shifted run in `shifted`, appended to `out`.
fn flush_shifted(shifted: &mut Vec<u8>, out: &mut String)
    ensures
        final(shifted)@.len() == 0,
        old(shifted)@.len() == 0 ==> final(out)@ == old(out)@,
        old(shifted)@.len() > 0 ==> {
            let text = base64_text(old(shifted)@);
            &&& is_base64_of(text, old(shifted)@)
            &&& final(out)@ == old(out)@ + shift(text)
        },
{
    if shifted.len() == 0 {
        return;
    }
    let text = base64_encode(shifted);
    proof {
        base64_keeps_the_bytes(shifted@);
    }
    push_shift(text.as_str(), out);
    shifted.clear();
}

/// Appends the shifted run whose base64 text is `text`.
pub fn push_shift(text: &str, out: &mut String)
    ensures
        final(out)@ == old(out)@ + shift(text@),
{
    out.push('&');
    let ghost before = out@;
    for c in it: text.chars()
        invariant
            it.seq() == text@,
            out@ == before + text@.take(it.index()).map_values(|c: char| comma_for_slash(c)),
    {
        out.push(if c == '/' { ',' } else { c });
        proof {
            let taken = text@.take(it.index() + 1);
            assert(taken =~= text@.take(it.index()).push(c));
            assert(out@ =~= before + taken.map_values(|c: char| comma_for_slash(c)));
        }
    }
    assert(text@.take(text@.len() as int) =~= text@);
    out.push('-');
    assert(out@ =~= old(out)@ + shift(text@));
}

/// Appends a code unit, high byte first.
fn push_unit(unit: u16, bytes: &mut Vec<u8>)
    ensures
        final(bytes)@ == old(bytes)@ + big_endian(seq![unit]),
{
    bytes.push((unit / 256) as u8);
    bytes.push((unit % 256) as u8);
    assert(bytes@ =~= old(bytes)@ + big_endian(seq![unit]));
}

/// Appends the UTF-16BE form of a character.
fn push_utf16(c: char, bytes: &mut Vec<u8>)
    ensures
        final(bytes)@ == old(bytes)@ + big_endian(utf16_units(c)),
        (c as u32) < 0x10000 ==> final(bytes)@ == old(bytes)@ + seq![
            (c as u32 / 0x100) as u8,
            (c as u32 % 0x100) as u8,
        ],
{
    proof {
        char_is_scalar(c);
    }
    let n: u32 = c as u32;
    if n < 0x10000 {
        push_unit(n as u16, bytes);
    } else {
        let high: u16 = (0xd800 + (n - 0x10000) / 0x400) as u16;
        let low: u16 = (0xdc00 + (n - 0x10000) % 0x400) as u16;
        push_unit(high, bytes);
        push_unit(low, bytes);
        proof {
            lemma_big_endian_add(seq![high], seq![low]);
            assert(seq![high] + seq![low] =~= utf16_units(c));
            assert(bytes@ =~= old(bytes)@ + big_endian(utf16_units(c)));
        }
    }
}

proof fn lemma_utf16_grows(text: Seq<char>)
    ensures
        utf16(text).len() >= text.len(),
    decreases text.len(),
{
    if text.len() > 0 {
        lemma_utf16_grows(text.drop_last());
    }
}

/// A run of characters that have to be shifted, as far as it goes.
proof fn lemma_whole_run(name: Seq<char>, start: int, end: int)
    requires
        0 <= start < end <= name.len(),
        forall|i: int| start <= i < end ==> !is_printable(#[trigger] name[i]),
        end == name.len() || is_printable(name[end]),
        is_base64_of(
            base64_text(big_endian(utf16(name.subrange(start, end)))),
            big_endian(utf16(name.subrange(start, end))),
        ),
    ensures
        encoded(name.skip(start)) == seq!['&'] + shifted(name.subrange(start, end)) + seq!['-']
            + encoded(name.skip(end)),
        runs_are_faithful(name.skip(end)) ==> runs_are_faithful(name.skip(start)),
{
    let tail = name.skip(start);
    let count = (end - start) as nat;
    assert forall|i: int| 0 <= i < count implies !is_printable(#[trigger] tail[i]) by {
        assert(tail[i] == name[start + i]);
    }
    lemma_run_length(tail, count);
    lemma_faithful(name.subrange(start, end));
    if end == name.len() {
        assert(tail =~= name.subrange(start, end));
        assert(encoded(name.skip(end)) =~= Seq::empty());
        assert(encoded(tail) =~= seq!['&'] + shifted(name.subrange(start, end)) + seq!['-']
            + encoded(name.skip(end)));
    } else {
        assert(tail.take(count as int) =~= name.subrange(start, end));
        assert(tail.skip(count as int) =~= name.skip(end));
    }
}

/// RFC 3501 §5.1.3 modified UTF-7 encoder.
///
/// Printable ASCII (`U+0020`..`U+007E`) is passed through verbatim,
/// with the lone exception of `&` which is doubled as `&-`. Any other
/// codepoint starts a shifted run, terminated by `-`, whose payload is
/// the UTF-16BE encoding of the run base64'd with `/` replaced by `,`
/// and padding stripped.
///
/// The result is printable ASCII, and decoding it gives `input` back.
#[verifier::rlimit(30)]
pub fn encode(input: &str) -> (out: String)
    ensures
        out@ == encoded(input@),
        decoded(out@) == input@,
        all_printable(out@),
{
    let mut out = String::new();
    let mut shifted: Vec<u8> = Vec::new();
    let ghost name = input@;
    let ghost mut start: int = 0;
    proof {
        assert(name.skip(0) =~= name);
        assert(name.subrange(0, 0) =~= Seq::empty());
        assert(big_endian(utf16(Seq::empty())) =~= Seq::empty());
    }
    for c in it: input.chars()
        invariant
            it.seq() == name,
            0 <= start <= it.index(),
            forall|i: int| start <= i < it.index() ==> !is_printable(#[trigger] name[i]),
            shifted@ == big_endian(utf16(name.subrange(start, it.index()))),
            encoded(name) == out@ + encoded(name.skip(start)),
            runs_are_faithful(name.skip(start)) ==> runs_are_faithful(name),
    {
        let ghost index = it.index();
        let n: u32 = c as u32;
        proof {
            lemma_utf16_grows(name.subrange(start, index));
        }
        if 0x20 <= n && n <= 0x7e {
            let ghost before = out@;
            flush_shifted(&mut shifted, &mut out);
            proof {
                if start < index {
                    lemma_whole_run(name, start, index);
                } else {
                    assert(name.subrange(start, index) =~= Seq::empty());
                }
                assert(encoded(name) =~= out@ + encoded(name.skip(index)));
                start = index + 1;
                assert(name.skip(index).skip(1) =~= name.skip(start));
                assert(name.subrange(start, start) =~= Seq::empty());
            }
            if c == '&' {
                out.push('&');
                out.push('-');
            } else {
                out.push(c);
            }
            assert(encoded(name) =~= out@ + encoded(name.skip(start)));
        } else {
            push_utf16(c, &mut shifted);
            proof {
                let run = name.subrange(start, index + 1);
                assert(run.drop_last() =~= name.subrange(start, index));
                lemma_big_endian_add(utf16(run.drop_last()), utf16_units(c));
            }
        }
    }
    let ghost end = name.len() as int;
    proof {
        lemma_utf16_grows(name.subrange(start, end));
    }
    flush_shifted(&mut shifted, &mut out);
    proof {
        if start < end {
            lemma_whole_run(name, start, end);
        } else {
            assert(name.subrange(start, end) =~= Seq::empty());
        }
        assert(name.skip(end) =~= Seq::empty());
        assert(encoded(name) =~= out@);
        lemma_decode_encoded(name);
    }
    out
}

/// The code unit at `index`.
fn unit_at(bytes: &Vec<u8>, index: usize) -> (unit: u16)
    requires
        2 * index + 1 < bytes@.len(),
    ensures
        unit == code_units(bytes@)[index as int],
{
    let length: usize = bytes.len();
    assert(2 * index + 1 < length);
    bytes[2 * index] as u16 * 256 + bytes[2 * index + 1] as u16
}

/// Appends the character with the given code point.
fn push_scalar(n: u32, out: &mut String)
    requires
        is_scalar(n),
    ensures
        final(out)@ == old(out)@.push(n as char),
{
    match char::from_u32(n) {
        Some(c) => {
            proof {
                char_u32_cast(c, n);
            }
            out.push(c);
        },
        None => {},
    }
}

/// Appends the text that UTF-16BE bytes stand for.
fn push_utf16_lossy(bytes: &Vec<u8>, out: &mut String)
    ensures
        final(out)@ == old(out)@ + utf16_lossy(code_units(bytes@)),
{
    let count: usize = bytes.len() / 2;
    let mut index: usize = 0;
    let ghost units = code_units(bytes@);
    assert(units.skip(0) =~= units);
    while index < count
        invariant
            index <= count,
            count == bytes@.len() / 2,
            units == code_units(bytes@),
            old(out)@ + utf16_lossy(units) == out@ + utf16_lossy(units.skip(index as int)),
        decreases count - index,
    {
        let ghost rest = units.skip(index as int);
        let ghost before = out@;
        let unit = unit_at(bytes, index);
        let is_high = 0xd800 <= unit && unit <= 0xdbff;
        let is_low = 0xdc00 <= unit && unit <= 0xdfff;
        let mut taken: usize = 1;
        if is_high && index + 1 < count {
            let next = unit_at(bytes, index + 1);
            if 0xdc00 <= next && next <= 0xdfff {
                let n: u32 = 0x10000 + (unit as u32 - 0xd800) * 0x400 + (next as u32 - 0xdc00);
                push_scalar(n, out);
                taken = 2;
            } else {
                out.push('\u{fffd}');
            }
        } else if is_high || is_low {
            out.push('\u{fffd}');
        } else {
            push_scalar(unit as u32, out);
        }
        index = index + taken;
        proof {
            assert(rest.skip(taken as int) =~= units.skip(index as int));
            assert(before + utf16_lossy(rest) =~= out@ + utf16_lossy(units.skip(index as int)));
        }
    }
    proof {
        assert(units.skip(count as int) =~= Seq::empty());
        assert(out@ =~= old(out)@ + utf16_lossy(units));
    }
}

/// Appends the text that the bytes of a shifted run stand for.
pub fn push_unshifted_bytes(bytes: Option<Vec<u8>>, out: &mut String)
    ensures
        final(out)@ == old(out)@ + unshifted_bytes(bytes_view(bytes)),
{
    if let Some(bytes) = bytes {
        if bytes.len() % 2 == 0 {
            push_utf16_lossy(&bytes, out);
            return;
        }
    }
    out.push('\u{fffd}');
    assert(out@ =~= old(out)@ + unshifted_bytes(bytes_view(bytes)));
}

/// The characters of a text.
fn chars_of(text: &str) -> (chars: Vec<char>)
    ensures
        chars@ == text@,
{
    let mut chars: Vec<char> = Vec::new();
    for c in it: text.chars()
        invariant
            it.seq() == text@,
            chars@ == text@.take(it.index()),
    {
        chars.push(c);
        assert(chars@ =~= text@.take(it.index() + 1));
    }
    assert(text@.take(text@.len() as int) =~= text@);
    chars
}

/// Appends the text that the payload `chars[start..end]` stands for.
fn push_unshifted(chars: &Vec<char>, start: usize, end: usize, out: &mut String)
    requires
        start <= end <= chars@.len(),
    ensures
        final(out)@ == old(out)@ + unshifted(chars@.subrange(start as int, end as int)),
{
    let ghost payload = chars@.subrange(start as int, end as int);
    let mut standard = String::new();
    let mut index: usize = start;
    while index < end
        invariant
            start <= index <= end <= chars@.len(),
            payload == chars@.subrange(start as int, end as int),
            standard@ == payload.take(index - start).map_values(|c: char| slash_for_comma(c)),
        decreases end - index,
    {
        let c = chars[index];
        standard.push(if c == ',' { '/' } else { c });
        index = index + 1;
        proof {
            let taken = payload.take(index - start);
            assert(taken =~= payload.take(index - start - 1).push(c));
            assert(standard@ =~= taken.map_values(|c: char| slash_for_comma(c)));
        }
    }
    assert(payload.take(end - start) =~= payload);
    let bytes = match base64_decode_padded(&standard) {
        Some(bytes) => Some(bytes),
        None => base64_decode_unpadded(&standard),
    };
    push_unshifted_bytes(bytes, out);
}

/// RFC 3501 §5.1.3 modified UTF-7 decoder.
///
/// Malformed sequences (no base64, an odd number of bytes, lone
/// surrogates) yield the replacement character.
pub fn decode(input: &str) -> (out: String)
    ensures
        out@ == decoded(input@),
{
    let chars = chars_of(input);
    let ghost text = input@;
    let mut out = String::new();
    let mut i: usize = 0;
    assert(text.skip(0) =~= text);
    while i < chars.len()
        invariant
            chars@ == text,
            i <= text.len(),
            decoded(text) == out@ + decoded(text.skip(i as int)),
        decreases text.len() - i,
    {
        let ghost before = out@;
        let ghost rest = text.skip(i as int);
        if chars[i] != '&' {
            out.push(chars[i]);
            i = i + 1;
            proof {
                assert(rest.skip(1) =~= text.skip(i as int));
                assert(before + decoded(rest) =~= out@ + decoded(text.skip(i as int)));
            }
        } else {
            let start: usize = i + 1;
            let mut end: usize = start;
            while end < chars.len() && chars[end] != '-'
                invariant
                    chars@ == text,
                    start <= end <= text.len(),
                    forall|k: int| start <= k < end ==> #[trigger] text[k] != '-',
                decreases text.len() - end,
            {
                end = end + 1;
            }
            proof {
                let tail = rest.skip(1);
                assert(tail =~= text.skip(start as int));
                assert forall|k: int| 0 <= k < end - start implies #[trigger] tail[k] != '-' by {
                    assert(tail[k] == text[start + k]);
                }
                lemma_payload_length(tail, (end - start) as nat);
                assert(tail.take(end - start) =~= text.subrange(start as int, end as int));
            }
            if end == start {
                out.push('&');
            } else {
                push_unshifted(&chars, start, end, &mut out);
            }
            i = if end < chars.len() { end + 1 } else { end };
            proof {
                if end < chars.len() {
                    assert(rest.skip(end - start + 2) =~= text.skip(i as int));
                } else {
                    assert(text.skip(i as int) =~= Seq::empty());
                }
                assert(before + decoded(rest) =~= out@ + decoded(text.skip(i as int)));
            }
        }
    }
    proof {
        assert(text.skip(i as int) =~= Seq::empty());
        assert(out@ =~= decoded(text));
    }
    out
}

/// The name of a mailbox, or `None` for INBOX.
pub uninterp spec fn mailbox_name(mailbox: Mailbox<'static>) -> Option<Seq<u8>>;

/// The mailbox that a name stands for.
pub uninterp spec fn named_mailbox(name: Seq<char>) -> Option<Mailbox<'static>>;

pub open spec fn lower(c: char) -> char {
    if 'A' <= c <= 'Z' {
        (c as u8 + 0x20) as char
    } else {
        c
    }
}

/// INBOX, whatever the case of its letters.
pub open spec fn is_inbox(name: Seq<char>) -> bool {
    name.map_values(|c: char| lower(c)) == seq!['i', 'n', 'b', 'o', 'x']
}

/// Matches on a `Mailbox`: the bytes of its name, unless it is INBOX.
#[verifier::external_body]
fn name_of(mailbox: &Mailbox<'static>) -> (name: Option<Vec<u8>>)
    ensures
        bytes_view(name) == mailbox_name(*mailbox),
{
    match mailbox {
        Mailbox::Inbox => None,
        Mailbox::Other(other) => Some(other.inner().as_ref().to_vec()),
    }
}

/// `Mailbox::try_from` of a text: fails only on a NUL, and knows INBOX
/// in any case.
#[verifier::external_body]
fn mailbox_named(name: String) -> (mailbox: Option<Mailbox<'static>>)
    ensures
        mailbox == named_mailbox(name@),
        match mailbox {
            Some(mailbox) => is_sendable(name@) && mailbox_name(mailbox) == if is_inbox(name@) {
                None
            } else {
                Some(encode_utf8(name@))
            },
            None => !is_sendable(name@),
        },
{
    Mailbox::try_from(name).ok()
}

/// `std::str::from_utf8`: the text that UTF-8 bytes stand for.
#[verifier::external_body]
pub(crate) fn utf8_text(bytes: &[u8]) -> (text: Option<String>)
    ensures
        match text {
            Some(text) => valid_utf8(bytes@) && text@ == decode_utf8(bytes@),
            None => !valid_utf8(bytes@),
        },
{
    std::str::from_utf8(bytes).ok().map(String::from)
}

/// A mailbox under the name that `rewrite` makes of its own. One whose
/// name is no text, or keeps its name, stays what it is.
pub open spec fn renamed(
    mailbox: Mailbox<'static>,
    rewrite: spec_fn(Seq<char>) -> Seq<char>,
) -> Mailbox<'static> {
    match mailbox_name(mailbox) {
        Some(bytes) => if valid_utf8(bytes) && rewrite(decode_utf8(bytes)) != decode_utf8(bytes) {
            match named_mailbox(rewrite(decode_utf8(bytes))) {
                Some(mailbox) => mailbox,
                None => mailbox,
            }
        } else {
            mailbox
        },
        None => mailbox,
    }
}

/// What [`renamed`] makes of the name.
pub open spec fn rewritten(
    name: Option<Seq<u8>>,
    rewrite: spec_fn(Seq<char>) -> Seq<char>,
) -> Option<Seq<u8>> {
    match name {
        Some(bytes) => {
            let text = rewrite(decode_utf8(bytes));
            if !valid_utf8(bytes) || text == decode_utf8(bytes) || !is_sendable(text) {
                Some(bytes)
            } else if is_inbox(text) {
                None
            } else {
                Some(encode_utf8(text))
            }
        },
        None => None,
    }
}

/// The mailbox under its wire name.
pub open spec fn wire_form(mailbox: Mailbox<'static>) -> Mailbox<'static> {
    renamed(mailbox, |name: Seq<char>| encoded(name))
}

/// The mailbox under the name that its wire name stands for.
pub open spec fn plain_form(mailbox: Mailbox<'static>) -> Mailbox<'static> {
    renamed(mailbox, |name: Seq<char>| decoded(name))
}

/// The wire name of a name.
pub open spec fn wire_name(name: Option<Seq<u8>>) -> Option<Seq<u8>> {
    rewritten(name, |name: Seq<char>| encoded(name))
}

/// The name that a wire name stands for.
pub open spec fn plain_name(name: Option<Seq<u8>>) -> Option<Seq<u8>> {
    rewritten(name, |name: Seq<char>| decoded(name))
}

/// Names that a mailbox can have.
pub open spec fn is_proper_name(name: Option<Seq<u8>>) -> bool {
    name is Some && valid_utf8(name->0) ==> is_sendable(decode_utf8(name->0))
}

/// Without a shift, the wire form is the name.
proof fn lemma_decode_unshifted(text: Seq<char>)
    requires
        !text.contains('&'),
    ensures
        decoded(text) == text,
    decreases text.len(),
{
    if text.len() == 0 {
        assert(decoded(text) =~= text);
    } else {
        let rest = text.skip(1);
        assert(text.contains(text[0]));
        assert forall|i: int| 0 <= i < rest.len() implies rest[i] != '&' by {
            assert(rest[i] == text[i + 1]);
            assert(text.contains(text[i + 1]));
        }
        lemma_decode_unshifted(rest);
        assert(decoded(text) =~= text);
    }
}

/// Printable ASCII without `&` is its own wire form.
proof fn lemma_encode_unshifted(text: Seq<char>)
    requires
        all_printable(text),
        !text.contains('&'),
    ensures
        encoded(text) == text,
    decreases text.len(),
{
    if text.len() == 0 {
        assert(encoded(text) =~= text);
    } else {
        let rest = text.skip(1);
        assert(text.contains(text[0]));
        assert forall|i: int| 0 <= i < rest.len() implies rest[i] != '&' && is_printable(
            #[trigger] rest[i],
        ) by {
            assert(rest[i] == text[i + 1]);
            assert(text.contains(text[i + 1]));
        }
        lemma_encode_unshifted(rest);
        assert(encoded(text) =~= text);
    }
}

/// INBOX is its own wire form.
proof fn lemma_inbox_unshifted(text: Seq<char>)
    requires
        is_inbox(text),
    ensures
        decoded(text) == text,
        encoded(text) == text,
{
    let small = text.map_values(|c: char| lower(c));
    assert(small.len() == text.len());
    assert forall|i: int| 0 <= i < text.len() implies text[i] != '&' && is_printable(
        #[trigger] text[i],
    ) by {
        assert(small[i] == lower(text[i]));
        assert('a' <= seq!['i', 'n', 'b', 'o', 'x'][i] <= 'z');
        char_u32_cast(text[i], text[i] as u32);
    }
    lemma_decode_unshifted(text);
    lemma_encode_unshifted(text);
}

/// Rewrites `mbox` to its modified UTF-7 wire form, in place. No-op for
/// INBOX (a wire-special constant) and for names that the encoder leaves
/// unchanged (pure ASCII without `&`).
///
/// Decoding the wire name gives the name back.
pub fn encode_inplace(mbox: &mut Mailbox<'static>)
    ensures
        *final(mbox) == wire_form(*old(mbox)),
        mailbox_name(*final(mbox)) == wire_name(mailbox_name(*old(mbox))),
        is_proper_name(mailbox_name(*old(mbox))) ==> plain_name(mailbox_name(*final(mbox)))
            == mailbox_name(*old(mbox)),
{
    let bytes = match name_of(mbox) {
        Some(bytes) => bytes,
        None => {
            return;
        },
    };
    let name = match utf8_text(&bytes) {
        Some(name) => name,
        None => {
            return;
        },
    };
    let wire = encode(name.as_str());
    proof {
        decode_utf8_encode_utf8(bytes@);
        encode_utf8_decode_utf8(wire@);
        encode_utf8_valid_utf8(wire@);
        if is_inbox(wire@) {
            lemma_inbox_unshifted(wire@);
        }
        if is_inbox(name@) {
            lemma_inbox_unshifted(name@);
        }
    }
    if wire == name {
        return;
    }
    if let Some(mailbox) = mailbox_named(wire) {
        *mbox = mailbox;
    }
}

/// Inverse of [`encode_inplace`]. Reads `mbox` as a modified UTF-7 wire
/// token and rewrites it to the decoded unicode form. No-op for INBOX.
pub fn decode_inplace(mbox: &mut Mailbox<'static>)
    ensures
        *final(mbox) == plain_form(*old(mbox)),
        mailbox_name(*final(mbox)) == plain_name(mailbox_name(*old(mbox))),
{
    let bytes = match name_of(mbox) {
        Some(bytes) => bytes,
        None => {
            return;
        },
    };
    let wire = match utf8_text(&bytes) {
        Some(wire) => wire,
        None => {
            return;
        },
    };
    let name = decode(wire.as_str());
    if name == wire {
        return;
    }
    if let Some(mailbox) = mailbox_named(name) {
        *mbox = mailbox;
    }
}

/// A character below U+10000 is one code unit, its code point. Any other
/// is two: the high surrogate with the upper ten bits of what its code
/// point exceeds U+10000 by, then the low surrogate with the lower ten.
pub proof fn utf16_units_are_exact(c: char)
    ensures
        (c as u32) < 0x10000 ==> {
            &&& utf16(seq![c]).len() == 1
            &&& utf16(seq![c])[0] as int == c as u32 as int
        },
        (c as u32) >= 0x10000 ==> {
            &&& utf16(seq![c]).len() == 2
            &&& utf16(seq![c])[0] as int == 0xd800 + (c as u32 - 0x10000) / 0x400
            &&& utf16(seq![c])[1] as int == 0xdc00 + (c as u32 - 0x10000) % 0x400
        },
        utf16_units(c) == utf16(seq![c]),
{
    char_is_scalar(c);
    lemma_utf16_first(c, Seq::empty());
    assert(seq![c] + Seq::<char>::empty() =~= seq![c]);
    assert(utf16(seq![c]) =~= utf16_units(c));
}

/// The code units of a text are those of its characters, in order.
pub proof fn utf16_goes_by_characters(first: Seq<char>, second: Seq<char>)
    ensures
        utf16(first + second) == utf16(first) + utf16(second),
        utf16(Seq::empty()).len() == 0,
    decreases first.len(),
{
    if first.len() == 0 {
        assert(first + second =~= second);
        assert(utf16(first + second) =~= utf16(first) + utf16(second));
    } else {
        let c = first[0];
        let rest = first.skip(1);
        assert(first =~= seq![c] + rest);
        assert(first + second =~= seq![c] + (rest + second));
        lemma_utf16_first(c, rest);
        lemma_utf16_first(c, rest + second);
        utf16_goes_by_characters(rest, second);
        assert(utf16(first + second) =~= utf16(first) + utf16(second));
    }
}

/// Every code unit is two bytes, the more significant one first, and is
/// read back from them. A byte left over at the end is no code unit.
pub proof fn code_units_are_big_endian(units: Seq<u16>, bytes: Seq<u8>)
    ensures
        big_endian(units).len() == 2 * units.len(),
        forall|k: int|
            0 <= k < units.len() ==> (#[trigger] units[k]) as int == 256 * big_endian(units)[2 * k]
                + big_endian(units)[2 * k + 1],
        2 * code_units(bytes).len() <= bytes.len() < 2 * code_units(bytes).len() + 2,
        forall|k: int|
            0 <= k < code_units(bytes).len() ==> (#[trigger] code_units(bytes)[k]) as int == 256
                * bytes[2 * k] + bytes[2 * k + 1],
{
    assert forall|k: int| 0 <= k < units.len() implies (#[trigger] units[k]) as int == 256
        * big_endian(units)[2 * k] + big_endian(units)[2 * k + 1] by {
        assert(2 * k % 2 == 0 && 2 * k / 2 == k);
        assert((2 * k + 1) % 2 == 1 && (2 * k + 1) / 2 == k);
    }
}

/// How code units are read, one character at a time. A code unit that is
/// no surrogate is the character with that code point. A high surrogate
/// with a low one behind it are, together, the character beyond U+FFFF
/// that they hold ten bits of each. Any other surrogate is the
/// replacement character.
pub proof fn code_units_are_read_exactly(unit: u16, rest: Seq<u16>)
    ensures
        utf16_lossy(Seq::empty()).len() == 0,
        unit < 0xd800 || unit > 0xdfff ==> {
            let text = utf16_lossy(seq![unit] + rest);
            &&& text.len() > 0
            &&& text[0] as u32 as int == unit as int
            &&& text.skip(1) == utf16_lossy(rest)
        },
        0xd800 <= unit < 0xdc00 && rest.len() > 0 && 0xdc00 <= rest[0] < 0xe000 ==> {
            let text = utf16_lossy(seq![unit] + rest);
            &&& text.len() > 0
            &&& text[0] as u32 as int == 0x10000 + 0x400 * (unit - 0xd800) + (rest[0] - 0xdc00)
            &&& text.skip(1) == utf16_lossy(rest.skip(1))
        },
        0xd800 <= unit < 0xdc00 && (rest.len() == 0 || rest[0] < 0xdc00 || rest[0] >= 0xe000)
            || 0xdc00 <= unit < 0xe000 ==> {
            let text = utf16_lossy(seq![unit] + rest);
            &&& text.len() > 0
            &&& text[0] as u32 == 0xfffd
            &&& text.skip(1) == utf16_lossy(rest)
        },
{
    let units = seq![unit] + rest;
    let text = utf16_lossy(units);
    assert(units.skip(1) =~= rest);
    if unit < 0xd800 || unit > 0xdfff {
        let c = (unit as u32) as char;
        char_u32_cast(c, unit as u32);
        assert(text.skip(1) =~= utf16_lossy(rest));
    } else if unit < 0xdc00 && rest.len() > 0 && 0xdc00 <= rest[0] < 0xe000 {
        let n = (0x10000 + (unit - 0xd800) * 0x400 + (rest[0] - 0xdc00)) as u32;
        char_u32_cast(n as char, n);
        assert(units.skip(2) =~= rest.skip(1));
        assert(text.skip(1) =~= utf16_lossy(rest.skip(1)));
    } else {
        assert(text.skip(1) =~= utf16_lossy(rest));
    }
}

/// A character from U+0020 to U+007E stands for itself in a wire name,
/// but for `&`, which is written `&-`.
pub proof fn printable_characters_are_kept(c: char, rest: Seq<char>)
    ensures
        encoded(Seq::empty()).len() == 0,
        0x20 <= c as u32 <= 0x7e && c != '&' ==> encoded(seq![c] + rest) == seq![c] + encoded(rest),
        encoded(seq!['&'] + rest) == seq!['&', '-'] + encoded(rest),
{
    assert((seq![c] + rest).skip(1) =~= rest);
    assert((seq!['&'] + rest).skip(1) =~= rest);
}

/// A run of characters below U+0020 or beyond U+007E, as long as it goes,
/// is written as `&`, the base64 text of its UTF-16BE bytes with `,` for
/// every `/`, and `-`.
pub proof fn other_characters_are_shifted(run: Seq<char>, rest: Seq<char>, payload: Seq<char>)
    requires
        run.len() > 0,
        forall|i: int|
            0 <= i < run.len() ==> (#[trigger] run[i] as u32) < 0x20 || run[i] as u32 > 0x7e,
        rest.len() > 0 ==> 0x20 <= rest[0] as u32 <= 0x7e,
        payload.len() == base64_text(big_endian(utf16(run))).len(),
        forall|i: int|
            0 <= i < payload.len() ==> #[trigger] payload[i] == if base64_text(
                big_endian(utf16(run)),
            )[i] == '/' {
                ','
            } else {
                base64_text(big_endian(utf16(run)))[i]
            },
    ensures
        encoded(run + rest) == seq!['&'] + payload + seq!['-'] + encoded(rest),
{
    let name = run + rest;
    let end = run.len() as int;
    assert forall|i: int| 0 <= i < end implies !is_printable(#[trigger] name[i]) by {
        assert(name[i] == run[i]);
    }
    base64_keeps_the_bytes(big_endian(utf16(run)));
    assert(name.subrange(0, end) =~= run);
    assert(name.skip(0) =~= name);
    assert(name.skip(end) =~= rest);
    assert(shifted(run) =~= payload);
    lemma_whole_run(name, 0, end);
}

/// How a wire name is read. A character other than `&` stands for itself,
/// and `&-` stands for `&`, as does a `&` at the very end. What stands
/// between `&` and the next `-`, or the end, is a payload.
pub proof fn decoding_is_exact(c: char, payload: Seq<char>, rest: Seq<char>)
    requires
        payload.len() > 0,
        !payload.contains('-'),
    ensures
        decoded(Seq::empty()).len() == 0,
        c != '&' ==> decoded(seq![c] + rest) == seq![c] + decoded(rest),
        decoded(seq!['&', '-'] + rest) == seq!['&'] + decoded(rest),
        decoded(seq!['&']) == seq!['&'],
        decoded(seq!['&'] + payload + seq!['-'] + rest) == decoded(seq!['&'] + payload) + decoded(
            rest,
        ),
        decoded(seq!['&'] + payload) == unshifted(payload),
{
    assert((seq![c] + rest).skip(1) =~= rest);
    let empty = seq!['&', '-'] + rest;
    lemma_payload_length(empty.skip(1), 0);
    assert(empty.skip(2) =~= rest);
    assert(seq!['&'].skip(1) =~= Seq::empty());
    lemma_decode_run(payload, rest);
    let open = seq!['&'] + payload;
    assert(open.skip(1) =~= payload);
    assert forall|i: int| 0 <= i < payload.len() implies #[trigger] payload[i] != '-' by {
        assert(payload.contains(payload[i]));
    }
    lemma_payload_length(payload, payload.len());
    assert(payload.take(payload.len() as int) =~= payload);
}

/// What a payload stands for: the UTF-16BE text whose base64 text it is,
/// `/` for every `,`, whether padded or not. One that is no base64, or
/// holds half a code unit, stands for the replacement character.
pub proof fn payload_is_read_exactly(payload: Seq<char>, text: Seq<char>)
    requires
        text.len() == payload.len(),
        forall|i: int|
            0 <= i < text.len() ==> #[trigger] text[i] == if payload[i] == ',' {
                '/'
            } else {
                payload[i]
            },
    ensures
        base64_padded(text) matches Some(bytes) ==> unshifted(payload) == (if bytes.len() % 2 == 0 {
            utf16_lossy(code_units(bytes))
        } else {
            seq!['\u{fffd}']
        }),
        base64_padded(text) is None ==> (base64_unpadded(text) matches Some(bytes) ==> unshifted(
            payload,
        ) == (if bytes.len() % 2 == 0 {
            utf16_lossy(code_units(bytes))
        } else {
            seq!['\u{fffd}']
        })),
        base64_padded(text) is None && base64_unpadded(text) is None ==> unshifted(payload)
            == seq!['\u{fffd}'],
{
    assert(payload.map_values(|c: char| slash_for_comma(c)) =~= text);
}

/// The wire form of every name is printable ASCII and stands for that
/// name.
pub proof fn encoding_keeps_the_name(name: Seq<char>)
    ensures
        decoded(encoded(name)) == name,
        forall|i: int|
            0 <= i < encoded(name).len() ==> 0x20 <= #[trigger] encoded(name)[i] as u32 <= 0x7e,
{
    lemma_runs_are_faithful(name);
    lemma_decode_encoded(name);
    assert forall|i: int| 0 <= i < encoded(name).len() implies 0x20 <= #[trigger] encoded(
        name,
    )[i] as u32 <= 0x7e by {
        assert(is_printable(encoded(name)[i]));
    }
}

proof fn lemma_runs_are_faithful(name: Seq<char>)
    ensures
        runs_are_faithful(name),
    decreases name.len(),
{
    if name.len() == 0 {
    } else if is_printable(name[0]) {
        lemma_runs_are_faithful(name.skip(1));
    } else {
        let count = run_length(name) as int;
        lemma_run_length_bound(name);
        if count >= name.len() {
            base64_keeps_the_bytes(big_endian(utf16(name)));
            lemma_faithful(name);
        } else {
            base64_keeps_the_bytes(big_endian(utf16(name.take(count))));
            lemma_faithful(name.take(count));
            lemma_runs_are_faithful(name.skip(count));
        }
    }
}

/// A mailbox whose name is a text goes over the wire under the encoded
/// name. INBOX, and a mailbox whose name is no text, goes as it is.
pub proof fn wire_name_is_the_encoded_name(bytes: Seq<u8>)
    ensures
        wire_name(None) is None,
        !valid_utf8(bytes) ==> wire_name(Some(bytes)) == Some(bytes),
        valid_utf8(bytes) ==> wire_name(Some(bytes)) == Some(
            encode_utf8(encoded(decode_utf8(bytes))),
        ),
{
    if valid_utf8(bytes) {
        let name = decode_utf8(bytes);
        let wire = encoded(name);
        decode_utf8_encode_utf8(bytes);
        encoding_keeps_the_name(name);
        assert forall|i: int| 0 <= i < wire.len() implies wire[i] != '\0' by {
            assert(0x20 <= wire[i] as u32);
        }
        assert(is_sendable(wire));
        if is_inbox(wire) {
            lemma_inbox_unshifted(wire);
        }
    }
}

/// A mailbox whose wire name is a text comes out under the decoded name,
/// unless that has a NUL: it then keeps its wire name. One that decodes
/// to another spelling of INBOX is INBOX.
pub proof fn plain_name_is_the_decoded_name(bytes: Seq<u8>)
    ensures
        plain_name(None) is None,
        !valid_utf8(bytes) ==> plain_name(Some(bytes)) == Some(bytes),
        valid_utf8(bytes) ==> {
            let wire = decode_utf8(bytes);
            let name = decoded(wire);
            plain_name(Some(bytes)) == if name != wire && name.contains('\0') {
                Some(bytes)
            } else if name != wire && is_inbox(name) {
                None
            } else {
                Some(encode_utf8(name))
            }
        },
{
    if valid_utf8(bytes) {
        decode_utf8_encode_utf8(bytes);
    }
}

/// A mailbox goes over the wire as the mailbox with the encoded name, and
/// comes out as the one with the decoded name. Where that name is its own
/// already, is none that a mailbox can have, or where it has no text for a
/// name, the mailbox stays what it is.
pub proof fn mailbox_goes_under_its_wire_name(mailbox: Mailbox<'static>)
    ensures
        match mailbox_name(mailbox) {
            Some(bytes) => if valid_utf8(bytes) {
                let name = decode_utf8(bytes);
                &&& wire_form(mailbox) == if encoded(name) != name && named_mailbox(
                    encoded(name),
                ) is Some {
                    named_mailbox(encoded(name))->0
                } else {
                    mailbox
                }
                &&& plain_form(mailbox) == if decoded(name) != name && named_mailbox(
                    decoded(name),
                ) is Some {
                    named_mailbox(decoded(name))->0
                } else {
                    mailbox
                }
            } else {
                wire_form(mailbox) == mailbox && plain_form(mailbox) == mailbox
            },
            None => wire_form(mailbox) == mailbox && plain_form(mailbox) == mailbox,
        },
{
}

/// A shifted run is `&`, its base64 text with `,` for every `/`, and `-`.
pub proof fn shift_is_exact(text: Seq<char>)
    ensures
        shift(text).len() == text.len() + 2,
        shift(text)[0] == '&',
        shift(text).last() == '-',
        forall|i: int|
            0 <= i < text.len() ==> #[trigger] shift(text)[i + 1] == if text[i] == '/' {
                ','
            } else {
                text[i]
            },
{
    assert forall|i: int| 0 <= i < text.len() implies #[trigger] shift(text)[i + 1] == if text[i]
        == '/' {
        ','
    } else {
        text[i]
    } by {}
}

/// The bytes of a shifted run are read as UTF-16BE. Without any, or with
/// half a code unit, they stand for the replacement character.
pub proof fn bytes_are_read_exactly(bytes: Seq<u8>)
    ensures
        unshifted_bytes(None) == seq!['\u{fffd}'],
        bytes.len() % 2 == 1 ==> unshifted_bytes(Some(bytes)) == seq!['\u{fffd}'],
        bytes.len() % 2 == 0 ==> unshifted_bytes(Some(bytes)) == utf16_lossy(code_units(bytes)),
{
}

} // verus!
