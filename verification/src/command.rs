//! Commands and their wire form.
//!
//! The wire form is imap-codec's work. A command is modelled by
//! [`CommandView`], its wire form by the sequence of [`FragmentView`]s
//! that the encoder gives.

use imap_codec::encode::{Encoded, Encoder};
use imap_codec::imap_types;
use imap_codec::imap_types::command::{
    Command, CommandBody, FetchModifier, SelectParameter, StoreModifier,
};
use imap_codec::imap_types::datetime::DateTime;
use imap_codec::imap_types::error::ValidationError;
use imap_codec::imap_types::extensions::binary::LiteralOrLiteral8;
use imap_codec::imap_types::extensions::enable::CapabilityEnable;
use imap_codec::imap_types::extensions::idle::IdleDone;
use imap_codec::imap_types::extensions::sort::SortCriterion;
use imap_codec::imap_types::extensions::thread::ThreadingAlgorithm;
use imap_codec::imap_types::fetch::{MacroOrMessageDataItemNames, MessageDataItemName};
use imap_codec::imap_types::flag::{Flag, StoreResponse, StoreType};
use imap_codec::imap_types::mailbox::{ListMailbox, Mailbox};
use imap_codec::imap_types::search::SearchKey;
use imap_codec::imap_types::secret::Secret;
use imap_codec::imap_types::sequence::SequenceSet;
use imap_codec::imap_types::status::StatusDataItemName;
use imap_codec::{encode, CommandCodec, IdleDoneCodec};
use vstd::prelude::*;

use crate::response::{parameters_view, Parameters, ParametersView};

verus! {

/// Declares imap-types' `Tag`.
#[verifier::external_type_specification]
#[verifier::external_body]
pub struct ExTag<'a>(imap_types::core::Tag<'a>);

/// Declares imap-types' `TagGenerator`.
#[verifier::external_type_specification]
#[verifier::external_body]
pub struct ExTagGenerator(imap_types::core::TagGenerator);

/// Declares imap-types' `VecN`, of which `Vec1` is the non-empty one.
#[verifier::external_type_specification]
#[verifier::external_body]
#[verifier::reject_recursive_types(T)]
pub struct ExVecN<T, const N: usize>(imap_types::core::VecN<T, N>);

/// Declares imap-codec's `Encoded`.
#[verifier::external_type_specification]
#[verifier::external_body]
pub struct ExEncoded(Encoded);

/// Declares imap-types' `FetchModifier`.
#[verifier::external_type_specification]
#[verifier::external_body]
pub struct ExFetchModifier(FetchModifier);

/// Declares imap-types' `StoreModifier`.
#[verifier::external_type_specification]
#[verifier::external_body]
pub struct ExStoreModifier(StoreModifier);

/// Declares imap-types' `SelectParameter`.
#[verifier::external_type_specification]
#[verifier::external_body]
pub struct ExSelectParameter(SelectParameter);

/// Declares imap-types' `DateTime`.
#[verifier::external_type_specification]
#[verifier::external_body]
pub struct ExDateTime(DateTime);

/// Declares imap-types' `LiteralOrLiteral8`.
#[verifier::external_type_specification]
#[verifier::external_body]
pub struct ExLiteralOrLiteral8<'a>(LiteralOrLiteral8<'a>);

/// Declares imap-types' `SortCriterion`.
#[verifier::external_type_specification]
#[verifier::external_body]
pub struct ExSortCriterion(SortCriterion);

/// Declares imap-types' `ThreadingAlgorithm`.
#[verifier::external_type_specification]
#[verifier::external_body]
pub struct ExThreadingAlgorithm<'a>(ThreadingAlgorithm<'a>);

/// Declares imap-types' `MacroOrMessageDataItemNames`.
#[verifier::external_type_specification]
#[verifier::external_body]
pub struct ExMacroOrMessageDataItemNames<'a>(MacroOrMessageDataItemNames<'a>);

/// Declares imap-types' `StoreType`.
#[verifier::external_type_specification]
#[verifier::external_body]
pub struct ExStoreType(StoreType);

/// Declares imap-types' `ListMailbox`.
#[verifier::external_type_specification]
#[verifier::external_body]
pub struct ExListMailbox<'a>(ListMailbox<'a>);

/// Declares imap-types' `SearchKey`.
#[verifier::external_type_specification]
#[verifier::external_body]
pub struct ExSearchKey<'a>(SearchKey<'a>);

/// Declares imap-types' `StatusDataItemName`.
#[verifier::external_type_specification]
#[verifier::external_body]
pub struct ExStatusDataItemName(StatusDataItemName);

/// The text of a tag.
pub uninterp spec fn tag_text(tag: imap_types::core::Tag<'static>) -> Seq<u8>;

/// Letters, digits and dots, at least one of them.
pub open spec fn is_tag_text(text: Seq<u8>) -> bool {
    &&& text.len() > 0
    &&& forall|i: int|
        0 <= i < text.len() ==> {
            let b = #[trigger] text[i];
            0x30 <= b <= 0x39 || 0x41 <= b <= 0x5a || 0x61 <= b <= 0x7a || b == 0x2e
        }
}

/// `TagGenerator::new`: a generator with an instance number of its own.
#[verifier::external_body]
pub(crate) fn new_tag_generator() -> imap_types::core::TagGenerator {
    imap_types::core::TagGenerator::new()
}

/// `TagGenerator::generate`: a tag made of the instance number, a
/// counter and possibly random letters and digits, joined by dots.
/// Which tag it is depends on the process and on chance.
#[verifier::external_body]
pub(crate) fn generate_tag(generator: &mut imap_types::core::TagGenerator) -> (tag:
    imap_types::core::Tag<'static>)
    ensures
        is_tag_text(tag_text(tag)),
{
    generator.generate()
}

/// `Tag::as_ref`: the text of a tag.
#[verifier::external_body]
pub(crate) fn tag_bytes(tag: &imap_types::core::Tag<'static>) -> (bytes: Vec<u8>)
    ensures
        bytes@ == tag_text(*tag),
{
    tag.as_ref().as_bytes().to_vec()
}

/// A tag of a generator made for it.
pub(crate) fn fresh_tag() -> (tag: imap_types::core::Tag<'static>)
    ensures
        is_tag_text(tag_text(tag)),
{
    let mut generator = new_tag_generator();
    generate_tag(&mut generator)
}

/// A piece of an encoded command.
#[derive(Debug)]
pub enum CommandFragment {
    /// Bytes to send.
    Line(Vec<u8>),
    /// Bytes to send; when `sync`, once the server asked for them.
    Literal { data: Vec<u8>, sync: bool },
}

/// Model of [`CommandFragment`].
pub enum FragmentView {
    Line(Seq<u8>),
    Literal { data: Seq<u8>, sync: bool },
}

impl View for CommandFragment {
    type V = FragmentView;

    open spec fn view(&self) -> FragmentView {
        match *self {
            CommandFragment::Line(data) => FragmentView::Line(data@),
            CommandFragment::Literal { data, sync } => FragmentView::Literal { data: data@, sync },
        }
    }
}

impl FragmentView {
    pub open spec fn bytes(self) -> Seq<u8> {
        match self {
            FragmentView::Line(data) => data,
            FragmentView::Literal { data, .. } => data,
        }
    }
}

/// All bytes of an encoded command.
pub open spec fn dumped(fragments: Seq<FragmentView>) -> Seq<u8>
    decreases fragments.len(),
{
    if fragments.len() == 0 {
        Seq::empty()
    } else {
        dumped(fragments.drop_last()) + fragments.last().bytes()
    }
}

/// The fragments that an `Encoded` still holds.
pub uninterp spec fn encoded_fragments(encoded: Encoded) -> Seq<FragmentView>;

/// `Encoded::next`: takes the first fragment out.
#[verifier::external_body]
pub(crate) fn next_fragment(encoded: &mut Encoded) -> (fragment: Option<CommandFragment>)
    ensures
        match fragment {
            Some(fragment) => encoded_fragments(*old(encoded)).len() > 0 && fragment@
                == encoded_fragments(*old(encoded))[0] && encoded_fragments(*final(encoded))
                == encoded_fragments(*old(encoded)).skip(1),
            None => encoded_fragments(*old(encoded)).len() == 0 && encoded_fragments(
                *final(encoded),
            ).len() == 0,
        },
{
    match encoded.next()? {
        encode::Fragment::Line { data } => Some(CommandFragment::Line(data)),
        encode::Fragment::Literal { data, mode: imap_types::core::LiteralMode::Sync } => {
            Some(CommandFragment::Literal { data, sync: true })
        },
        encode::Fragment::Literal { data, mode: imap_types::core::LiteralMode::NonSync } => {
            Some(CommandFragment::Literal { data, sync: false })
        },
    }
}

/// `Encoded::dump`: all fragments, joined.
#[verifier::external_body]
pub(crate) fn dump(encoded: Encoded) -> (bytes: Vec<u8>)
    ensures
        bytes@ == dumped(encoded_fragments(encoded)),
{
    encoded.dump()
}

/// Commands without arguments.
#[derive(Clone, Copy, Debug, PartialEq, Eq, Structural)]
pub enum BareCommand {
    Capability,
    Noop,
    Logout,
    StartTls,
    Check,
    Close,
    Expunge,
    Unselect,
    Idle,
}

impl BareCommand {
    /// The keyword of the command, in ASCII.
    pub open spec fn keyword(self) -> Seq<u8> {
        match self {
            // CAPABILITY
            BareCommand::Capability => seq![
                0x43, 0x41, 0x50, 0x41, 0x42, 0x49, 0x4c, 0x49, 0x54, 0x59,
            ],
            // NOOP
            BareCommand::Noop => seq![0x4e, 0x4f, 0x4f, 0x50],
            // LOGOUT
            BareCommand::Logout => seq![0x4c, 0x4f, 0x47, 0x4f, 0x55, 0x54],
            // STARTTLS
            BareCommand::StartTls => seq![0x53, 0x54, 0x41, 0x52, 0x54, 0x54, 0x4c, 0x53],
            // CHECK
            BareCommand::Check => seq![0x43, 0x48, 0x45, 0x43, 0x4b],
            // CLOSE
            BareCommand::Close => seq![0x43, 0x4c, 0x4f, 0x53, 0x45],
            // EXPUNGE
            BareCommand::Expunge => seq![0x45, 0x58, 0x50, 0x55, 0x4e, 0x47, 0x45],
            // UNSELECT
            BareCommand::Unselect => seq![0x55, 0x4e, 0x53, 0x45, 0x4c, 0x45, 0x43, 0x54],
            // IDLE
            BareCommand::Idle => seq![0x49, 0x44, 0x4c, 0x45],
        }
    }
}

/// Carriage return and line feed.
pub open spec fn crlf() -> Seq<u8> {
    seq![0x0d, 0x0a]
}

/// The line of a command without arguments: tag, space, keyword, CRLF.
pub open spec fn bare_line(tag: imap_types::core::Tag<'static>, command: BareCommand) -> Seq<u8> {
    tag_text(tag) + seq![0x20u8] + command.keyword() + crlf()
}

/// `CommandCodec::encode` of a command without arguments: one line.
#[verifier::external_body]
pub(crate) fn encode_bare(tag: imap_types::core::Tag<'static>, command: BareCommand) -> (encoded:
    Encoded)
    ensures
        encoded_fragments(encoded) == seq![FragmentView::Line(bare_line(tag, command))],
{
    let body = match command {
        BareCommand::Capability => CommandBody::Capability,
        BareCommand::Noop => CommandBody::Noop,
        BareCommand::Logout => CommandBody::Logout,
        BareCommand::StartTls => CommandBody::StartTLS,
        BareCommand::Check => CommandBody::Check,
        BareCommand::Close => CommandBody::Close,
        BareCommand::Expunge => CommandBody::Expunge,
        BareCommand::Unselect => CommandBody::Unselect,
        BareCommand::Idle => CommandBody::Idle,
    };
    CommandCodec::new().encode(&Command { tag, body })
}

/// The line that ends an IDLE.
pub open spec fn done_line() -> Seq<u8> {
    seq![0x44u8, 0x4f, 0x4e, 0x45] + crlf()
}

/// `IdleDoneCodec::encode`: the line `DONE`.
#[verifier::external_body]
pub(crate) fn encode_idle_done() -> (encoded: Encoded)
    ensures
        encoded_fragments(encoded) == seq![FragmentView::Line(done_line())],
{
    IdleDoneCodec::new().encode(&IdleDone)
}

/// Commands that name one mailbox and nothing else.
#[derive(Clone, Copy, Debug, PartialEq, Eq, Structural)]
pub enum MailboxCommand {
    Create,
    Delete,
    Subscribe,
    Unsubscribe,
}

/// Commands that open a mailbox.
#[derive(Clone, Copy, Debug, PartialEq, Eq, Structural)]
pub enum OpenCommand {
    Select,
    Examine,
}

/// Commands that list mailboxes.
#[derive(Clone, Copy, Debug, PartialEq, Eq, Structural)]
pub enum ListCommand {
    List,
    Lsub,
}

/// Commands that put messages into another mailbox.
#[derive(Clone, Copy, Debug, PartialEq, Eq, Structural)]
pub enum TransferCommand {
    Copy,
    Move,
}

/// What a STORE is answered with.
#[derive(Clone, Copy, Debug, PartialEq, Eq, Structural)]
pub enum StoreEcho {
    Answer,
    Silent,
}

/// Commands with arguments.
pub enum CommandView {
    Mailbox { command: MailboxCommand, mailbox: Mailbox<'static> },
    Rename { source: Mailbox<'static>, target: Mailbox<'static> },
    Open { command: OpenCommand, mailbox: Mailbox<'static>, parameters: Seq<SelectParameter> },
    List { command: ListCommand, reference: Mailbox<'static>, pattern: ListMailbox<'static> },
    Status { mailbox: Mailbox<'static>, names: Seq<StatusDataItemName> },
    Login { user: Seq<char>, password: Seq<char> },
    Id { parameters: Option<ParametersView> },
    Enable { capabilities: imap_types::core::Vec1<CapabilityEnable<'static>> },
    Append {
        mailbox: Mailbox<'static>,
        flags: Seq<Flag<'static>>,
        date: Option<DateTime>,
        message: LiteralOrLiteral8<'static>,
    },
    AppendEmpty { mailbox: Mailbox<'static>, flags: Seq<Flag<'static>>, date: Option<DateTime> },
    ExpungeUid { messages: SequenceSet },
    Search {
        charset: Option<Seq<char>>,
        criteria: imap_types::core::Vec1<SearchKey<'static>>,
        uid: bool,
    },
    Sort {
        keys: imap_types::core::Vec1<SortCriterion>,
        charset: Seq<char>,
        criteria: imap_types::core::Vec1<SearchKey<'static>>,
        uid: bool,
    },
    Thread {
        algorithm: ThreadingAlgorithm<'static>,
        charset: Seq<char>,
        criteria: imap_types::core::Vec1<SearchKey<'static>>,
        uid: bool,
    },
    Fetch {
        messages: SequenceSet,
        items: MacroOrMessageDataItemNames<'static>,
        uid: bool,
        modifiers: Seq<FetchModifier>,
    },
    Store {
        messages: SequenceSet,
        kind: StoreType,
        echo: StoreEcho,
        flags: Seq<Flag<'static>>,
        uid: bool,
        modifiers: Seq<StoreModifier>,
    },
    Transfer {
        command: TransferCommand,
        messages: SequenceSet,
        mailbox: Mailbox<'static>,
        uid: bool,
    },
}

/// The set of the given sequence numbers or UIDs.
pub uninterp spec fn sequence_set_of(ids: Seq<u32>) -> SequenceSet;

/// Whether ids can form a sequence set: at least one, none of them zero.
pub open spec fn are_ids(ids: Seq<u32>) -> bool {
    ids.len() > 0 && !ids.contains(0)
}

/// The set of one sequence number or UID.
pub open spec fn single_message(id: u32) -> SequenceSet {
    sequence_set_of(seq![id])
}

/// `NonZeroU32::try_from` of every id, then `SequenceSet::try_from`:
/// fails for no ids and for an id of zero.
#[verifier::external_body]
pub(crate) fn sequence_set(ids: &Vec<u32>) -> (set: Option<SequenceSet>)
    ensures
        set == if are_ids(ids@) {
            Some(sequence_set_of(ids@))
        } else {
            None
        },
{
    let ids: Result<Vec<_>, _> = ids.iter().map(|id| std::num::NonZeroU32::try_from(*id)).collect();
    SequenceSet::try_from(ids.ok()?).ok()
}

/// The set of one sequence number or UID.
pub(crate) fn sequence_of(id: u32) -> (set: SequenceSet)
    requires
        id != 0,
    ensures
        set == single_message(id),
{
    let ids: Vec<u32> = vec![id];
    assert(ids@ =~= seq![id]);
    sequence_set(&ids).unwrap()
}

/// Message data items that the library itself asks for.
#[derive(Clone, Copy, Debug, PartialEq, Eq, Structural)]
pub enum ItemName {
    /// `BODY.PEEK[]`, the whole message.
    BodyPeek,
    Uid,
    Envelope,
    InternalDate,
    Rfc822Size,
}

/// The set of the given message data items.
pub uninterp spec fn item_set(names: Seq<ItemName>) -> MacroOrMessageDataItemNames<'static>;

/// Builds a `MacroOrMessageDataItemNames` of the given items, in order.
#[verifier::external_body]
pub(crate) fn item_names(names: &Vec<ItemName>) -> (items: MacroOrMessageDataItemNames<'static>)
    ensures
        items == item_set(names@),
{
    let convert = |name: &ItemName| match name {
        ItemName::BodyPeek => {
            MessageDataItemName::BodyExt { section: None, partial: None, peek: true }
        },
        ItemName::Uid => MessageDataItemName::Uid,
        ItemName::Envelope => MessageDataItemName::Envelope,
        ItemName::InternalDate => MessageDataItemName::InternalDate,
        ItemName::Rfc822Size => MessageDataItemName::Rfc822Size,
    };
    MacroOrMessageDataItemNames::MessageDataItemNames(names.iter().map(convert).collect())
}

/// The fragments that imap-codec's `CommandCodec` encodes a command to.
pub uninterp spec fn command_fragments(
    tag: imap_types::core::Tag<'static>,
    command: CommandView,
) -> Seq<FragmentView>;

/// `CommandCodec::encode` of CREATE, DELETE, SUBSCRIBE or UNSUBSCRIBE.
#[verifier::external_body]
pub(crate) fn encode_mailbox_command(
    tag: imap_types::core::Tag<'static>,
    command: MailboxCommand,
    mailbox: Mailbox<'static>,
) -> (encoded: Encoded)
    ensures
        encoded_fragments(encoded) == command_fragments(
            tag,
            CommandView::Mailbox { command, mailbox },
        ),
{
    let body = match command {
        MailboxCommand::Create => CommandBody::Create { mailbox },
        MailboxCommand::Delete => CommandBody::Delete { mailbox },
        MailboxCommand::Subscribe => CommandBody::Subscribe { mailbox },
        MailboxCommand::Unsubscribe => CommandBody::Unsubscribe { mailbox },
    };
    CommandCodec::new().encode(&Command { tag, body })
}

/// `CommandCodec::encode` of RENAME.
#[verifier::external_body]
pub(crate) fn encode_rename(
    tag: imap_types::core::Tag<'static>,
    source: Mailbox<'static>,
    target: Mailbox<'static>,
) -> (encoded: Encoded)
    ensures
        encoded_fragments(encoded) == command_fragments(
            tag,
            CommandView::Rename { source, target },
        ),
{
    let body = CommandBody::Rename { from: source, to: target };
    CommandCodec::new().encode(&Command { tag, body })
}

/// `CommandCodec::encode` of SELECT or EXAMINE.
#[verifier::external_body]
pub(crate) fn encode_open(
    tag: imap_types::core::Tag<'static>,
    command: OpenCommand,
    mailbox: Mailbox<'static>,
    parameters: Vec<SelectParameter>,
) -> (encoded: Encoded)
    ensures
        encoded_fragments(encoded) == command_fragments(
            tag,
            CommandView::Open { command, mailbox, parameters: parameters@ },
        ),
{
    let body = match command {
        OpenCommand::Select => CommandBody::Select { mailbox, parameters },
        OpenCommand::Examine => CommandBody::Examine { mailbox, parameters },
    };
    CommandCodec::new().encode(&Command { tag, body })
}

/// `CommandCodec::encode` of LIST or LSUB.
#[verifier::external_body]
pub(crate) fn encode_list(
    tag: imap_types::core::Tag<'static>,
    command: ListCommand,
    reference: Mailbox<'static>,
    pattern: ListMailbox<'static>,
) -> (encoded: Encoded)
    ensures
        encoded_fragments(encoded) == command_fragments(
            tag,
            CommandView::List { command, reference, pattern },
        ),
{
    let body = match command {
        ListCommand::List => CommandBody::List { reference, mailbox_wildcard: pattern },
        ListCommand::Lsub => CommandBody::Lsub { reference, mailbox_wildcard: pattern },
    };
    CommandCodec::new().encode(&Command { tag, body })
}

/// `CommandCodec::encode` of STATUS.
#[verifier::external_body]
pub(crate) fn encode_status(
    tag: imap_types::core::Tag<'static>,
    mailbox: Mailbox<'static>,
    names: Vec<StatusDataItemName>,
) -> (encoded: Encoded)
    ensures
        encoded_fragments(encoded) == command_fragments(
            tag,
            CommandView::Status { mailbox, names: names@ },
        ),
{
    let body = CommandBody::Status { mailbox, item_names: names.into() };
    CommandCodec::new().encode(&Command { tag, body })
}

/// Text that IMAP can carry as a string: anything without NUL.
pub open spec fn is_sendable(text: Seq<char>) -> bool {
    forall|i: int| 0 <= i < text.len() ==> #[trigger] text[i] != '\0'
}

/// `AString::try_from` of both texts, then `CommandCodec::encode` of
/// LOGIN. Only a NUL keeps a text from being sent.
#[verifier::external_body]
pub(crate) fn encode_login(
    tag: imap_types::core::Tag<'static>,
    user: &str,
    password: &str,
) -> (result: Result<Encoded, ValidationError>)
    ensures
        match result {
            Ok(encoded) => is_sendable(user@) && is_sendable(password@) && encoded_fragments(
                encoded,
            ) == command_fragments(tag, CommandView::Login { user: user@, password: password@ }),
            Err(_) => !is_sendable(user@) || !is_sendable(password@),
        },
{
    let username = user.to_string().try_into()?;
    let password = Secret::new(password.to_string().try_into()?);
    let body = CommandBody::Login { username, password };
    Ok(CommandCodec::new().encode(&Command { tag, body }))
}

/// `CommandCodec::encode` of ID.
#[verifier::external_body]
pub(crate) fn encode_id(
    tag: imap_types::core::Tag<'static>,
    parameters: Option<Parameters>,
) -> (encoded: Encoded)
    ensures
        encoded_fragments(encoded) == command_fragments(
            tag,
            CommandView::Id { parameters: parameters_view(parameters) },
        ),
{
    CommandCodec::new().encode(&Command { tag, body: CommandBody::Id { parameters } })
}

/// `CommandCodec::encode` of ENABLE.
#[verifier::external_body]
pub(crate) fn encode_enable(
    tag: imap_types::core::Tag<'static>,
    capabilities: imap_types::core::Vec1<CapabilityEnable<'static>>,
) -> (encoded: Encoded)
    ensures
        encoded_fragments(encoded) == command_fragments(
            tag,
            CommandView::Enable { capabilities },
        ),
{
    CommandCodec::new().encode(&Command { tag, body: CommandBody::Enable { capabilities } })
}

/// `CommandCodec::encode` of APPEND.
#[verifier::external_body]
pub(crate) fn encode_append(
    tag: imap_types::core::Tag<'static>,
    mailbox: Mailbox<'static>,
    flags: Vec<Flag<'static>>,
    date: Option<DateTime>,
    message: LiteralOrLiteral8<'static>,
) -> (encoded: Encoded)
    ensures
        encoded_fragments(encoded) == command_fragments(
            tag,
            CommandView::Append { mailbox, flags: flags@, date, message },
        ),
{
    let body = CommandBody::Append { mailbox, flags, date, message };
    CommandCodec::new().encode(&Command { tag, body })
}

/// The end of a line that announces an empty literal: `{0+}` and CRLF.
pub open spec fn empty_literal() -> Seq<u8> {
    seq![0x7b, 0x30, 0x2b, 0x7d, 0x0d, 0x0a]
}

/// Whether `s` ends with `suffix`.
pub open spec fn ends_with(s: Seq<u8>, suffix: Seq<u8>) -> bool {
    s.len() >= suffix.len() && s.skip(s.len() - suffix.len()) == suffix
}

/// The last three fragments are a line that announces an empty literal,
/// that literal, and the CRLF that ends the command.
pub open spec fn closes_with_empty_literal(fragments: Seq<FragmentView>) -> bool {
    let count = fragments.len() as int;
    &&& count >= 3
    &&& fragments[count - 3] matches FragmentView::Line(line)
    &&& ends_with(line, empty_literal())
    &&& fragments[count - 2] == FragmentView::Literal { data: Seq::empty(), sync: false }
    &&& fragments[count - 1] == FragmentView::Line(crlf())
}

/// `CommandCodec::encode` of APPEND with an empty, non-synchronising
/// literal in place of the message.
#[verifier::external_body]
pub(crate) fn encode_append_empty(
    tag: imap_types::core::Tag<'static>,
    mailbox: Mailbox<'static>,
    flags: Vec<Flag<'static>>,
    date: Option<DateTime>,
) -> (encoded: Encoded)
    ensures
        encoded_fragments(encoded) == command_fragments(
            tag,
            CommandView::AppendEmpty { mailbox, flags: flags@, date },
        ),
        closes_with_empty_literal(encoded_fragments(encoded)),
{
    let literal = imap_types::core::Literal::unvalidated_non_sync(Vec::new());
    let message = LiteralOrLiteral8::Literal(literal);
    let body = CommandBody::Append { mailbox, flags, date, message };
    CommandCodec::new().encode(&Command { tag, body })
}

/// `CommandCodec::encode` of UID EXPUNGE.
#[verifier::external_body]
pub(crate) fn encode_expunge_uid(
    tag: imap_types::core::Tag<'static>,
    messages: SequenceSet,
) -> (encoded: Encoded)
    ensures
        encoded_fragments(encoded) == command_fragments(
            tag,
            CommandView::ExpungeUid { messages },
        ),
{
    let body = CommandBody::ExpungeUid { sequence_set: messages };
    CommandCodec::new().encode(&Command { tag, body })
}

/// Names that a charset can have: letters, digits and hyphens, at least
/// one of them.
pub open spec fn is_charset_name(name: Seq<char>) -> bool {
    &&& name.len() > 0
    &&& forall|i: int|
        0 <= i < name.len() ==> {
            let c = #[trigger] name[i];
            'A' <= c <= 'Z' || 'a' <= c <= 'z' || '0' <= c <= '9' || c == '-'
        }
}

/// The charset that criteria are sent in.
pub open spec fn utf_8() -> Seq<char> {
    seq!['U', 'T', 'F', '-', '8']
}

/// The charset that criteria are sent in.
pub(crate) fn utf_8_name() -> (name: &'static str)
    ensures
        name@ == utf_8(),
        is_charset_name(name@),
{
    proof {
        reveal_strlit("UTF-8");
        assert("UTF-8"@ =~= utf_8());
    }
    "UTF-8"
}

/// Model of an optional charset.
pub open spec fn charset_view(charset: Option<&str>) -> Option<Seq<char>> {
    match charset {
        Some(name) => Some(name@),
        None => None,
    }
}

/// `Charset::try_from` of the charset, if any, then
/// `CommandCodec::encode` of SEARCH.
#[verifier::external_body]
pub(crate) fn encode_search(
    tag: imap_types::core::Tag<'static>,
    charset: Option<&str>,
    criteria: imap_types::core::Vec1<SearchKey<'static>>,
    uid: bool,
) -> (encoded: Encoded)
    requires
        charset matches Some(name) ==> is_charset_name(name@),
    ensures
        encoded_fragments(encoded) == command_fragments(
            tag,
            CommandView::Search { charset: charset_view(charset), criteria, uid },
        ),
{
    let charset = charset.map(|name| name.to_string().try_into().unwrap());
    let body = CommandBody::Search { charset, criteria, uid };
    CommandCodec::new().encode(&Command { tag, body })
}

/// `Charset::try_from` of the charset, then `CommandCodec::encode` of
/// SORT.
#[verifier::external_body]
pub(crate) fn encode_sort(
    tag: imap_types::core::Tag<'static>,
    keys: imap_types::core::Vec1<SortCriterion>,
    charset: &str,
    criteria: imap_types::core::Vec1<SearchKey<'static>>,
    uid: bool,
) -> (encoded: Encoded)
    requires
        is_charset_name(charset@),
    ensures
        encoded_fragments(encoded) == command_fragments(
            tag,
            CommandView::Sort { keys, charset: charset@, criteria, uid },
        ),
{
    let charset = charset.to_string().try_into().unwrap();
    let body = CommandBody::Sort { sort_criteria: keys, charset, search_criteria: criteria, uid };
    CommandCodec::new().encode(&Command { tag, body })
}

/// `Charset::try_from` of the charset, then `CommandCodec::encode` of
/// THREAD.
#[verifier::external_body]
pub(crate) fn encode_thread(
    tag: imap_types::core::Tag<'static>,
    algorithm: ThreadingAlgorithm<'static>,
    charset: &str,
    criteria: imap_types::core::Vec1<SearchKey<'static>>,
    uid: bool,
) -> (encoded: Encoded)
    requires
        is_charset_name(charset@),
    ensures
        encoded_fragments(encoded) == command_fragments(
            tag,
            CommandView::Thread { algorithm, charset: charset@, criteria, uid },
        ),
{
    let charset = charset.to_string().try_into().unwrap();
    let body = CommandBody::Thread { algorithm, charset, search_criteria: criteria, uid };
    CommandCodec::new().encode(&Command { tag, body })
}

/// `CommandCodec::encode` of FETCH.
#[verifier::external_body]
pub(crate) fn encode_fetch(
    tag: imap_types::core::Tag<'static>,
    messages: SequenceSet,
    items: MacroOrMessageDataItemNames<'static>,
    uid: bool,
    modifiers: Vec<FetchModifier>,
) -> (encoded: Encoded)
    ensures
        encoded_fragments(encoded) == command_fragments(
            tag,
            CommandView::Fetch { messages, items, uid, modifiers: modifiers@ },
        ),
{
    let body = CommandBody::Fetch {
        sequence_set: messages,
        macro_or_item_names: items,
        uid,
        modifiers,
    };
    CommandCodec::new().encode(&Command { tag, body })
}

/// `CommandCodec::encode` of STORE.
#[verifier::external_body]
pub(crate) fn encode_store(
    tag: imap_types::core::Tag<'static>,
    sequence_set: SequenceSet,
    kind: StoreType,
    echo: StoreEcho,
    flags: Vec<Flag<'static>>,
    uid: bool,
    modifiers: Vec<StoreModifier>,
) -> (encoded: Encoded)
    ensures
        encoded_fragments(encoded) == command_fragments(
            tag,
            CommandView::Store {
                messages: sequence_set,
                kind,
                echo,
                flags: flags@,
                uid,
                modifiers: modifiers@,
            },
        ),
{
    let response = match echo {
        StoreEcho::Answer => StoreResponse::Answer,
        StoreEcho::Silent => StoreResponse::Silent,
    };
    let body = CommandBody::Store { sequence_set, kind, response, flags, uid, modifiers };
    CommandCodec::new().encode(&Command { tag, body })
}

/// `CommandCodec::encode` of COPY or MOVE.
#[verifier::external_body]
pub(crate) fn encode_transfer(
    tag: imap_types::core::Tag<'static>,
    command: TransferCommand,
    sequence_set: SequenceSet,
    mailbox: Mailbox<'static>,
    uid: bool,
) -> (encoded: Encoded)
    ensures
        encoded_fragments(encoded) == command_fragments(
            tag,
            CommandView::Transfer { command, messages: sequence_set, mailbox, uid },
        ),
{
    let body = match command {
        TransferCommand::Copy => CommandBody::Copy { sequence_set, mailbox, uid },
        TransferCommand::Move => CommandBody::Move { sequence_set, mailbox, uid },
    };
    CommandCodec::new().encode(&Command { tag, body })
}

} // verus!
