use imap_codec::fragmentizer::Fragmentizer;
use imap_codec::imap_types::extensions::enable::CapabilityEnable;
use imap_codec::imap_types::extensions::sort::{SortCriterion, SortKey};
use imap_codec::imap_types::extensions::thread::ThreadingAlgorithm;
use imap_codec::imap_types::fetch::{Macro, MacroOrMessageDataItemNames};
use imap_codec::imap_types::flag::{Flag, StoreType};
use imap_codec::imap_types::mailbox::{ListMailbox, Mailbox};
use imap_codec::imap_types::search::SearchKey;
use imap_codec::imap_types::sequence::SequenceSet;
use imap_codec::imap_types::status::{StatusDataItem, StatusDataItemName};
use io_imap::coroutine::{ImapCoroutine, ImapCoroutineState, ImapYield};
use io_imap::rfc2971::id::{ImapServerId, ImapServerIdError, ImapServerIdOptions};
use io_imap::rfc3501::capability::{ImapCapabilityGet, ImapCapabilityGetError};
use io_imap::rfc3501::check::{ImapMailboxCheck, ImapMailboxCheckError};
use io_imap::rfc3501::close::{ImapMailboxClose, ImapMailboxCloseError};
use io_imap::rfc3501::copy::{ImapMessageCopy, ImapMessageCopyError, ImapMessageCopyOptions};
use io_imap::rfc3501::create::{ImapMailboxCreate, ImapMailboxCreateError};
use io_imap::rfc3501::delete::{ImapMailboxDelete, ImapMailboxDeleteError};
use io_imap::rfc3501::examine::{
    ImapMailboxExamine, ImapMailboxExamineError, ImapMailboxExamineOptions,
};
use io_imap::rfc3501::expunge::{ImapMailboxExpunge, ImapMailboxExpungeError};
use io_imap::rfc3501::fetch::{
    ImapMessageFetch, ImapMessageFetchError, ImapMessageFetchFirst, ImapMessageFetchOptions,
};
use io_imap::rfc3501::list::{ImapMailboxList, ImapMailboxListError};
use io_imap::rfc3501::login::{ImapLogin, ImapLoginError, ImapLoginOptions};
use io_imap::rfc3501::lsub::{ImapMailboxLsub, ImapMailboxLsubError};
use io_imap::rfc3501::noop::{ImapNoop, ImapNoopError};
use io_imap::rfc3501::rename::{ImapMailboxRename, ImapMailboxRenameError};
use io_imap::rfc3501::search::{ImapMessageSearch, ImapMessageSearchError, ImapMessageSearchOptions};
use io_imap::rfc3501::select::{ImapMailboxSelect, ImapMailboxSelectError, ImapMailboxSelectOptions};
use io_imap::rfc3501::status::{ImapMailboxStatus, ImapMailboxStatusError};
use io_imap::rfc3501::store::{
    ImapMessageStore, ImapMessageStoreError, ImapMessageStoreOptions, ImapMessageStoreSilent,
};
use io_imap::rfc3501::subscribe::{ImapMailboxSubscribe, ImapMailboxSubscribeError};
use io_imap::rfc3501::unsubscribe::{ImapMailboxUnsubscribe, ImapMailboxUnsubscribeError};
use io_imap::rfc3691::unselect::{ImapMailboxUnselect, ImapMailboxUnselectError};
use io_imap::rfc4315::expunge_uid::{ImapMessageExpungeUid, ImapMessageExpungeUidError};
use io_imap::rfc5161::enable::{ImapExtensionEnable, ImapExtensionEnableError};
use io_imap::rfc5256::sort::{ImapMessageSort, ImapMessageSortError, ImapMessageSortOptions};
use io_imap::rfc5256::thread::{ImapMessageThread, ImapMessageThreadError, ImapMessageThreadOptions};
use io_imap::rfc6851::message_move::{ImapMessageMove, ImapMessageMoveError, ImapMessageMoveOptions};
use io_imap::send::ImapSendError;

/// Writes the command and answers it; `{tag}` in the reply stands for the
/// tag of the command.
fn answer<C, T, E>(mut cor: C, reply: &str) -> Result<T, E>
where
    C: ImapCoroutine<Yield = ImapYield, Return = Result<T, E>>,
{
    let mut frag = Fragmentizer::new(50 * 1024 * 1024);
    let bytes = match cor.resume(&mut frag, None) {
        ImapCoroutineState::Yielded(ImapYield::WantsWrite(bytes)) => bytes,
        _ => panic!("expected WantsWrite"),
    };
    let line = String::from_utf8(bytes).expect("utf8 command");
    let tag = line.split_whitespace().next().expect("tag");
    match cor.resume(&mut frag, None) {
        ImapCoroutineState::Yielded(ImapYield::WantsRead) => {}
        _ => panic!("expected WantsRead"),
    }
    let reply = reply.replace("{tag}", tag);
    match cor.resume(&mut frag, Some(reply.as_bytes())) {
        ImapCoroutineState::Complete(result) => result,
        _ => panic!("expected Complete"),
    }
}

fn archive() -> Mailbox<'static> {
    "Archive".try_into().expect("valid mailbox")
}

fn reference() -> Mailbox<'static> {
    "Old".try_into().expect("valid mailbox")
}

fn pattern() -> ListMailbox<'static> {
    "*".try_into().expect("valid pattern")
}

fn messages() -> SequenceSet {
    "1:3".try_into().expect("valid sequence set")
}

fn all_items() -> MacroOrMessageDataItemNames<'static> {
    MacroOrMessageDataItemNames::Macro(Macro::All)
}

fn criteria() -> imap_codec::imap_types::core::Vec1<SearchKey<'static>> {
    vec![SearchKey::All].try_into().expect("one criterion")
}

fn orders() -> imap_codec::imap_types::core::Vec1<SortCriterion> {
    vec![SortCriterion { reverse: false, key: SortKey::Date }].try_into().expect("one criterion")
}

fn extensions() -> imap_codec::imap_types::core::Vec1<CapabilityEnable<'static>> {
    vec![CapabilityEnable::CondStore].try_into().expect("one extension")
}

#[test]
fn capability_outcomes() {
    let new = || ImapCapabilityGet::new();

    let value = answer(new(), "* CAPABILITY IMAP4REV1 IDLE\r\n{tag} OK done\r\n").unwrap();
    assert!(value.len() == 2);
    let refused = |reply| answer(new(), reply).err().expect("a refusal");
    assert!(matches!(refused("{tag} NO no\r\n"), ImapCapabilityGetError::No(text) if text == "no"));
    assert!(matches!(
        refused("{tag} BAD bad\r\n"),
        ImapCapabilityGetError::Bad(text) if text == "bad"
    ));
    assert!(matches!(refused("* BYE bye\r\n"), ImapCapabilityGetError::Bye(text) if text == "bye"));
    // A BYE takes precedence over the completion.
    assert!(matches!(refused("* BYE bye\r\n{tag} OK done\r\n"), ImapCapabilityGetError::Bye(_)));
    assert!(matches!(refused("+ go on\r\n"), ImapCapabilityGetError::MissingTagged));
    assert!(matches!(refused(""), ImapCapabilityGetError::Send(ImapSendError::Eof)));
}

#[test]
fn check_outcomes() {
    let new = || ImapMailboxCheck::new();

    assert!(answer(new(), "{tag} OK done\r\n").is_ok());
    let refused = |reply| answer(new(), reply).err().expect("a refusal");
    assert!(matches!(refused("{tag} NO no\r\n"), ImapMailboxCheckError::No(text) if text == "no"));
    assert!(matches!(
        refused("{tag} BAD bad\r\n"),
        ImapMailboxCheckError::Bad(text) if text == "bad"
    ));
    assert!(matches!(refused("* BYE bye\r\n"), ImapMailboxCheckError::Bye(text) if text == "bye"));
    // A BYE takes precedence over the completion.
    assert!(matches!(refused("* BYE bye\r\n{tag} OK done\r\n"), ImapMailboxCheckError::Bye(_)));
    assert!(matches!(refused("+ go on\r\n"), ImapMailboxCheckError::MissingTagged));
    assert!(matches!(refused(""), ImapMailboxCheckError::Send(ImapSendError::Eof)));
}

#[test]
fn close_outcomes() {
    let new = || ImapMailboxClose::new();

    assert!(answer(new(), "{tag} OK done\r\n").is_ok());
    let refused = |reply| answer(new(), reply).err().expect("a refusal");
    assert!(matches!(refused("{tag} NO no\r\n"), ImapMailboxCloseError::No(text) if text == "no"));
    assert!(matches!(
        refused("{tag} BAD bad\r\n"),
        ImapMailboxCloseError::Bad(text) if text == "bad"
    ));
    assert!(matches!(refused("* BYE bye\r\n"), ImapMailboxCloseError::Bye(text) if text == "bye"));
    // A BYE takes precedence over the completion.
    assert!(matches!(refused("* BYE bye\r\n{tag} OK done\r\n"), ImapMailboxCloseError::Bye(_)));
    assert!(matches!(refused("+ go on\r\n"), ImapMailboxCloseError::MissingTagged));
    assert!(matches!(refused(""), ImapMailboxCloseError::Send(ImapSendError::Eof)));
}

#[test]
fn copy_outcomes() {
    let new = || ImapMessageCopy::new(messages(), archive(), ImapMessageCopyOptions::default());

    let value = answer(new(), "{tag} OK done\r\n").unwrap();
    assert!(value.is_none());
    let refused = |reply| answer(new(), reply).err().expect("a refusal");
    assert!(matches!(refused("{tag} NO no\r\n"), ImapMessageCopyError::No(text) if text == "no"));
    assert!(matches!(
        refused("{tag} BAD bad\r\n"),
        ImapMessageCopyError::Bad(text) if text == "bad"
    ));
    assert!(matches!(refused("* BYE bye\r\n"), ImapMessageCopyError::Bye(text) if text == "bye"));
    // A BYE takes precedence over the completion.
    assert!(matches!(refused("* BYE bye\r\n{tag} OK done\r\n"), ImapMessageCopyError::Bye(_)));
    assert!(matches!(refused("+ go on\r\n"), ImapMessageCopyError::MissingTagged));
    assert!(matches!(refused(""), ImapMessageCopyError::Send(ImapSendError::Eof)));
}

#[test]
fn create_outcomes() {
    let new = || ImapMailboxCreate::new(archive());

    assert!(answer(new(), "{tag} OK done\r\n").is_ok());
    let refused = |reply| answer(new(), reply).err().expect("a refusal");
    assert!(matches!(refused("{tag} NO no\r\n"), ImapMailboxCreateError::No(text) if text == "no"));
    assert!(matches!(
        refused("{tag} BAD bad\r\n"),
        ImapMailboxCreateError::Bad(text) if text == "bad"
    ));
    assert!(matches!(refused("* BYE bye\r\n"), ImapMailboxCreateError::Bye(text) if text == "bye"));
    // A BYE takes precedence over the completion.
    assert!(matches!(refused("* BYE bye\r\n{tag} OK done\r\n"), ImapMailboxCreateError::Bye(_)));
    assert!(matches!(refused("+ go on\r\n"), ImapMailboxCreateError::MissingTagged));
    assert!(matches!(refused(""), ImapMailboxCreateError::Send(ImapSendError::Eof)));
}

#[test]
fn delete_outcomes() {
    let new = || ImapMailboxDelete::new(archive());

    assert!(answer(new(), "{tag} OK done\r\n").is_ok());
    let refused = |reply| answer(new(), reply).err().expect("a refusal");
    assert!(matches!(refused("{tag} NO no\r\n"), ImapMailboxDeleteError::No(text) if text == "no"));
    assert!(matches!(
        refused("{tag} BAD bad\r\n"),
        ImapMailboxDeleteError::Bad(text) if text == "bad"
    ));
    assert!(matches!(refused("* BYE bye\r\n"), ImapMailboxDeleteError::Bye(text) if text == "bye"));
    // A BYE takes precedence over the completion.
    assert!(matches!(refused("* BYE bye\r\n{tag} OK done\r\n"), ImapMailboxDeleteError::Bye(_)));
    assert!(matches!(refused("+ go on\r\n"), ImapMailboxDeleteError::MissingTagged));
    assert!(matches!(refused(""), ImapMailboxDeleteError::Send(ImapSendError::Eof)));
}

#[test]
fn examine_outcomes() {
    let new = || ImapMailboxExamine::new(archive(), ImapMailboxExamineOptions::default());

    let value = answer(new(), "* 3 EXISTS\r\n{tag} OK done\r\n").unwrap();
    assert!(value.exists == Some(3));
    let refused = |reply| answer(new(), reply).err().expect("a refusal");
    assert!(matches!(
        refused("{tag} NO no\r\n"),
        ImapMailboxExamineError::No(text) if text == "no"
    ));
    assert!(matches!(
        refused("{tag} BAD bad\r\n"),
        ImapMailboxExamineError::Bad(text) if text == "bad"
    ));
    assert!(matches!(
        refused("* BYE bye\r\n"),
        ImapMailboxExamineError::Bye(text) if text == "bye"
    ));
    // A BYE takes precedence over the completion.
    assert!(matches!(refused("* BYE bye\r\n{tag} OK done\r\n"), ImapMailboxExamineError::Bye(_)));
    assert!(matches!(refused("+ go on\r\n"), ImapMailboxExamineError::MissingTagged));
    assert!(matches!(refused(""), ImapMailboxExamineError::Send(ImapSendError::Eof)));
}

#[test]
fn expunge_outcomes() {
    let new = || ImapMailboxExpunge::new();

    let value = answer(new(), "* 4 EXPUNGE\r\n* 2 EXPUNGE\r\n{tag} OK done\r\n").unwrap();
    assert!(value == vec![4, 2]);
    let refused = |reply| answer(new(), reply).err().expect("a refusal");
    assert!(matches!(
        refused("{tag} NO no\r\n"),
        ImapMailboxExpungeError::No(text) if text == "no"
    ));
    assert!(matches!(
        refused("{tag} BAD bad\r\n"),
        ImapMailboxExpungeError::Bad(text) if text == "bad"
    ));
    assert!(matches!(
        refused("* BYE bye\r\n"),
        ImapMailboxExpungeError::Bye(text) if text == "bye"
    ));
    // A BYE takes precedence over the completion.
    assert!(matches!(refused("* BYE bye\r\n{tag} OK done\r\n"), ImapMailboxExpungeError::Bye(_)));
    assert!(matches!(refused("+ go on\r\n"), ImapMailboxExpungeError::MissingTagged));
    assert!(matches!(refused(""), ImapMailboxExpungeError::Send(ImapSendError::Eof)));
}

#[test]
fn fetch_outcomes() {
    let new = || ImapMessageFetch::new(messages(), all_items(), ImapMessageFetchOptions::default());

    let reply = "* 1 FETCH (RFC822.SIZE 5)\r\n* 1 FETCH (UID 7)\r\n{tag} OK done\r\n";
    let value = answer(new(), reply).unwrap();
    assert!(value.len() == 1 && value[&1].len() == 2);
    let refused = |reply| answer(new(), reply).err().expect("a refusal");
    assert!(matches!(refused("{tag} NO no\r\n"), ImapMessageFetchError::No(text) if text == "no"));
    assert!(matches!(
        refused("{tag} BAD bad\r\n"),
        ImapMessageFetchError::Bad(text) if text == "bad"
    ));
    assert!(matches!(refused("* BYE bye\r\n"), ImapMessageFetchError::Bye(text) if text == "bye"));
    // A BYE takes precedence over the completion.
    assert!(matches!(refused("* BYE bye\r\n{tag} OK done\r\n"), ImapMessageFetchError::Bye(_)));
    assert!(matches!(refused("+ go on\r\n"), ImapMessageFetchError::MissingTagged));
    assert!(matches!(refused(""), ImapMessageFetchError::Send(ImapSendError::Eof)));
}

#[test]
fn fetch_first_outcomes() {
    let new = || ImapMessageFetchFirst::new(1, all_items(), ImapMessageFetchOptions::default());

    let value = answer(new(), "* 1 FETCH (RFC822.SIZE 5)\r\n{tag} OK done\r\n").unwrap();
    assert!(value.len() == 1);
    let refused = |reply| answer(new(), reply).err().expect("a refusal");
    assert!(matches!(refused("{tag} NO no\r\n"), ImapMessageFetchError::No(text) if text == "no"));
    assert!(matches!(
        refused("{tag} BAD bad\r\n"),
        ImapMessageFetchError::Bad(text) if text == "bad"
    ));
    assert!(matches!(refused("* BYE bye\r\n"), ImapMessageFetchError::Bye(text) if text == "bye"));
    // A BYE takes precedence over the completion.
    assert!(matches!(refused("* BYE bye\r\n{tag} OK done\r\n"), ImapMessageFetchError::Bye(_)));
    assert!(matches!(refused("+ go on\r\n"), ImapMessageFetchError::MissingTagged));
    assert!(matches!(refused(""), ImapMessageFetchError::Send(ImapSendError::Eof)));
}

#[test]
fn id_outcomes() {
    let new = || ImapServerId::new(ImapServerIdOptions::default());

    let value = answer(new(), "* ID NIL\r\n{tag} OK done\r\n").unwrap();
    assert!(value.is_none());
    let refused = |reply| answer(new(), reply).err().expect("a refusal");
    assert!(matches!(refused("{tag} NO no\r\n"), ImapServerIdError::No(text) if text == "no"));
    assert!(matches!(refused("{tag} BAD bad\r\n"), ImapServerIdError::Bad(text) if text == "bad"));
    assert!(matches!(refused("* BYE bye\r\n"), ImapServerIdError::Bye(text) if text == "bye"));
    // A BYE takes precedence over the completion.
    assert!(matches!(refused("* BYE bye\r\n{tag} OK done\r\n"), ImapServerIdError::Bye(_)));
    assert!(matches!(refused("+ go on\r\n"), ImapServerIdError::MissingTagged));
    assert!(matches!(refused(""), ImapServerIdError::Send(ImapSendError::Eof)));
}

#[test]
fn list_outcomes() {
    let new = || ImapMailboxList::new(reference(), pattern());

    let value = answer(new(), "* LIST () \"/\" Archive\r\n{tag} OK done\r\n").unwrap();
    assert!(value.len() == 1);
    let refused = |reply| answer(new(), reply).err().expect("a refusal");
    assert!(matches!(refused("{tag} NO no\r\n"), ImapMailboxListError::No(text) if text == "no"));
    assert!(matches!(
        refused("{tag} BAD bad\r\n"),
        ImapMailboxListError::Bad(text) if text == "bad"
    ));
    assert!(matches!(refused("* BYE bye\r\n"), ImapMailboxListError::Bye(text) if text == "bye"));
    // A BYE takes precedence over the completion.
    assert!(matches!(refused("* BYE bye\r\n{tag} OK done\r\n"), ImapMailboxListError::Bye(_)));
    assert!(matches!(refused("+ go on\r\n"), ImapMailboxListError::MissingTagged));
    assert!(matches!(refused(""), ImapMailboxListError::Send(ImapSendError::Eof)));
}

#[test]
fn lsub_outcomes() {
    let new = || ImapMailboxLsub::new(reference(), pattern());

    let value = answer(new(), "* LSUB () \"/\" Archive\r\n{tag} OK done\r\n").unwrap();
    assert!(value.len() == 1);
    let refused = |reply| answer(new(), reply).err().expect("a refusal");
    assert!(matches!(refused("{tag} NO no\r\n"), ImapMailboxLsubError::No(text) if text == "no"));
    assert!(matches!(
        refused("{tag} BAD bad\r\n"),
        ImapMailboxLsubError::Bad(text) if text == "bad"
    ));
    assert!(matches!(refused("* BYE bye\r\n"), ImapMailboxLsubError::Bye(text) if text == "bye"));
    // A BYE takes precedence over the completion.
    assert!(matches!(refused("* BYE bye\r\n{tag} OK done\r\n"), ImapMailboxLsubError::Bye(_)));
    assert!(matches!(refused("+ go on\r\n"), ImapMailboxLsubError::MissingTagged));
    assert!(matches!(refused(""), ImapMailboxLsubError::Send(ImapSendError::Eof)));
}

#[test]
fn message_move_outcomes() {
    let new = || ImapMessageMove::new(messages(), archive(), ImapMessageMoveOptions::default());

    let value = answer(new(), "{tag} OK done\r\n").unwrap();
    assert!(value.is_none());
    let refused = |reply| answer(new(), reply).err().expect("a refusal");
    assert!(matches!(refused("{tag} NO no\r\n"), ImapMessageMoveError::No(text) if text == "no"));
    assert!(matches!(
        refused("{tag} BAD bad\r\n"),
        ImapMessageMoveError::Bad(text) if text == "bad"
    ));
    assert!(matches!(refused("* BYE bye\r\n"), ImapMessageMoveError::Bye(text) if text == "bye"));
    // A BYE takes precedence over the completion.
    assert!(matches!(refused("* BYE bye\r\n{tag} OK done\r\n"), ImapMessageMoveError::Bye(_)));
    assert!(matches!(refused("+ go on\r\n"), ImapMessageMoveError::MissingTagged));
    assert!(matches!(refused(""), ImapMessageMoveError::Send(ImapSendError::Eof)));
}

#[test]
fn noop_outcomes() {
    let new = || ImapNoop::new();

    assert!(answer(new(), "{tag} OK done\r\n").is_ok());
    let refused = |reply| answer(new(), reply).err().expect("a refusal");
    assert!(matches!(refused("{tag} NO no\r\n"), ImapNoopError::No(text) if text == "no"));
    assert!(matches!(refused("{tag} BAD bad\r\n"), ImapNoopError::Bad(text) if text == "bad"));
    assert!(matches!(refused("* BYE bye\r\n"), ImapNoopError::Bye(text) if text == "bye"));
    // A BYE takes precedence over the completion.
    assert!(matches!(refused("* BYE bye\r\n{tag} OK done\r\n"), ImapNoopError::Bye(_)));
    assert!(matches!(refused("+ go on\r\n"), ImapNoopError::MissingTagged));
    assert!(matches!(refused(""), ImapNoopError::Send(ImapSendError::Eof)));
}

#[test]
fn rename_outcomes() {
    let new = || ImapMailboxRename::new(archive(), reference());

    assert!(answer(new(), "{tag} OK done\r\n").is_ok());
    let refused = |reply| answer(new(), reply).err().expect("a refusal");
    assert!(matches!(refused("{tag} NO no\r\n"), ImapMailboxRenameError::No(text) if text == "no"));
    assert!(matches!(
        refused("{tag} BAD bad\r\n"),
        ImapMailboxRenameError::Bad(text) if text == "bad"
    ));
    assert!(matches!(refused("* BYE bye\r\n"), ImapMailboxRenameError::Bye(text) if text == "bye"));
    // A BYE takes precedence over the completion.
    assert!(matches!(refused("* BYE bye\r\n{tag} OK done\r\n"), ImapMailboxRenameError::Bye(_)));
    assert!(matches!(refused("+ go on\r\n"), ImapMailboxRenameError::MissingTagged));
    assert!(matches!(refused(""), ImapMailboxRenameError::Send(ImapSendError::Eof)));
}

#[test]
fn search_outcomes() {
    let new = || ImapMessageSearch::new(criteria(), ImapMessageSearchOptions::default());

    let value = answer(new(), "* SEARCH 5 3\r\n{tag} OK done\r\n").unwrap();
    assert!(value == vec![5, 3]);
    let refused = |reply| answer(new(), reply).err().expect("a refusal");
    assert!(matches!(refused("{tag} NO no\r\n"), ImapMessageSearchError::No(text) if text == "no"));
    assert!(matches!(
        refused("{tag} BAD bad\r\n"),
        ImapMessageSearchError::Bad(text) if text == "bad"
    ));
    assert!(matches!(refused("* BYE bye\r\n"), ImapMessageSearchError::Bye(text) if text == "bye"));
    // A BYE takes precedence over the completion.
    assert!(matches!(refused("* BYE bye\r\n{tag} OK done\r\n"), ImapMessageSearchError::Bye(_)));
    assert!(matches!(refused("+ go on\r\n"), ImapMessageSearchError::MissingTagged));
    assert!(matches!(refused(""), ImapMessageSearchError::Send(ImapSendError::Eof)));
}

#[test]
fn select_outcomes() {
    let new = || ImapMailboxSelect::new(archive(), ImapMailboxSelectOptions::default());

    let value = answer(new(), "* 3 EXISTS\r\n{tag} OK done\r\n").unwrap();
    assert!(value.exists == Some(3));
    let refused = |reply| answer(new(), reply).err().expect("a refusal");
    assert!(matches!(refused("{tag} NO no\r\n"), ImapMailboxSelectError::No(text) if text == "no"));
    assert!(matches!(
        refused("{tag} BAD bad\r\n"),
        ImapMailboxSelectError::Bad(text) if text == "bad"
    ));
    assert!(matches!(refused("* BYE bye\r\n"), ImapMailboxSelectError::Bye(text) if text == "bye"));
    // A BYE takes precedence over the completion.
    assert!(matches!(refused("* BYE bye\r\n{tag} OK done\r\n"), ImapMailboxSelectError::Bye(_)));
    assert!(matches!(refused("+ go on\r\n"), ImapMailboxSelectError::MissingTagged));
    assert!(matches!(refused(""), ImapMailboxSelectError::Send(ImapSendError::Eof)));
}

#[test]
fn sort_outcomes() {
    let new = || ImapMessageSort::new(orders(), criteria(), ImapMessageSortOptions::default());

    let value = answer(new(), "* SORT 2 1\r\n{tag} OK done\r\n").unwrap();
    assert!(value == vec![2, 1]);
    let refused = |reply| answer(new(), reply).err().expect("a refusal");
    assert!(matches!(refused("{tag} NO no\r\n"), ImapMessageSortError::No(text) if text == "no"));
    assert!(matches!(
        refused("{tag} BAD bad\r\n"),
        ImapMessageSortError::Bad(text) if text == "bad"
    ));
    assert!(matches!(refused("* BYE bye\r\n"), ImapMessageSortError::Bye(text) if text == "bye"));
    // A BYE takes precedence over the completion.
    assert!(matches!(refused("* BYE bye\r\n{tag} OK done\r\n"), ImapMessageSortError::Bye(_)));
    assert!(matches!(refused("+ go on\r\n"), ImapMessageSortError::MissingTagged));
    assert!(matches!(refused(""), ImapMessageSortError::Send(ImapSendError::Eof)));
}

#[test]
fn status_outcomes() {
    let new = || ImapMailboxStatus::new(archive(), vec![StatusDataItemName::Messages]);

    let value = answer(new(), "* STATUS Archive (MESSAGES 3)\r\n{tag} OK done\r\n").unwrap();
    assert!(value == vec![StatusDataItem::Messages(3)]);
    let refused = |reply| answer(new(), reply).err().expect("a refusal");
    assert!(matches!(refused("{tag} NO no\r\n"), ImapMailboxStatusError::No(text) if text == "no"));
    assert!(matches!(
        refused("{tag} BAD bad\r\n"),
        ImapMailboxStatusError::Bad(text) if text == "bad"
    ));
    assert!(matches!(refused("* BYE bye\r\n"), ImapMailboxStatusError::Bye(text) if text == "bye"));
    // A BYE takes precedence over the completion.
    assert!(matches!(refused("* BYE bye\r\n{tag} OK done\r\n"), ImapMailboxStatusError::Bye(_)));
    assert!(matches!(refused("+ go on\r\n"), ImapMailboxStatusError::MissingTagged));
    assert!(matches!(refused(""), ImapMailboxStatusError::Send(ImapSendError::Eof)));
}

#[test]
fn store_outcomes() {
    let new = || {
        ImapMessageStore::new(
            messages(),
            StoreType::Add,
            vec![Flag::Seen],
            ImapMessageStoreOptions::default(),
        )
    };

    let value = answer(new(), "* 1 FETCH (FLAGS (\\Seen))\r\n{tag} OK done\r\n").unwrap();
    assert!(value.len() == 1);
    let refused = |reply| answer(new(), reply).err().expect("a refusal");
    assert!(matches!(refused("{tag} NO no\r\n"), ImapMessageStoreError::No(text) if text == "no"));
    assert!(matches!(
        refused("{tag} BAD bad\r\n"),
        ImapMessageStoreError::Bad(text) if text == "bad"
    ));
    assert!(matches!(refused("* BYE bye\r\n"), ImapMessageStoreError::Bye(text) if text == "bye"));
    // A BYE takes precedence over the completion.
    assert!(matches!(refused("* BYE bye\r\n{tag} OK done\r\n"), ImapMessageStoreError::Bye(_)));
    assert!(matches!(refused("+ go on\r\n"), ImapMessageStoreError::MissingTagged));
    assert!(matches!(refused(""), ImapMessageStoreError::Send(ImapSendError::Eof)));
}

#[test]
fn store_silent_outcomes() {
    let new = || {
        ImapMessageStoreSilent::new(
            messages(),
            StoreType::Add,
            vec![Flag::Seen],
            ImapMessageStoreOptions::default(),
        )
    };

    assert!(answer(new(), "{tag} OK done\r\n").is_ok());
    let refused = |reply| answer(new(), reply).err().expect("a refusal");
    assert!(matches!(refused("{tag} NO no\r\n"), ImapMessageStoreError::No(text) if text == "no"));
    assert!(matches!(
        refused("{tag} BAD bad\r\n"),
        ImapMessageStoreError::Bad(text) if text == "bad"
    ));
    assert!(matches!(refused("* BYE bye\r\n"), ImapMessageStoreError::Bye(text) if text == "bye"));
    // A BYE takes precedence over the completion.
    assert!(matches!(refused("* BYE bye\r\n{tag} OK done\r\n"), ImapMessageStoreError::Bye(_)));
    assert!(matches!(refused("+ go on\r\n"), ImapMessageStoreError::MissingTagged));
    assert!(matches!(refused(""), ImapMessageStoreError::Send(ImapSendError::Eof)));
}

#[test]
fn subscribe_outcomes() {
    let new = || ImapMailboxSubscribe::new(archive());

    assert!(answer(new(), "{tag} OK done\r\n").is_ok());
    let refused = |reply| answer(new(), reply).err().expect("a refusal");
    assert!(matches!(
        refused("{tag} NO no\r\n"),
        ImapMailboxSubscribeError::No(text) if text == "no"
    ));
    assert!(matches!(
        refused("{tag} BAD bad\r\n"),
        ImapMailboxSubscribeError::Bad(text) if text == "bad"
    ));
    assert!(matches!(
        refused("* BYE bye\r\n"),
        ImapMailboxSubscribeError::Bye(text) if text == "bye"
    ));
    // A BYE takes precedence over the completion.
    assert!(matches!(refused("* BYE bye\r\n{tag} OK done\r\n"), ImapMailboxSubscribeError::Bye(_)));
    assert!(matches!(refused("+ go on\r\n"), ImapMailboxSubscribeError::MissingTagged));
    assert!(matches!(refused(""), ImapMailboxSubscribeError::Send(ImapSendError::Eof)));
}

#[test]
fn thread_outcomes() {
    let new = || {
        ImapMessageThread::new(
            ThreadingAlgorithm::References,
            criteria(),
            ImapMessageThreadOptions::default(),
        )
    };

    let value = answer(new(), "* THREAD (1)(2)\r\n{tag} OK done\r\n").unwrap();
    assert!(value.len() == 2);
    let refused = |reply| answer(new(), reply).err().expect("a refusal");
    assert!(matches!(refused("{tag} NO no\r\n"), ImapMessageThreadError::No(text) if text == "no"));
    assert!(matches!(
        refused("{tag} BAD bad\r\n"),
        ImapMessageThreadError::Bad(text) if text == "bad"
    ));
    assert!(matches!(refused("* BYE bye\r\n"), ImapMessageThreadError::Bye(text) if text == "bye"));
    // A BYE takes precedence over the completion.
    assert!(matches!(refused("* BYE bye\r\n{tag} OK done\r\n"), ImapMessageThreadError::Bye(_)));
    assert!(matches!(refused("+ go on\r\n"), ImapMessageThreadError::MissingTagged));
    assert!(matches!(refused(""), ImapMessageThreadError::Send(ImapSendError::Eof)));
}

#[test]
fn unselect_outcomes() {
    let new = || ImapMailboxUnselect::new();

    assert!(answer(new(), "{tag} OK done\r\n").is_ok());
    let refused = |reply| answer(new(), reply).err().expect("a refusal");
    assert!(matches!(
        refused("{tag} NO no\r\n"),
        ImapMailboxUnselectError::No(text) if text == "no"
    ));
    assert!(matches!(
        refused("{tag} BAD bad\r\n"),
        ImapMailboxUnselectError::Bad(text) if text == "bad"
    ));
    assert!(matches!(
        refused("* BYE bye\r\n"),
        ImapMailboxUnselectError::Bye(text) if text == "bye"
    ));
    // A BYE takes precedence over the completion.
    assert!(matches!(refused("* BYE bye\r\n{tag} OK done\r\n"), ImapMailboxUnselectError::Bye(_)));
    assert!(matches!(refused("+ go on\r\n"), ImapMailboxUnselectError::MissingTagged));
    assert!(matches!(refused(""), ImapMailboxUnselectError::Send(ImapSendError::Eof)));
}

#[test]
fn unsubscribe_outcomes() {
    let new = || ImapMailboxUnsubscribe::new(archive());

    assert!(answer(new(), "{tag} OK done\r\n").is_ok());
    let refused = |reply| answer(new(), reply).err().expect("a refusal");
    assert!(matches!(
        refused("{tag} NO no\r\n"),
        ImapMailboxUnsubscribeError::No(text) if text == "no"
    ));
    assert!(matches!(
        refused("{tag} BAD bad\r\n"),
        ImapMailboxUnsubscribeError::Bad(text) if text == "bad"
    ));
    assert!(matches!(
        refused("* BYE bye\r\n"),
        ImapMailboxUnsubscribeError::Bye(text) if text == "bye"
    ));
    // A BYE takes precedence over the completion.
    assert!(matches!(
        refused("* BYE bye\r\n{tag} OK done\r\n"),
        ImapMailboxUnsubscribeError::Bye(_)
    ));
    assert!(matches!(refused("+ go on\r\n"), ImapMailboxUnsubscribeError::MissingTagged));
    assert!(matches!(refused(""), ImapMailboxUnsubscribeError::Send(ImapSendError::Eof)));
}

#[test]
fn enable_outcomes() {
    let new = || ImapExtensionEnable::new(extensions());

    let value = answer(new(), "* ENABLED CONDSTORE\r\n{tag} OK done\r\n").unwrap();
    assert!(value.map(|enabled| enabled.len()) == Some(1));
    let refused = |reply| answer(new(), reply).err().expect("a refusal");
    assert!(matches!(
        refused("{tag} NO no\r\n"),
        ImapExtensionEnableError::No(text) if text == "no"
    ));
    assert!(matches!(
        refused("{tag} BAD bad\r\n"),
        ImapExtensionEnableError::Bad(text) if text == "bad"
    ));
    assert!(matches!(
        refused("* BYE bye\r\n"),
        ImapExtensionEnableError::Bye(text) if text == "bye"
    ));
    // A BYE takes precedence over the completion.
    assert!(matches!(refused("* BYE bye\r\n{tag} OK done\r\n"), ImapExtensionEnableError::Bye(_)));
    assert!(matches!(refused("+ go on\r\n"), ImapExtensionEnableError::MissingTagged));
    assert!(matches!(refused(""), ImapExtensionEnableError::Send(ImapSendError::Eof)));
}

#[test]
fn expunge_uid_outcomes() {
    let new = || ImapMessageExpungeUid::new(messages());

    let value = answer(new(), "* 4 EXPUNGE\r\n{tag} OK done\r\n").unwrap();
    assert!(value == vec![4]);
    let refused = |reply| answer(new(), reply).err().expect("a refusal");
    assert!(matches!(
        refused("{tag} NO no\r\n"),
        ImapMessageExpungeUidError::No(text) if text == "no"
    ));
    assert!(matches!(
        refused("{tag} BAD bad\r\n"),
        ImapMessageExpungeUidError::Bad(text) if text == "bad"
    ));
    assert!(matches!(
        refused("* BYE bye\r\n"),
        ImapMessageExpungeUidError::Bye(text) if text == "bye"
    ));
    // A BYE takes precedence over the completion.
    assert!(matches!(
        refused("* BYE bye\r\n{tag} OK done\r\n"),
        ImapMessageExpungeUidError::Bye(_)
    ));
    assert!(matches!(refused("+ go on\r\n"), ImapMessageExpungeUidError::MissingTagged));
    assert!(matches!(refused(""), ImapMessageExpungeUidError::Send(ImapSendError::Eof)));
}

#[test]
fn login_outcomes() {
    let new = || ImapLogin::new("alice", "secret", ImapLoginOptions::default()).unwrap();

    let value = answer(new(), "{tag} OK done\r\n").unwrap();
    assert!(value.is_empty());
    let refused = |reply| answer(new(), reply).err().expect("a refusal");
    assert!(matches!(refused("{tag} NO no\r\n"), ImapLoginError::No(text) if text == "no"));
    assert!(matches!(refused("{tag} BAD bad\r\n"), ImapLoginError::Bad(text) if text == "bad"));
    assert!(matches!(refused("* BYE bye\r\n"), ImapLoginError::Bye(text) if text == "bye"));
    // A BYE takes precedence over the completion.
    assert!(matches!(refused("* BYE bye\r\n{tag} OK done\r\n"), ImapLoginError::Bye(_)));
    assert!(matches!(refused("+ go on\r\n"), ImapLoginError::MissingTagged));
    assert!(matches!(refused(""), ImapLoginError::Send(ImapSendError::Eof)));
}
