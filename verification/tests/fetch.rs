use std::str;

use imap_codec::fragmentizer::Fragmentizer;
use imap_codec::imap_types::fetch::{MacroOrMessageDataItemNames, MessageDataItem};
use io_imap::coroutine::{ImapCoroutine, ImapCoroutineState, ImapYield};
use io_imap::rfc3501::store::MessageItems;
use io_imap::rfc3501::fetch::{
    ImapMessageFetch, ImapMessageFetchError, ImapMessageFetchFirst, ImapMessageFetchOptions,
};

#[test]
fn fetch_success_groups_by_seq() {
    let mut fetch = ImapMessageFetch::new(
        "1:3".try_into().expect("valid sequence set"),
        MacroOrMessageDataItemNames::Macro(imap_codec::imap_types::fetch::Macro::All),
        ImapMessageFetchOptions::default(),
    );
    let mut frag = Fragmentizer::new(50 * 1024 * 1024);

    let bytes = expect_wants_write_fetch(&mut fetch, &mut frag, None);
    let line = str::from_utf8(&bytes).expect("utf8 command");
    let tag = first_word(line).to_owned();
    assert!(line.contains("FETCH 1:3 "));

    expect_wants_read_fetch(&mut fetch, &mut frag);

    let reply =
        format!("* 1 FETCH (UID 100)\r\n* 2 FETCH (UID 101)\r\n{tag} OK FETCH completed\r\n",);
    let out = expect_complete_ok_fetch(&mut fetch, &mut frag, reply.as_bytes());
    assert_eq!(2, out.len());
}

#[test]
fn uid_variant_sends_uid_fetch() {
    let mut fetch = ImapMessageFetch::new(
        "42".try_into().expect("valid sequence set"),
        MacroOrMessageDataItemNames::Macro(imap_codec::imap_types::fetch::Macro::All),
        ImapMessageFetchOptions {
            uid: true,
            ..Default::default()
        },
    );
    let mut frag = Fragmentizer::new(50 * 1024 * 1024);

    let bytes = expect_wants_write_fetch(&mut fetch, &mut frag, None);
    let line = str::from_utf8(&bytes).expect("utf8 command");
    assert!(line.contains("UID FETCH 42 "));
}

#[test]
fn fetch_tagged_no_returns_no_error() {
    let mut fetch = ImapMessageFetch::new(
        "1".try_into().expect("valid sequence set"),
        MacroOrMessageDataItemNames::Macro(imap_codec::imap_types::fetch::Macro::All),
        ImapMessageFetchOptions::default(),
    );
    let mut frag = Fragmentizer::new(50 * 1024 * 1024);

    let bytes = expect_wants_write_fetch(&mut fetch, &mut frag, None);
    let tag = first_word(str::from_utf8(&bytes).expect("utf8 command")).to_owned();

    expect_wants_read_fetch(&mut fetch, &mut frag);

    let reply = format!("{tag} NO no mailbox selected\r\n");
    let err = expect_complete_err_fetch(&mut fetch, &mut frag, reply.as_bytes());
    let ImapMessageFetchError::No(text) = err else {
        panic!("expected ImapMessageFetchError::No, got {err:?}");
    };
    assert_eq!(text, "no mailbox selected");
}

#[test]
fn fetch_bye_returns_bye_error() {
    let mut fetch = ImapMessageFetch::new(
        "1".try_into().expect("valid sequence set"),
        MacroOrMessageDataItemNames::Macro(imap_codec::imap_types::fetch::Macro::All),
        ImapMessageFetchOptions::default(),
    );
    let mut frag = Fragmentizer::new(50 * 1024 * 1024);

    let _ = expect_wants_write_fetch(&mut fetch, &mut frag, None);
    expect_wants_read_fetch(&mut fetch, &mut frag);

    let err = expect_complete_err_fetch(&mut fetch, &mut frag, b"* BYE going down\r\n");
    let ImapMessageFetchError::Bye(text) = err else {
        panic!("expected ImapMessageFetchError::Bye, got {err:?}");
    };
    assert_eq!(text, "going down");
}

#[test]
fn first_success_returns_items() {
    let id = 42;
    let mut fetch = ImapMessageFetchFirst::new(
        id,
        MacroOrMessageDataItemNames::Macro(imap_codec::imap_types::fetch::Macro::All),
        ImapMessageFetchOptions::default(),
    );
    let mut frag = Fragmentizer::new(50 * 1024 * 1024);

    let bytes = expect_wants_write_first(&mut fetch, &mut frag, None);
    let tag = first_word(str::from_utf8(&bytes).expect("utf8 command")).to_owned();

    expect_wants_read_first(&mut fetch, &mut frag);

    let reply = format!("* 42 FETCH (UID 100)\r\n{tag} OK FETCH completed\r\n");
    let items = expect_complete_ok_first(&mut fetch, &mut frag, reply.as_bytes());
    assert_eq!(1, items.len());
}

#[test]
fn first_missing_data_returns_missing_data_error() {
    let id = 42;
    let mut fetch = ImapMessageFetchFirst::new(
        id,
        MacroOrMessageDataItemNames::Macro(imap_codec::imap_types::fetch::Macro::All),
        ImapMessageFetchOptions::default(),
    );
    let mut frag = Fragmentizer::new(50 * 1024 * 1024);

    let bytes = expect_wants_write_first(&mut fetch, &mut frag, None);
    let tag = first_word(str::from_utf8(&bytes).expect("utf8 command")).to_owned();

    expect_wants_read_first(&mut fetch, &mut frag);

    let reply = format!("{tag} OK FETCH completed\r\n");
    let err = expect_complete_err_first(&mut fetch, &mut frag, reply.as_bytes());
    assert!(matches!(err, ImapMessageFetchError::MissingData));
}

fn expect_wants_write_fetch(
    cor: &mut ImapMessageFetch,
    frag: &mut Fragmentizer,
    arg: Option<&[u8]>,
) -> Vec<u8> {
    match cor.resume(frag, arg) {
        ImapCoroutineState::Yielded(ImapYield::WantsWrite(bytes)) => bytes,
        state => panic!("expected WantsWrite, got {state:?}"),
    }
}

fn expect_wants_read_fetch(cor: &mut ImapMessageFetch, frag: &mut Fragmentizer) {
    match cor.resume(frag, None) {
        ImapCoroutineState::Yielded(ImapYield::WantsRead) => {}
        state => panic!("expected WantsRead, got {state:?}"),
    }
}

fn expect_complete_ok_fetch(
    cor: &mut ImapMessageFetch,
    frag: &mut Fragmentizer,
    reply: &[u8],
) -> MessageItems {
    match cor.resume(frag, Some(reply)) {
        ImapCoroutineState::Complete(Ok(value)) => value,
        state => panic!("expected Complete(Ok), got {state:?}"),
    }
}

fn expect_complete_err_fetch(
    cor: &mut ImapMessageFetch,
    frag: &mut Fragmentizer,
    reply: &[u8],
) -> ImapMessageFetchError {
    match cor.resume(frag, Some(reply)) {
        ImapCoroutineState::Complete(Err(err)) => err,
        state => panic!("expected Complete(Err), got {state:?}"),
    }
}

fn expect_wants_write_first(
    cor: &mut ImapMessageFetchFirst,
    frag: &mut Fragmentizer,
    arg: Option<&[u8]>,
) -> Vec<u8> {
    match cor.resume(frag, arg) {
        ImapCoroutineState::Yielded(ImapYield::WantsWrite(bytes)) => bytes,
        state => panic!("expected WantsWrite, got {state:?}"),
    }
}

fn expect_wants_read_first(cor: &mut ImapMessageFetchFirst, frag: &mut Fragmentizer) {
    match cor.resume(frag, None) {
        ImapCoroutineState::Yielded(ImapYield::WantsRead) => {}
        state => panic!("expected WantsRead, got {state:?}"),
    }
}

fn expect_complete_ok_first(
    cor: &mut ImapMessageFetchFirst,
    frag: &mut Fragmentizer,
    reply: &[u8],
) -> Vec<MessageDataItem<'static>> {
    match cor.resume(frag, Some(reply)) {
        ImapCoroutineState::Complete(Ok(value)) => value,
        state => panic!("expected Complete(Ok), got {state:?}"),
    }
}

fn expect_complete_err_first(
    cor: &mut ImapMessageFetchFirst,
    frag: &mut Fragmentizer,
    reply: &[u8],
) -> ImapMessageFetchError {
    match cor.resume(frag, Some(reply)) {
        ImapCoroutineState::Complete(Err(err)) => err,
        state => panic!("expected Complete(Err), got {state:?}"),
    }
}

fn first_word(line: &str) -> &str {
    line.split_whitespace()
        .next()
        .expect("first whitespace-separated token")
}
