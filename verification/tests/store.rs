use std::str;

use imap_codec::fragmentizer::Fragmentizer;
use imap_codec::imap_types::flag::{Flag, StoreType};
use io_imap::coroutine::{ImapCoroutine, ImapCoroutineState, ImapYield};
use io_imap::rfc3501::store::{
    ImapMessageStore, ImapMessageStoreError, ImapMessageStoreOptions, ImapMessageStoreSilent,
    MessageItems,
};

fn flags() -> Vec<Flag<'static>> {
    vec![Flag::Seen]
}

#[test]
fn echo_success_returns_map() {
    let mut store = ImapMessageStore::new(
        "1".try_into().expect("valid sequence set"),
        StoreType::Add,
        flags(),
        ImapMessageStoreOptions::default(),
    );
    let mut frag = Fragmentizer::new(50 * 1024 * 1024);

    let bytes = expect_wants_write_echo(&mut store, &mut frag, None);
    let tag = first_word(str::from_utf8(&bytes).expect("utf8 command")).to_owned();

    expect_wants_read_echo(&mut store, &mut frag);

    let reply = format!("* 1 FETCH (FLAGS (\\Seen))\r\n{tag} OK STORE completed\r\n");
    let map = expect_complete_ok_echo(&mut store, &mut frag, reply.as_bytes());
    assert_eq!(1, map.len());
}

#[test]
fn echo_uid_variant_sends_uid_store() {
    let mut store = ImapMessageStore::new(
        "42".try_into().expect("valid sequence set"),
        StoreType::Add,
        flags(),
        ImapMessageStoreOptions { uid: true },
    );
    let mut frag = Fragmentizer::new(50 * 1024 * 1024);

    let bytes = expect_wants_write_echo(&mut store, &mut frag, None);
    let line = str::from_utf8(&bytes).expect("utf8 command");
    assert!(line.contains("UID STORE 42 "));
}

#[test]
fn silent_success_returns_ok() {
    let mut store = ImapMessageStoreSilent::new(
        "1".try_into().expect("valid sequence set"),
        StoreType::Add,
        flags(),
        ImapMessageStoreOptions::default(),
    );
    let mut frag = Fragmentizer::new(50 * 1024 * 1024);

    let bytes = expect_wants_write_silent(&mut store, &mut frag, None);
    let line = str::from_utf8(&bytes).expect("utf8 command");
    let tag = first_word(line).to_owned();
    assert!(line.contains("STORE 1 +FLAGS.SILENT "));

    expect_wants_read_silent(&mut store, &mut frag);

    let reply = format!("{tag} OK STORE completed\r\n");
    expect_complete_ok_silent(&mut store, &mut frag, reply.as_bytes());
}

#[test]
fn echo_tagged_no_returns_no_error() {
    let mut store = ImapMessageStore::new(
        "1".try_into().expect("valid sequence set"),
        StoreType::Add,
        flags(),
        ImapMessageStoreOptions::default(),
    );
    let mut frag = Fragmentizer::new(50 * 1024 * 1024);

    let bytes = expect_wants_write_echo(&mut store, &mut frag, None);
    let tag = first_word(str::from_utf8(&bytes).expect("utf8 command")).to_owned();

    expect_wants_read_echo(&mut store, &mut frag);

    let reply = format!("{tag} NO mailbox is read-only\r\n");
    let err = expect_complete_err_echo(&mut store, &mut frag, reply.as_bytes());
    let ImapMessageStoreError::No(text) = err else {
        panic!("expected ImapMessageStoreError::No, got {err:?}");
    };
    assert_eq!(text, "mailbox is read-only");
}

fn expect_wants_write_echo(
    cor: &mut ImapMessageStore,
    frag: &mut Fragmentizer,
    arg: Option<&[u8]>,
) -> Vec<u8> {
    match cor.resume(frag, arg) {
        ImapCoroutineState::Yielded(ImapYield::WantsWrite(bytes)) => bytes,
        state => panic!("expected WantsWrite, got {state:?}"),
    }
}

fn expect_wants_read_echo(cor: &mut ImapMessageStore, frag: &mut Fragmentizer) {
    match cor.resume(frag, None) {
        ImapCoroutineState::Yielded(ImapYield::WantsRead) => {}
        state => panic!("expected WantsRead, got {state:?}"),
    }
}

fn expect_complete_ok_echo(
    cor: &mut ImapMessageStore,
    frag: &mut Fragmentizer,
    reply: &[u8],
) -> MessageItems {
    match cor.resume(frag, Some(reply)) {
        ImapCoroutineState::Complete(Ok(value)) => value,
        state => panic!("expected Complete(Ok), got {state:?}"),
    }
}

fn expect_complete_err_echo(
    cor: &mut ImapMessageStore,
    frag: &mut Fragmentizer,
    reply: &[u8],
) -> ImapMessageStoreError {
    match cor.resume(frag, Some(reply)) {
        ImapCoroutineState::Complete(Err(err)) => err,
        state => panic!("expected Complete(Err), got {state:?}"),
    }
}

fn expect_wants_write_silent(
    cor: &mut ImapMessageStoreSilent,
    frag: &mut Fragmentizer,
    arg: Option<&[u8]>,
) -> Vec<u8> {
    match cor.resume(frag, arg) {
        ImapCoroutineState::Yielded(ImapYield::WantsWrite(bytes)) => bytes,
        state => panic!("expected WantsWrite, got {state:?}"),
    }
}

fn expect_wants_read_silent(cor: &mut ImapMessageStoreSilent, frag: &mut Fragmentizer) {
    match cor.resume(frag, None) {
        ImapCoroutineState::Yielded(ImapYield::WantsRead) => {}
        state => panic!("expected WantsRead, got {state:?}"),
    }
}

fn expect_complete_ok_silent(
    cor: &mut ImapMessageStoreSilent,
    frag: &mut Fragmentizer,
    reply: &[u8],
) {
    match cor.resume(frag, Some(reply)) {
        ImapCoroutineState::Complete(Ok(())) => {}
        state => panic!("expected Complete(Ok), got {state:?}"),
    }
}

fn first_word(line: &str) -> &str {
    line.split_whitespace()
        .next()
        .expect("first whitespace-separated token")
}
