use std::str;

use imap_codec::fragmentizer::Fragmentizer;
use io_imap::coroutine::{ImapCoroutine, ImapCoroutineState, ImapYield};
use io_imap::rfc3501::unsubscribe::{ImapMailboxUnsubscribe, ImapMailboxUnsubscribeError};

/// Happy path: tagged OK closes the command.
#[test]
fn unsubscribe_success_returns_ok() {
    let mut unsub = ImapMailboxUnsubscribe::new("Archive".try_into().expect("valid mailbox"));
    let mut frag = Fragmentizer::new(50 * 1024 * 1024);

    let bytes = expect_wants_write(&mut unsub, &mut frag, None);
    let line = str::from_utf8(&bytes).expect("utf8 command");
    let tag = first_word(line).to_owned();
    assert!(line.contains("UNSUBSCRIBE Archive"));

    expect_wants_read(&mut unsub, &mut frag);

    let reply = format!("{tag} OK UNSUBSCRIBE completed\r\n");
    expect_complete_ok(&mut unsub, &mut frag, reply.as_bytes());
}

/// Tagged NO: surface text verbatim.
#[test]
fn unsubscribe_tagged_no_returns_no_error() {
    let mut unsub = ImapMailboxUnsubscribe::new("Archive".try_into().expect("valid mailbox"));
    let mut frag = Fragmentizer::new(50 * 1024 * 1024);

    let bytes = expect_wants_write(&mut unsub, &mut frag, None);
    let tag = first_word(str::from_utf8(&bytes).expect("utf8 command")).to_owned();

    expect_wants_read(&mut unsub, &mut frag);

    let reply = format!("{tag} NO not subscribed\r\n");
    let err = expect_complete_err(&mut unsub, &mut frag, reply.as_bytes());
    let ImapMailboxUnsubscribeError::No(text) = err else {
        panic!("expected ImapMailboxUnsubscribeError::No, got {err:?}");
    };
    assert_eq!(text, "not subscribed");
}

/// BYE before tagged response: surface text verbatim.
#[test]
fn unsubscribe_bye_returns_bye_error() {
    let mut unsub = ImapMailboxUnsubscribe::new("Archive".try_into().expect("valid mailbox"));
    let mut frag = Fragmentizer::new(50 * 1024 * 1024);

    let _ = expect_wants_write(&mut unsub, &mut frag, None);
    expect_wants_read(&mut unsub, &mut frag);

    let err = expect_complete_err(&mut unsub, &mut frag, b"* BYE going down\r\n");
    let ImapMailboxUnsubscribeError::Bye(text) = err else {
        panic!("expected ImapMailboxUnsubscribeError::Bye, got {err:?}");
    };
    assert_eq!(text, "going down");
}

// --- utils

fn expect_wants_write(
    cor: &mut ImapMailboxUnsubscribe,
    frag: &mut Fragmentizer,
    arg: Option<&[u8]>,
) -> Vec<u8> {
    match cor.resume(frag, arg) {
        ImapCoroutineState::Yielded(ImapYield::WantsWrite(bytes)) => bytes,
        state => panic!("expected WantsWrite, got {state:?}"),
    }
}

fn expect_wants_read(cor: &mut ImapMailboxUnsubscribe, frag: &mut Fragmentizer) {
    match cor.resume(frag, None) {
        ImapCoroutineState::Yielded(ImapYield::WantsRead) => {}
        state => panic!("expected WantsRead, got {state:?}"),
    }
}

fn expect_complete_ok(cor: &mut ImapMailboxUnsubscribe, frag: &mut Fragmentizer, reply: &[u8]) {
    match cor.resume(frag, Some(reply)) {
        ImapCoroutineState::Complete(Ok(())) => {}
        state => panic!("expected Complete(Ok), got {state:?}"),
    }
}

fn expect_complete_err(
    cor: &mut ImapMailboxUnsubscribe,
    frag: &mut Fragmentizer,
    reply: &[u8],
) -> ImapMailboxUnsubscribeError {
    match cor.resume(frag, Some(reply)) {
        ImapCoroutineState::Complete(Err(err)) => err,
        state => panic!("expected Complete(Err), got {state:?}"),
    }
}

fn first_word(line: &str) -> &str {
    line.split_whitespace()
        .next()
        .expect("first whitespace-separated token")
}
