use std::str;

use imap_codec::fragmentizer::Fragmentizer;
use io_imap::coroutine::{ImapCoroutine, ImapCoroutineState, ImapYield};
use io_imap::rfc3691::unselect::{ImapMailboxUnselect, ImapMailboxUnselectError};

/// Happy path: tagged OK closes the command.
#[test]
fn unselect_success_returns_ok() {
    let mut unselect = ImapMailboxUnselect::new();
    let mut frag = Fragmentizer::new(50 * 1024 * 1024);

    let bytes = expect_wants_write(&mut unselect, &mut frag, None);
    let line = str::from_utf8(&bytes).expect("utf8 command");
    let tag = first_word(line).to_owned();
    assert!(line.trim_end().ends_with("UNSELECT"));

    expect_wants_read(&mut unselect, &mut frag);

    let reply = format!("{tag} OK UNSELECT completed\r\n");
    expect_complete_ok(&mut unselect, &mut frag, reply.as_bytes());
}

/// Tagged NO: surface text verbatim.
#[test]
fn unselect_tagged_no_returns_no_error() {
    let mut unselect = ImapMailboxUnselect::new();
    let mut frag = Fragmentizer::new(50 * 1024 * 1024);

    let bytes = expect_wants_write(&mut unselect, &mut frag, None);
    let tag = first_word(str::from_utf8(&bytes).expect("utf8 command")).to_owned();

    expect_wants_read(&mut unselect, &mut frag);

    let reply = format!("{tag} NO no mailbox selected\r\n");
    let err = expect_complete_err(&mut unselect, &mut frag, reply.as_bytes());
    let ImapMailboxUnselectError::No(text) = err else {
        panic!("expected ImapMailboxUnselectError::No, got {err:?}");
    };
    assert_eq!(text, "no mailbox selected");
}

/// Tagged BAD: surface text verbatim.
#[test]
fn unselect_tagged_bad_returns_bad_error() {
    let mut unselect = ImapMailboxUnselect::new();
    let mut frag = Fragmentizer::new(50 * 1024 * 1024);

    let bytes = expect_wants_write(&mut unselect, &mut frag, None);
    let tag = first_word(str::from_utf8(&bytes).expect("utf8 command")).to_owned();

    expect_wants_read(&mut unselect, &mut frag);

    let reply = format!("{tag} BAD UNSELECT not supported\r\n");
    let err = expect_complete_err(&mut unselect, &mut frag, reply.as_bytes());
    let ImapMailboxUnselectError::Bad(text) = err else {
        panic!("expected ImapMailboxUnselectError::Bad, got {err:?}");
    };
    assert_eq!(text, "UNSELECT not supported");
}

/// BYE before tagged response: surface text verbatim.
#[test]
fn unselect_bye_returns_bye_error() {
    let mut unselect = ImapMailboxUnselect::new();
    let mut frag = Fragmentizer::new(50 * 1024 * 1024);

    let _ = expect_wants_write(&mut unselect, &mut frag, None);
    expect_wants_read(&mut unselect, &mut frag);

    let err = expect_complete_err(&mut unselect, &mut frag, b"* BYE going down\r\n");
    let ImapMailboxUnselectError::Bye(text) = err else {
        panic!("expected ImapMailboxUnselectError::Bye, got {err:?}");
    };
    assert_eq!(text, "going down");
}

// --- utils

fn expect_wants_write(
    cor: &mut ImapMailboxUnselect,
    frag: &mut Fragmentizer,
    arg: Option<&[u8]>,
) -> Vec<u8> {
    match cor.resume(frag, arg) {
        ImapCoroutineState::Yielded(ImapYield::WantsWrite(bytes)) => bytes,
        state => panic!("expected WantsWrite, got {state:?}"),
    }
}

fn expect_wants_read(cor: &mut ImapMailboxUnselect, frag: &mut Fragmentizer) {
    match cor.resume(frag, None) {
        ImapCoroutineState::Yielded(ImapYield::WantsRead) => {}
        state => panic!("expected WantsRead, got {state:?}"),
    }
}

fn expect_complete_ok(cor: &mut ImapMailboxUnselect, frag: &mut Fragmentizer, reply: &[u8]) {
    match cor.resume(frag, Some(reply)) {
        ImapCoroutineState::Complete(Ok(())) => {}
        state => panic!("expected Complete(Ok), got {state:?}"),
    }
}

fn expect_complete_err(
    cor: &mut ImapMailboxUnselect,
    frag: &mut Fragmentizer,
    reply: &[u8],
) -> ImapMailboxUnselectError {
    match cor.resume(frag, Some(reply)) {
        ImapCoroutineState::Complete(Err(err)) => err,
        state => panic!("expected Complete(Err), got {state:?}"),
    }
}

fn first_word(line: &str) -> &str {
    line.split_whitespace()
        .next()
        .expect("first whitespace-separated token")
}
