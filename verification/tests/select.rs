use std::str;

use imap_codec::fragmentizer::Fragmentizer;
use io_imap::coroutine::{ImapCoroutine, ImapCoroutineState, ImapYield};
use io_imap::rfc3501::select::{
    ImapMailboxSelect, ImapMailboxSelectError, ImapMailboxSelectOptions, SelectData,
};

/// Happy path: server returns FLAGS / EXISTS / RECENT plus
/// UIDVALIDITY; the coroutine surfaces all of them.
#[test]
fn select_success_collects_response() {
    let mut select = ImapMailboxSelect::new(
        "INBOX".try_into().expect("valid mailbox"),
        ImapMailboxSelectOptions::default(),
    );
    let mut frag = Fragmentizer::new(50 * 1024 * 1024);

    let bytes = expect_wants_write(&mut select, &mut frag, None);
    let line = str::from_utf8(&bytes).expect("utf8 command");
    let tag = first_word(line).to_owned();
    assert!(line.contains("SELECT INBOX"));

    expect_wants_read(&mut select, &mut frag);

    let reply = format!(
        "* FLAGS (\\Seen)\r\n\
         * 42 EXISTS\r\n\
         * 7 RECENT\r\n\
         * OK [UIDVALIDITY 1700] uid validity\r\n\
         {tag} OK [READ-WRITE] SELECT completed\r\n",
    );
    let data = expect_complete_ok(&mut select, &mut frag, reply.as_bytes());
    assert_eq!(Some(42), data.exists);
    assert_eq!(Some(7), data.recent);
    assert_eq!(1700, data.uid_validity.expect("uid validity"));
}

/// Tagged NO: surface text verbatim.
#[test]
fn select_tagged_no_returns_no_error() {
    let mut select = ImapMailboxSelect::new(
        "INBOX".try_into().expect("valid mailbox"),
        ImapMailboxSelectOptions::default(),
    );
    let mut frag = Fragmentizer::new(50 * 1024 * 1024);

    let bytes = expect_wants_write(&mut select, &mut frag, None);
    let tag = first_word(str::from_utf8(&bytes).expect("utf8 command")).to_owned();

    expect_wants_read(&mut select, &mut frag);

    let reply = format!("{tag} NO mailbox does not exist\r\n");
    let err = expect_complete_err(&mut select, &mut frag, reply.as_bytes());
    let ImapMailboxSelectError::No(text) = err else {
        panic!("expected ImapMailboxSelectError::No, got {err:?}");
    };
    assert_eq!(text, "mailbox does not exist");
}

/// BYE before tagged response: surface text verbatim.
#[test]
fn select_bye_returns_bye_error() {
    let mut select = ImapMailboxSelect::new(
        "INBOX".try_into().expect("valid mailbox"),
        ImapMailboxSelectOptions::default(),
    );
    let mut frag = Fragmentizer::new(50 * 1024 * 1024);

    let _ = expect_wants_write(&mut select, &mut frag, None);
    expect_wants_read(&mut select, &mut frag);

    let err = expect_complete_err(&mut select, &mut frag, b"* BYE going down\r\n");
    let ImapMailboxSelectError::Bye(text) = err else {
        panic!("expected ImapMailboxSelectError::Bye, got {err:?}");
    };
    assert_eq!(text, "going down");
}

// --- utils

fn expect_wants_write(
    cor: &mut ImapMailboxSelect,
    frag: &mut Fragmentizer,
    arg: Option<&[u8]>,
) -> Vec<u8> {
    match cor.resume(frag, arg) {
        ImapCoroutineState::Yielded(ImapYield::WantsWrite(bytes)) => bytes,
        state => panic!("expected WantsWrite, got {state:?}"),
    }
}

fn expect_wants_read(cor: &mut ImapMailboxSelect, frag: &mut Fragmentizer) {
    match cor.resume(frag, None) {
        ImapCoroutineState::Yielded(ImapYield::WantsRead) => {}
        state => panic!("expected WantsRead, got {state:?}"),
    }
}

fn expect_complete_ok(
    cor: &mut ImapMailboxSelect,
    frag: &mut Fragmentizer,
    reply: &[u8],
) -> SelectData {
    match cor.resume(frag, Some(reply)) {
        ImapCoroutineState::Complete(Ok(value)) => value,
        state => panic!("expected Complete(Ok), got {state:?}"),
    }
}

fn expect_complete_err(
    cor: &mut ImapMailboxSelect,
    frag: &mut Fragmentizer,
    reply: &[u8],
) -> ImapMailboxSelectError {
    match cor.resume(frag, Some(reply)) {
        ImapCoroutineState::Complete(Err(err)) => err,
        state => panic!("expected Complete(Err), got {state:?}"),
    }
}

fn first_word(line: &str) -> &str {
    line.split_whitespace()
        .next()
        .expect("first whitespace-separated token")
}
