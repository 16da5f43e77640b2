use std::str;

use imap_codec::fragmentizer::Fragmentizer;
use io_imap::coroutine::{ImapCoroutine, ImapCoroutineState, ImapYield};
use io_imap::rfc3501::delete::{ImapMailboxDelete, ImapMailboxDeleteError};

#[test]
fn delete_success_returns_ok() {
    let mut delete = ImapMailboxDelete::new("Archive".try_into().expect("valid mailbox"));
    let mut frag = Fragmentizer::new(50 * 1024 * 1024);

    let bytes = expect_wants_write(&mut delete, &mut frag, None);
    let line = str::from_utf8(&bytes).expect("utf8 command");
    let tag = first_word(line).to_owned();
    assert!(line.contains("DELETE Archive"));

    expect_wants_read(&mut delete, &mut frag);

    let reply = format!("{tag} OK DELETE completed\r\n");
    expect_complete_ok(&mut delete, &mut frag, reply.as_bytes());
}

#[test]
fn delete_tagged_no_returns_no_error() {
    let mut delete = ImapMailboxDelete::new("Archive".try_into().expect("valid mailbox"));
    let mut frag = Fragmentizer::new(50 * 1024 * 1024);

    let bytes = expect_wants_write(&mut delete, &mut frag, None);
    let tag = first_word(str::from_utf8(&bytes).expect("utf8 command")).to_owned();

    expect_wants_read(&mut delete, &mut frag);

    let reply = format!("{tag} NO mailbox does not exist\r\n");
    let err = expect_complete_err(&mut delete, &mut frag, reply.as_bytes());
    let ImapMailboxDeleteError::No(text) = err else {
        panic!("expected ImapMailboxDeleteError::No, got {err:?}");
    };
    assert_eq!(text, "mailbox does not exist");
}

#[test]
fn delete_tagged_bad_returns_bad_error() {
    let mut delete = ImapMailboxDelete::new("Archive".try_into().expect("valid mailbox"));
    let mut frag = Fragmentizer::new(50 * 1024 * 1024);

    let bytes = expect_wants_write(&mut delete, &mut frag, None);
    let tag = first_word(str::from_utf8(&bytes).expect("utf8 command")).to_owned();

    expect_wants_read(&mut delete, &mut frag);

    let reply = format!("{tag} BAD DELETE syntax error\r\n");
    let err = expect_complete_err(&mut delete, &mut frag, reply.as_bytes());
    let ImapMailboxDeleteError::Bad(text) = err else {
        panic!("expected ImapMailboxDeleteError::Bad, got {err:?}");
    };
    assert_eq!(text, "DELETE syntax error");
}

#[test]
fn delete_bye_returns_bye_error() {
    let mut delete = ImapMailboxDelete::new("Archive".try_into().expect("valid mailbox"));
    let mut frag = Fragmentizer::new(50 * 1024 * 1024);

    let _ = expect_wants_write(&mut delete, &mut frag, None);
    expect_wants_read(&mut delete, &mut frag);

    let err = expect_complete_err(&mut delete, &mut frag, b"* BYE going down\r\n");
    let ImapMailboxDeleteError::Bye(text) = err else {
        panic!("expected ImapMailboxDeleteError::Bye, got {err:?}");
    };
    assert_eq!(text, "going down");
}

// --- utils

fn expect_wants_write(
    cor: &mut ImapMailboxDelete,
    frag: &mut Fragmentizer,
    arg: Option<&[u8]>,
) -> Vec<u8> {
    match cor.resume(frag, arg) {
        ImapCoroutineState::Yielded(ImapYield::WantsWrite(bytes)) => bytes,
        state => panic!("expected WantsWrite, got {state:?}"),
    }
}

fn expect_wants_read(cor: &mut ImapMailboxDelete, frag: &mut Fragmentizer) {
    match cor.resume(frag, None) {
        ImapCoroutineState::Yielded(ImapYield::WantsRead) => {}
        state => panic!("expected WantsRead, got {state:?}"),
    }
}

fn expect_complete_ok(cor: &mut ImapMailboxDelete, frag: &mut Fragmentizer, reply: &[u8]) {
    match cor.resume(frag, Some(reply)) {
        ImapCoroutineState::Complete(Ok(())) => {}
        state => panic!("expected Complete(Ok), got {state:?}"),
    }
}

fn expect_complete_err(
    cor: &mut ImapMailboxDelete,
    frag: &mut Fragmentizer,
    reply: &[u8],
) -> ImapMailboxDeleteError {
    match cor.resume(frag, Some(reply)) {
        ImapCoroutineState::Complete(Err(err)) => err,
        state => panic!("expected Complete(Err), got {state:?}"),
    }
}

fn first_word(line: &str) -> &str {
    line.split_whitespace()
        .next()
        .expect("first whitespace-separated token")
}
