use std::str;

use imap_codec::fragmentizer::Fragmentizer;
use imap_codec::imap_types::mailbox::{ListMailbox, Mailbox};
use io_imap::coroutine::{ImapCoroutine, ImapCoroutineState, ImapYield};
use io_imap::rfc3501::list::{ImapMailboxList, ImapMailboxListError, ImapMailboxListing};

#[test]
fn list_success_returns_rows() {
    let reference: Mailbox = "".try_into().expect("valid reference");
    let pattern: ListMailbox = "*".try_into().expect("valid pattern");
    let mut list = ImapMailboxList::new(reference, pattern);
    let mut frag = Fragmentizer::new(50 * 1024 * 1024);

    let bytes = expect_wants_write(&mut list, &mut frag, None);
    let tag = first_word(str::from_utf8(&bytes).expect("utf8 command")).to_owned();

    expect_wants_read(&mut list, &mut frag);

    let reply = format!(
        "* LIST (\\HasNoChildren) \"/\" INBOX\r\n\
         * LIST (\\HasNoChildren) \"/\" Archive\r\n\
         {tag} OK LIST completed\r\n",
    );
    let rows = expect_complete_ok(&mut list, &mut frag, reply.as_bytes());
    assert_eq!(2, rows.len());
}

#[test]
fn list_tagged_no_returns_no_error() {
    let mut list = ImapMailboxList::new(
        "".try_into().expect("valid reference"),
        "*".try_into().expect("valid pattern"),
    );
    let mut frag = Fragmentizer::new(50 * 1024 * 1024);

    let bytes = expect_wants_write(&mut list, &mut frag, None);
    let tag = first_word(str::from_utf8(&bytes).expect("utf8 command")).to_owned();

    expect_wants_read(&mut list, &mut frag);

    let reply = format!("{tag} NO not allowed\r\n");
    let err = expect_complete_err(&mut list, &mut frag, reply.as_bytes());
    let ImapMailboxListError::No(text) = err else {
        panic!("expected ImapMailboxListError::No, got {err:?}");
    };
    assert_eq!(text, "not allowed");
}

#[test]
fn list_bye_returns_bye_error() {
    let mut list = ImapMailboxList::new(
        "".try_into().expect("valid reference"),
        "*".try_into().expect("valid pattern"),
    );
    let mut frag = Fragmentizer::new(50 * 1024 * 1024);

    let _ = expect_wants_write(&mut list, &mut frag, None);
    expect_wants_read(&mut list, &mut frag);

    let err = expect_complete_err(&mut list, &mut frag, b"* BYE going down\r\n");
    let ImapMailboxListError::Bye(text) = err else {
        panic!("expected ImapMailboxListError::Bye, got {err:?}");
    };
    assert_eq!(text, "going down");
}

// --- utils

fn expect_wants_write(
    cor: &mut ImapMailboxList,
    frag: &mut Fragmentizer,
    arg: Option<&[u8]>,
) -> Vec<u8> {
    match cor.resume(frag, arg) {
        ImapCoroutineState::Yielded(ImapYield::WantsWrite(bytes)) => bytes,
        state => panic!("expected WantsWrite, got {state:?}"),
    }
}

fn expect_wants_read(cor: &mut ImapMailboxList, frag: &mut Fragmentizer) {
    match cor.resume(frag, None) {
        ImapCoroutineState::Yielded(ImapYield::WantsRead) => {}
        state => panic!("expected WantsRead, got {state:?}"),
    }
}

fn expect_complete_ok(
    cor: &mut ImapMailboxList,
    frag: &mut Fragmentizer,
    reply: &[u8],
) -> ImapMailboxListing {
    match cor.resume(frag, Some(reply)) {
        ImapCoroutineState::Complete(Ok(value)) => value,
        state => panic!("expected Complete(Ok), got {state:?}"),
    }
}

fn expect_complete_err(
    cor: &mut ImapMailboxList,
    frag: &mut Fragmentizer,
    reply: &[u8],
) -> ImapMailboxListError {
    match cor.resume(frag, Some(reply)) {
        ImapCoroutineState::Complete(Err(err)) => err,
        state => panic!("expected Complete(Err), got {state:?}"),
    }
}

fn first_word(line: &str) -> &str {
    line.split_whitespace()
        .next()
        .expect("first whitespace-separated token")
}
