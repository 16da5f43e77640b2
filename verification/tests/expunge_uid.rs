use std::str;

use imap_codec::fragmentizer::Fragmentizer;
use imap_codec::imap_types::sequence::SequenceSet;
use io_imap::coroutine::{ImapCoroutine, ImapCoroutineState, ImapYield};
use io_imap::rfc4315::expunge_uid::{ImapMessageExpungeUid, ImapMessageExpungeUidError};

fn sequence_set() -> SequenceSet {
    "1:3".try_into().expect("valid sequence set")
}

#[test]
fn sends_uid_expunge_and_collects_expunged_seqs() {
    let mut expunge = ImapMessageExpungeUid::new(sequence_set());
    let mut frag = Fragmentizer::new(50 * 1024 * 1024);

    let bytes = expect_wants_write(&mut expunge, &mut frag, None);
    let line = str::from_utf8(&bytes).expect("utf8 command");
    let tag = first_word(line).to_owned();
    assert!(line.trim_end().ends_with("UID EXPUNGE 1:3"));

    expect_wants_read(&mut expunge, &mut frag);

    let reply = format!("* 3 EXPUNGE\r\n* 3 EXPUNGE\r\n{tag} OK UID EXPUNGE completed\r\n");
    let seqs = expect_complete_ok(&mut expunge, &mut frag, reply.as_bytes());
    assert_eq!(2, seqs.len());
    assert_eq!(3, seqs[0]);
    assert_eq!(3, seqs[1]);
}

#[test]
fn empty_returns_empty_vec() {
    let mut expunge = ImapMessageExpungeUid::new(sequence_set());
    let mut frag = Fragmentizer::new(50 * 1024 * 1024);

    let bytes = expect_wants_write(&mut expunge, &mut frag, None);
    let tag = first_word(str::from_utf8(&bytes).expect("utf8 command")).to_owned();

    expect_wants_read(&mut expunge, &mut frag);

    let reply = format!("{tag} OK UID EXPUNGE completed\r\n");
    let seqs = expect_complete_ok(&mut expunge, &mut frag, reply.as_bytes());
    assert!(seqs.is_empty());
}

#[test]
fn expunge_uid_tagged_no_returns_no_error() {
    let mut expunge = ImapMessageExpungeUid::new(sequence_set());
    let mut frag = Fragmentizer::new(50 * 1024 * 1024);

    let bytes = expect_wants_write(&mut expunge, &mut frag, None);
    let tag = first_word(str::from_utf8(&bytes).expect("utf8 command")).to_owned();

    expect_wants_read(&mut expunge, &mut frag);

    let reply = format!("{tag} NO mailbox is read-only\r\n");
    let err = expect_complete_err(&mut expunge, &mut frag, reply.as_bytes());
    let ImapMessageExpungeUidError::No(text) = err else {
        panic!("expected ImapMessageExpungeUidError::No, got {err:?}");
    };
    assert_eq!(text, "mailbox is read-only");
}

fn expect_wants_write(
    cor: &mut ImapMessageExpungeUid,
    frag: &mut Fragmentizer,
    arg: Option<&[u8]>,
) -> Vec<u8> {
    match cor.resume(frag, arg) {
        ImapCoroutineState::Yielded(ImapYield::WantsWrite(bytes)) => bytes,
        state => panic!("expected WantsWrite, got {state:?}"),
    }
}

fn expect_wants_read(cor: &mut ImapMessageExpungeUid, frag: &mut Fragmentizer) {
    match cor.resume(frag, None) {
        ImapCoroutineState::Yielded(ImapYield::WantsRead) => {}
        state => panic!("expected WantsRead, got {state:?}"),
    }
}

fn expect_complete_ok(
    cor: &mut ImapMessageExpungeUid,
    frag: &mut Fragmentizer,
    reply: &[u8],
) -> Vec<u32> {
    match cor.resume(frag, Some(reply)) {
        ImapCoroutineState::Complete(Ok(value)) => value,
        state => panic!("expected Complete(Ok), got {state:?}"),
    }
}

fn expect_complete_err(
    cor: &mut ImapMessageExpungeUid,
    frag: &mut Fragmentizer,
    reply: &[u8],
) -> ImapMessageExpungeUidError {
    match cor.resume(frag, Some(reply)) {
        ImapCoroutineState::Complete(Err(err)) => err,
        state => panic!("expected Complete(Err), got {state:?}"),
    }
}

fn first_word(line: &str) -> &str {
    line.split_whitespace()
        .next()
        .expect("first whitespace-separated token")
}
