use std::str;

use imap_codec::fragmentizer::Fragmentizer;
use io_imap::coroutine::{ImapCoroutine, ImapCoroutineState, ImapYield};
use io_imap::rfc3501::copy::{
    ImapCopyUid, ImapMessageCopy, ImapMessageCopyError, ImapMessageCopyOptions,
};

#[test]
fn copy_success_with_copyuid_returns_uids() {
    let mut copy = ImapMessageCopy::new(
        "1:3".try_into().expect("valid sequence set"),
        "Archive".try_into().expect("valid mailbox"),
        ImapMessageCopyOptions::default(),
    );
    let mut frag = Fragmentizer::new(50 * 1024 * 1024);

    let bytes = expect_wants_write(&mut copy, &mut frag, None);
    let line = str::from_utf8(&bytes).expect("utf8 command");
    let tag = first_word(line).to_owned();
    assert!(line.contains("COPY 1:3 Archive"));

    expect_wants_read(&mut copy, &mut frag);

    let reply = format!("{tag} OK [COPYUID 1700 1:3 10:12] COPY completed\r\n");
    let copyuid = expect_complete_ok(&mut copy, &mut frag, reply.as_bytes())
        .expect("server returned COPYUID");
    let (uid_validity, source, destination) = copyuid;
    assert_eq!(1700, uid_validity);
    assert_eq!(vec![1, 2, 3], source);
    assert_eq!(vec![10, 11, 12], destination);
}

#[test]
fn uid_variant_sends_uid_copy() {
    let mut copy = ImapMessageCopy::new(
        "42".try_into().expect("valid sequence set"),
        "Archive".try_into().expect("valid mailbox"),
        ImapMessageCopyOptions { uid: true },
    );
    let mut frag = Fragmentizer::new(50 * 1024 * 1024);

    let bytes = expect_wants_write(&mut copy, &mut frag, None);
    let line = str::from_utf8(&bytes).expect("utf8 command");
    assert!(line.contains("UID COPY 42 Archive"));
}

#[test]
fn success_without_copyuid_returns_none() {
    let mut copy = ImapMessageCopy::new(
        "1".try_into().expect("valid sequence set"),
        "Archive".try_into().expect("valid mailbox"),
        ImapMessageCopyOptions::default(),
    );
    let mut frag = Fragmentizer::new(50 * 1024 * 1024);

    let bytes = expect_wants_write(&mut copy, &mut frag, None);
    let tag = first_word(str::from_utf8(&bytes).expect("utf8 command")).to_owned();

    expect_wants_read(&mut copy, &mut frag);

    let reply = format!("{tag} OK COPY completed\r\n");
    let copyuid = expect_complete_ok(&mut copy, &mut frag, reply.as_bytes());
    assert!(copyuid.is_none());
}

#[test]
fn copy_tagged_no_returns_no_error() {
    let mut copy = ImapMessageCopy::new(
        "1".try_into().expect("valid sequence set"),
        "Archive".try_into().expect("valid mailbox"),
        ImapMessageCopyOptions::default(),
    );
    let mut frag = Fragmentizer::new(50 * 1024 * 1024);

    let bytes = expect_wants_write(&mut copy, &mut frag, None);
    let tag = first_word(str::from_utf8(&bytes).expect("utf8 command")).to_owned();

    expect_wants_read(&mut copy, &mut frag);

    let reply = format!("{tag} NO destination mailbox does not exist\r\n");
    let err = expect_complete_err(&mut copy, &mut frag, reply.as_bytes());
    let ImapMessageCopyError::No(text) = err else {
        panic!("expected ImapMessageCopyError::No, got {err:?}");
    };
    assert_eq!(text, "destination mailbox does not exist");
}

#[test]
fn copy_bye_returns_bye_error() {
    let mut copy = ImapMessageCopy::new(
        "1".try_into().expect("valid sequence set"),
        "Archive".try_into().expect("valid mailbox"),
        ImapMessageCopyOptions::default(),
    );
    let mut frag = Fragmentizer::new(50 * 1024 * 1024);

    let _ = expect_wants_write(&mut copy, &mut frag, None);
    expect_wants_read(&mut copy, &mut frag);

    let err = expect_complete_err(&mut copy, &mut frag, b"* BYE going down\r\n");
    let ImapMessageCopyError::Bye(text) = err else {
        panic!("expected ImapMessageCopyError::Bye, got {err:?}");
    };
    assert_eq!(text, "going down");
}

// --- utils

fn expect_wants_write(
    cor: &mut ImapMessageCopy,
    frag: &mut Fragmentizer,
    arg: Option<&[u8]>,
) -> Vec<u8> {
    match cor.resume(frag, arg) {
        ImapCoroutineState::Yielded(ImapYield::WantsWrite(bytes)) => bytes,
        state => panic!("expected WantsWrite, got {state:?}"),
    }
}

fn expect_wants_read(cor: &mut ImapMessageCopy, frag: &mut Fragmentizer) {
    match cor.resume(frag, None) {
        ImapCoroutineState::Yielded(ImapYield::WantsRead) => {}
        state => panic!("expected WantsRead, got {state:?}"),
    }
}

fn expect_complete_ok(
    cor: &mut ImapMessageCopy,
    frag: &mut Fragmentizer,
    reply: &[u8],
) -> ImapCopyUid {
    match cor.resume(frag, Some(reply)) {
        ImapCoroutineState::Complete(Ok(value)) => value,
        state => panic!("expected Complete(Ok), got {state:?}"),
    }
}

fn expect_complete_err(
    cor: &mut ImapMessageCopy,
    frag: &mut Fragmentizer,
    reply: &[u8],
) -> ImapMessageCopyError {
    match cor.resume(frag, Some(reply)) {
        ImapCoroutineState::Complete(Err(err)) => err,
        state => panic!("expected Complete(Err), got {state:?}"),
    }
}

fn first_word(line: &str) -> &str {
    line.split_whitespace()
        .next()
        .expect("first whitespace-separated token")
}
