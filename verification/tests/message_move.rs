use std::str;

use imap_codec::fragmentizer::Fragmentizer;
use io_imap::coroutine::{ImapCoroutine, ImapCoroutineState, ImapYield};
use io_imap::rfc3501::copy::ImapCopyUid;
use io_imap::rfc6851::message_move::{ImapMessageMove, ImapMessageMoveError, ImapMessageMoveOptions};

#[test]
fn move_success_with_copyuid_returns_uids() {
    let mut mov = ImapMessageMove::new(
        "1:3".try_into().expect("valid sequence set"),
        "Archive".try_into().expect("valid mailbox"),
        ImapMessageMoveOptions::default(),
    );
    let mut frag = Fragmentizer::new(50 * 1024 * 1024);

    let bytes = expect_wants_write(&mut mov, &mut frag, None);
    let line = str::from_utf8(&bytes).expect("utf8 command");
    let tag = first_word(line).to_owned();
    assert!(line.contains("MOVE 1:3 Archive"));

    expect_wants_read(&mut mov, &mut frag);

    let reply = format!("{tag} OK [COPYUID 1700 1:3 10:12] MOVE completed\r\n");
    let copyuid = expect_complete_ok(&mut mov, &mut frag, reply.as_bytes())
        .expect("server returned COPYUID");
    let (uid_validity, source, destination) = copyuid;
    assert_eq!(1700, uid_validity);
    assert_eq!(vec![1, 2, 3], source);
    assert_eq!(vec![10, 11, 12], destination);
}

#[test]
fn success_with_untagged_copyuid_returns_uids() {
    // NOTE: RFC 6851 §4.4 (and Fastmail in practice): MOVE carries
    // COPYUID in an untagged OK before the EXPUNGE, not the tagged reply.
    let mut mov = ImapMessageMove::new(
        "1:3".try_into().expect("valid sequence set"),
        "Archive".try_into().expect("valid mailbox"),
        ImapMessageMoveOptions::default(),
    );
    let mut frag = Fragmentizer::new(50 * 1024 * 1024);

    let bytes = expect_wants_write(&mut mov, &mut frag, None);
    let line = str::from_utf8(&bytes).expect("utf8 command");
    let tag = first_word(line).to_owned();

    expect_wants_read(&mut mov, &mut frag);

    let reply = format!(
        "* OK [COPYUID 1700 1:3 10:12] Completed\r\n\
         * 1 EXPUNGE\r\n\
         {tag} OK MOVE completed\r\n"
    );
    let copyuid = expect_complete_ok(&mut mov, &mut frag, reply.as_bytes())
        .expect("server returned untagged COPYUID");
    let (uid_validity, source, destination) = copyuid;
    assert_eq!(1700, uid_validity);
    assert_eq!(vec![1, 2, 3], source);
    assert_eq!(vec![10, 11, 12], destination);
}

#[test]
fn uid_variant_sends_uid_move() {
    let mut mov = ImapMessageMove::new(
        "42".try_into().expect("valid sequence set"),
        "Archive".try_into().expect("valid mailbox"),
        ImapMessageMoveOptions { uid: true },
    );
    let mut frag = Fragmentizer::new(50 * 1024 * 1024);

    let bytes = expect_wants_write(&mut mov, &mut frag, None);
    let line = str::from_utf8(&bytes).expect("utf8 command");
    assert!(line.contains("UID MOVE 42 Archive"));
}

#[test]
fn move_tagged_no_returns_no_error() {
    let mut mov = ImapMessageMove::new(
        "1".try_into().expect("valid sequence set"),
        "Archive".try_into().expect("valid mailbox"),
        ImapMessageMoveOptions::default(),
    );
    let mut frag = Fragmentizer::new(50 * 1024 * 1024);

    let bytes = expect_wants_write(&mut mov, &mut frag, None);
    let tag = first_word(str::from_utf8(&bytes).expect("utf8 command")).to_owned();

    expect_wants_read(&mut mov, &mut frag);

    let reply = format!("{tag} NO destination mailbox does not exist\r\n");
    let err = expect_complete_err(&mut mov, &mut frag, reply.as_bytes());
    let ImapMessageMoveError::No(text) = err else {
        panic!("expected ImapMessageMoveError::No, got {err:?}");
    };
    assert_eq!(text, "destination mailbox does not exist");
}

#[test]
fn move_bye_returns_bye_error() {
    let mut mov = ImapMessageMove::new(
        "1".try_into().expect("valid sequence set"),
        "Archive".try_into().expect("valid mailbox"),
        ImapMessageMoveOptions::default(),
    );
    let mut frag = Fragmentizer::new(50 * 1024 * 1024);

    let _ = expect_wants_write(&mut mov, &mut frag, None);
    expect_wants_read(&mut mov, &mut frag);

    let err = expect_complete_err(&mut mov, &mut frag, b"* BYE going down\r\n");
    let ImapMessageMoveError::Bye(text) = err else {
        panic!("expected ImapMessageMoveError::Bye, got {err:?}");
    };
    assert_eq!(text, "going down");
}

fn expect_wants_write(
    cor: &mut ImapMessageMove,
    frag: &mut Fragmentizer,
    arg: Option<&[u8]>,
) -> Vec<u8> {
    match cor.resume(frag, arg) {
        ImapCoroutineState::Yielded(ImapYield::WantsWrite(bytes)) => bytes,
        state => panic!("expected WantsWrite, got {state:?}"),
    }
}

fn expect_wants_read(cor: &mut ImapMessageMove, frag: &mut Fragmentizer) {
    match cor.resume(frag, None) {
        ImapCoroutineState::Yielded(ImapYield::WantsRead) => {}
        state => panic!("expected WantsRead, got {state:?}"),
    }
}

fn expect_complete_ok(
    cor: &mut ImapMessageMove,
    frag: &mut Fragmentizer,
    reply: &[u8],
) -> ImapCopyUid {
    match cor.resume(frag, Some(reply)) {
        ImapCoroutineState::Complete(Ok(value)) => value,
        state => panic!("expected Complete(Ok), got {state:?}"),
    }
}

fn expect_complete_err(
    cor: &mut ImapMessageMove,
    frag: &mut Fragmentizer,
    reply: &[u8],
) -> ImapMessageMoveError {
    match cor.resume(frag, Some(reply)) {
        ImapCoroutineState::Complete(Err(err)) => err,
        state => panic!("expected Complete(Err), got {state:?}"),
    }
}

fn first_word(line: &str) -> &str {
    line.split_whitespace()
        .next()
        .expect("first whitespace-separated token")
}
