use std::str;

use imap_codec::fragmentizer::Fragmentizer;
use io_imap::coroutine::{ImapCoroutine, ImapCoroutineState, ImapYield};
use io_imap::response::Parameters;
use io_imap::rfc2971::id::{ImapServerId, ImapServerIdError, ImapServerIdOptions};

/// Happy path with `ID NIL`: server replies with `ID NIL`, the
/// coroutine returns `Ok(None)`.
#[test]
fn nil_success_returns_none() {
    let mut id = ImapServerId::new(ImapServerIdOptions::default());
    let mut frag = Fragmentizer::new(50 * 1024 * 1024);

    let bytes = expect_wants_write(&mut id, &mut frag, None);
    let line = str::from_utf8(&bytes).expect("utf8 command");
    let tag = first_word(line).to_owned();
    assert!(line.trim_end().ends_with("ID NIL"));

    expect_wants_read(&mut id, &mut frag);

    let reply = format!("* ID NIL\r\n{tag} OK ID completed\r\n");
    let result = expect_complete_ok(&mut id, &mut frag, reply.as_bytes());
    assert!(result.is_none());
}

/// Happy path with server-side parameters: server returns
/// `ID (key val ...)`, the coroutine surfaces the parsed pairs.
#[test]
fn server_parameters_returns_some() {
    let mut id = ImapServerId::new(ImapServerIdOptions::default());
    let mut frag = Fragmentizer::new(50 * 1024 * 1024);

    let bytes = expect_wants_write(&mut id, &mut frag, None);
    let tag = first_word(str::from_utf8(&bytes).expect("utf8 command")).to_owned();

    expect_wants_read(&mut id, &mut frag);

    let reply =
        format!("* ID (\"name\" \"Dovecot\" \"version\" \"2.3\")\r\n{tag} OK ID completed\r\n");
    let result = expect_complete_ok(&mut id, &mut frag, reply.as_bytes());
    let params = result.expect("server returned parameters");
    assert_eq!(2, params.len());
}

/// Tagged NO: surface text verbatim.
#[test]
fn id_tagged_no_returns_no_error() {
    let mut id = ImapServerId::new(ImapServerIdOptions::default());
    let mut frag = Fragmentizer::new(50 * 1024 * 1024);

    let bytes = expect_wants_write(&mut id, &mut frag, None);
    let tag = first_word(str::from_utf8(&bytes).expect("utf8 command")).to_owned();

    expect_wants_read(&mut id, &mut frag);

    let reply = format!("{tag} NO ID rejected\r\n");
    let err = expect_complete_err(&mut id, &mut frag, reply.as_bytes());
    let ImapServerIdError::No(text) = err else {
        panic!("expected ImapServerIdError::No, got {err:?}");
    };
    assert_eq!(text, "ID rejected");
}

/// Tagged BAD: surface text verbatim.
#[test]
fn id_tagged_bad_returns_bad_error() {
    let mut id = ImapServerId::new(ImapServerIdOptions::default());
    let mut frag = Fragmentizer::new(50 * 1024 * 1024);

    let bytes = expect_wants_write(&mut id, &mut frag, None);
    let tag = first_word(str::from_utf8(&bytes).expect("utf8 command")).to_owned();

    expect_wants_read(&mut id, &mut frag);

    let reply = format!("{tag} BAD ID not supported\r\n");
    let err = expect_complete_err(&mut id, &mut frag, reply.as_bytes());
    let ImapServerIdError::Bad(text) = err else {
        panic!("expected ImapServerIdError::Bad, got {err:?}");
    };
    assert_eq!(text, "ID not supported");
}

/// BYE before tagged response: surface text verbatim.
#[test]
fn id_bye_returns_bye_error() {
    let mut id = ImapServerId::new(ImapServerIdOptions::default());
    let mut frag = Fragmentizer::new(50 * 1024 * 1024);

    let _ = expect_wants_write(&mut id, &mut frag, None);
    expect_wants_read(&mut id, &mut frag);

    let err = expect_complete_err(&mut id, &mut frag, b"* BYE shutting down\r\n");
    let ImapServerIdError::Bye(text) = err else {
        panic!("expected ImapServerIdError::Bye, got {err:?}");
    };
    assert_eq!(text, "shutting down");
}

// --- utils

fn expect_wants_write(
    cor: &mut ImapServerId,
    frag: &mut Fragmentizer,
    arg: Option<&[u8]>,
) -> Vec<u8> {
    match cor.resume(frag, arg) {
        ImapCoroutineState::Yielded(ImapYield::WantsWrite(bytes)) => bytes,
        state => panic!("expected WantsWrite, got {state:?}"),
    }
}

fn expect_wants_read(cor: &mut ImapServerId, frag: &mut Fragmentizer) {
    match cor.resume(frag, None) {
        ImapCoroutineState::Yielded(ImapYield::WantsRead) => {}
        state => panic!("expected WantsRead, got {state:?}"),
    }
}

fn expect_complete_ok(
    cor: &mut ImapServerId,
    frag: &mut Fragmentizer,
    reply: &[u8],
) -> Option<Parameters> {
    match cor.resume(frag, Some(reply)) {
        ImapCoroutineState::Complete(Ok(value)) => value,
        state => panic!("expected Complete(Ok), got {state:?}"),
    }
}

fn expect_complete_err(
    cor: &mut ImapServerId,
    frag: &mut Fragmentizer,
    reply: &[u8],
) -> ImapServerIdError {
    match cor.resume(frag, Some(reply)) {
        ImapCoroutineState::Complete(Err(err)) => err,
        state => panic!("expected Complete(Err), got {state:?}"),
    }
}

fn first_word(line: &str) -> &str {
    line.split_whitespace()
        .next()
        .expect("first whitespace-separated token")
}
