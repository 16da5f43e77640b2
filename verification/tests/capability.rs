use std::str;

use imap_codec::fragmentizer::Fragmentizer;
use imap_codec::imap_types::response::Capability;
use io_imap::coroutine::{ImapCoroutine, ImapCoroutineState, ImapYield};
use io_imap::rfc3501::capability::{ImapCapabilityGet, ImapCapabilityGetError};

#[test]
fn data_capability_returns_capabilities() {
    let mut cap = ImapCapabilityGet::new();
    let mut frag = Fragmentizer::new(50 * 1024 * 1024);

    let bytes = expect_wants_write(&mut cap, &mut frag, None);
    let line = str::from_utf8(&bytes).expect("utf8 command");
    let tag = first_word(line).to_owned();
    assert!(line.trim_end().ends_with("CAPABILITY"));

    expect_wants_read(&mut cap, &mut frag);

    let reply =
        format!("* CAPABILITY IMAP4REV1 STARTTLS IDLE\r\n{tag} OK CAPABILITY completed\r\n");
    let caps = expect_complete_ok(&mut cap, &mut frag, reply.as_bytes());
    assert_eq!(3, caps.len());
    assert!(caps.contains(&Capability::Imap4Rev1));
    assert!(caps.contains(&Capability::StartTls));
    assert!(caps.contains(&Capability::Idle));
}

#[test]
fn tagged_code_capability_returns_capabilities() {
    let mut cap = ImapCapabilityGet::new();
    let mut frag = Fragmentizer::new(50 * 1024 * 1024);

    let bytes = expect_wants_write(&mut cap, &mut frag, None);
    let tag = first_word(str::from_utf8(&bytes).expect("utf8 command")).to_owned();

    expect_wants_read(&mut cap, &mut frag);

    let reply = format!("{tag} OK [CAPABILITY IMAP4REV1 IDLE] done\r\n");
    let caps = expect_complete_ok(&mut cap, &mut frag, reply.as_bytes());
    assert_eq!(2, caps.len());
}

#[test]
fn no_capability_returns_missing_error() {
    let mut cap = ImapCapabilityGet::new();
    let mut frag = Fragmentizer::new(50 * 1024 * 1024);

    let bytes = expect_wants_write(&mut cap, &mut frag, None);
    let tag = first_word(str::from_utf8(&bytes).expect("utf8 command")).to_owned();

    expect_wants_read(&mut cap, &mut frag);

    let reply = format!("{tag} OK CAPABILITY completed\r\n");
    let err = expect_complete_err(&mut cap, &mut frag, reply.as_bytes());
    assert!(matches!(err, ImapCapabilityGetError::MissingCapability));
}

#[test]
fn capability_tagged_no_returns_no_error() {
    let mut cap = ImapCapabilityGet::new();
    let mut frag = Fragmentizer::new(50 * 1024 * 1024);

    let bytes = expect_wants_write(&mut cap, &mut frag, None);
    let tag = first_word(str::from_utf8(&bytes).expect("utf8 command")).to_owned();

    expect_wants_read(&mut cap, &mut frag);

    let reply = format!("{tag} NO server is sulking\r\n");
    let err = expect_complete_err(&mut cap, &mut frag, reply.as_bytes());
    let ImapCapabilityGetError::No(text) = err else {
        panic!("expected ImapCapabilityGetError::No, got {err:?}");
    };
    assert_eq!(text, "server is sulking");
}

#[test]
fn capability_bye_returns_bye_error() {
    let mut cap = ImapCapabilityGet::new();
    let mut frag = Fragmentizer::new(50 * 1024 * 1024);

    let _ = expect_wants_write(&mut cap, &mut frag, None);
    expect_wants_read(&mut cap, &mut frag);

    let err = expect_complete_err(&mut cap, &mut frag, b"* BYE going down\r\n");
    let ImapCapabilityGetError::Bye(text) = err else {
        panic!("expected ImapCapabilityGetError::Bye, got {err:?}");
    };
    assert_eq!(text, "going down");
}

// --- utils

fn expect_wants_write(
    cor: &mut ImapCapabilityGet,
    frag: &mut Fragmentizer,
    arg: Option<&[u8]>,
) -> Vec<u8> {
    match cor.resume(frag, arg) {
        ImapCoroutineState::Yielded(ImapYield::WantsWrite(bytes)) => bytes,
        state => panic!("expected WantsWrite, got {state:?}"),
    }
}

fn expect_wants_read(cor: &mut ImapCapabilityGet, frag: &mut Fragmentizer) {
    match cor.resume(frag, None) {
        ImapCoroutineState::Yielded(ImapYield::WantsRead) => {}
        state => panic!("expected WantsRead, got {state:?}"),
    }
}

fn expect_complete_ok(
    cor: &mut ImapCapabilityGet,
    frag: &mut Fragmentizer,
    reply: &[u8],
) -> Vec<Capability<'static>> {
    match cor.resume(frag, Some(reply)) {
        ImapCoroutineState::Complete(Ok(value)) => value,
        state => panic!("expected Complete(Ok), got {state:?}"),
    }
}

fn expect_complete_err(
    cor: &mut ImapCapabilityGet,
    frag: &mut Fragmentizer,
    reply: &[u8],
) -> ImapCapabilityGetError {
    match cor.resume(frag, Some(reply)) {
        ImapCoroutineState::Complete(Err(err)) => err,
        state => panic!("expected Complete(Err), got {state:?}"),
    }
}

fn first_word(line: &str) -> &str {
    line.split_whitespace()
        .next()
        .expect("first whitespace-separated token")
}
