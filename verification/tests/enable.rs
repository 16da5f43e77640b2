use std::str;

use imap_codec::fragmentizer::Fragmentizer;
use imap_codec::imap_types::extensions::enable::CapabilityEnable;
use io_imap::coroutine::{ImapCoroutine, ImapCoroutineState, ImapYield};
use io_imap::rfc5161::enable::{ImapExtensionEnable, ImapExtensionEnableError};

fn caps() -> imap_codec::imap_types::core::Vec1<CapabilityEnable<'static>> {
    imap_codec::imap_types::core::Vec1::try_from(vec![CapabilityEnable::CondStore])
        .expect("one cap")
}

#[test]
fn success_returns_enabled_list() {
    let mut enable = ImapExtensionEnable::new(caps());
    let mut frag = Fragmentizer::new(50 * 1024 * 1024);

    let bytes = expect_wants_write(&mut enable, &mut frag, None);
    let line = str::from_utf8(&bytes).expect("utf8 command");
    let tag = first_word(line).to_owned();
    assert!(line.contains("ENABLE CONDSTORE"));

    expect_wants_read(&mut enable, &mut frag);

    let reply = format!("* ENABLED CONDSTORE\r\n{tag} OK ENABLE completed\r\n");
    let enabled = expect_complete_ok(&mut enable, &mut frag, reply.as_bytes())
        .expect("server returned ENABLED");
    assert_eq!(1, enabled.len());
}

#[test]
fn success_without_enabled_returns_none() {
    let mut enable = ImapExtensionEnable::new(caps());
    let mut frag = Fragmentizer::new(50 * 1024 * 1024);

    let bytes = expect_wants_write(&mut enable, &mut frag, None);
    let tag = first_word(str::from_utf8(&bytes).expect("utf8 command")).to_owned();

    expect_wants_read(&mut enable, &mut frag);

    let reply = format!("{tag} OK ENABLE completed\r\n");
    let enabled = expect_complete_ok(&mut enable, &mut frag, reply.as_bytes());
    assert!(enabled.is_none());
}

#[test]
fn enable_tagged_no_returns_no_error() {
    let mut enable = ImapExtensionEnable::new(caps());
    let mut frag = Fragmentizer::new(50 * 1024 * 1024);

    let bytes = expect_wants_write(&mut enable, &mut frag, None);
    let tag = first_word(str::from_utf8(&bytes).expect("utf8 command")).to_owned();

    expect_wants_read(&mut enable, &mut frag);

    let reply = format!("{tag} NO CONDSTORE not supported\r\n");
    let err = expect_complete_err(&mut enable, &mut frag, reply.as_bytes());
    let ImapExtensionEnableError::No(text) = err else {
        panic!("expected ImapExtensionEnableError::No, got {err:?}");
    };
    assert_eq!(text, "CONDSTORE not supported");
}

#[test]
fn enable_bye_returns_bye_error() {
    let mut enable = ImapExtensionEnable::new(caps());
    let mut frag = Fragmentizer::new(50 * 1024 * 1024);

    let _ = expect_wants_write(&mut enable, &mut frag, None);
    expect_wants_read(&mut enable, &mut frag);

    let err = expect_complete_err(&mut enable, &mut frag, b"* BYE going down\r\n");
    let ImapExtensionEnableError::Bye(text) = err else {
        panic!("expected ImapExtensionEnableError::Bye, got {err:?}");
    };
    assert_eq!(text, "going down");
}

// --- utils

fn expect_wants_write(
    cor: &mut ImapExtensionEnable,
    frag: &mut Fragmentizer,
    arg: Option<&[u8]>,
) -> Vec<u8> {
    match cor.resume(frag, arg) {
        ImapCoroutineState::Yielded(ImapYield::WantsWrite(bytes)) => bytes,
        state => panic!("expected WantsWrite, got {state:?}"),
    }
}

fn expect_wants_read(cor: &mut ImapExtensionEnable, frag: &mut Fragmentizer) {
    match cor.resume(frag, None) {
        ImapCoroutineState::Yielded(ImapYield::WantsRead) => {}
        state => panic!("expected WantsRead, got {state:?}"),
    }
}

fn expect_complete_ok(
    cor: &mut ImapExtensionEnable,
    frag: &mut Fragmentizer,
    reply: &[u8],
) -> Option<Vec<CapabilityEnable<'static>>> {
    match cor.resume(frag, Some(reply)) {
        ImapCoroutineState::Complete(Ok(value)) => value,
        state => panic!("expected Complete(Ok), got {state:?}"),
    }
}

fn expect_complete_err(
    cor: &mut ImapExtensionEnable,
    frag: &mut Fragmentizer,
    reply: &[u8],
) -> ImapExtensionEnableError {
    match cor.resume(frag, Some(reply)) {
        ImapCoroutineState::Complete(Err(err)) => err,
        state => panic!("expected Complete(Err), got {state:?}"),
    }
}

fn first_word(line: &str) -> &str {
    line.split_whitespace()
        .next()
        .expect("first whitespace-separated token")
}
