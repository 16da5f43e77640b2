use std::str;

use imap_codec::fragmentizer::Fragmentizer;
use imap_codec::imap_types::response::Capability;
use io_imap::coroutine::{ImapCoroutine, ImapCoroutineState, ImapYield};
use io_imap::rfc3501::login::{ImapLogin, ImapLoginError, ImapLoginOptions};

/// Happy path: client sends `<tag> LOGIN <user> <pass>`, server
/// returns tagged OK.
#[test]
fn login_success_returns_ok() {
    let opts = ImapLoginOptions::default();
    let mut auth = ImapLogin::new("alice", "secret", opts).expect("valid credentials");
    let mut frag = Fragmentizer::new(50 * 1024 * 1024);

    let bytes = expect_wants_write(&mut auth, &mut frag, None);
    let line = str::from_utf8(&bytes).expect("utf8 command");
    let tag = first_word(line);
    assert!(line.contains("LOGIN "));

    expect_wants_read(&mut auth, &mut frag);

    let reply = format!("{tag} OK LOGIN completed\r\n");
    expect_complete_ok(&mut auth, &mut frag, reply.as_bytes());
}

/// Server rejects the credentials with tagged NO.
#[test]
fn invalid_credentials_returns_no_error() {
    let opts = ImapLoginOptions::default();
    let mut auth = ImapLogin::new("alice", "wrong", opts).expect("valid credentials");
    let mut frag = Fragmentizer::new(50 * 1024 * 1024);

    let bytes = expect_wants_write(&mut auth, &mut frag, None);
    let tag = first_word(str::from_utf8(&bytes).expect("utf8 command"));

    expect_wants_read(&mut auth, &mut frag);

    let reply = format!("{tag} NO authentication failed\r\n");
    let err = expect_complete_err(&mut auth, &mut frag, reply.as_bytes());
    let ImapLoginError::No(text) = err else {
        panic!("expected ImapLoginError::No, got {err:?}");
    };
    assert_eq!(text, "authentication failed");
}

/// Tagged BAD before any continuation: surface text verbatim.
#[test]
fn login_tagged_bad_returns_bad_error() {
    let opts = ImapLoginOptions::default();
    let mut auth = ImapLogin::new("alice", "secret", opts).expect("valid credentials");
    let mut frag = Fragmentizer::new(50 * 1024 * 1024);

    let bytes = expect_wants_write(&mut auth, &mut frag, None);
    let tag = first_word(str::from_utf8(&bytes).expect("utf8 command"));

    expect_wants_read(&mut auth, &mut frag);

    let reply = format!("{tag} BAD LOGIN disabled\r\n");
    let err = expect_complete_err(&mut auth, &mut frag, reply.as_bytes());
    let ImapLoginError::Bad(text) = err else {
        panic!("expected ImapLoginError::Bad, got {err:?}");
    };
    assert_eq!(text, "LOGIN disabled");
}

/// Server returns a tagged OK carrying a CAPABILITY response code:
/// the coroutine surfaces the advertised capabilities.
#[test]
fn success_with_capability_code_observes_capability() {
    let opts = ImapLoginOptions::default();
    let mut auth = ImapLogin::new("alice", "secret", opts).expect("valid credentials");
    let mut frag = Fragmentizer::new(50 * 1024 * 1024);

    let bytes = expect_wants_write(&mut auth, &mut frag, None);
    let tag = first_word(str::from_utf8(&bytes).expect("utf8 command"));

    expect_wants_read(&mut auth, &mut frag);

    let reply = format!("{tag} OK [CAPABILITY IMAP4rev1 IDLE] LOGIN completed\r\n");
    let caps = match auth.resume(&mut frag, Some(reply.as_bytes())) {
        ImapCoroutineState::Complete(Ok(caps)) => caps,
        state => panic!("expected Complete(Ok), got {state:?}"),
    };
    assert!(caps.iter().any(|c| matches!(c, Capability::Imap4Rev1)));
    assert!(caps.iter().any(|c| matches!(c, Capability::Idle)));
}

/// Credentials containing a NUL byte are rejected at construction
/// before any I/O is attempted.
#[test]
fn nul_in_password_fails_at_construction() {
    let opts = ImapLoginOptions::default();
    let result = ImapLogin::new("alice", "bad\0password", opts);
    assert!(
        result.is_err(),
        "expected construction to refuse NUL in password",
    );
}

// --- utils

fn expect_wants_write(
    cor: &mut ImapLogin,
    frag: &mut Fragmentizer,
    arg: Option<&[u8]>,
) -> Vec<u8> {
    match cor.resume(frag, arg) {
        ImapCoroutineState::Yielded(ImapYield::WantsWrite(bytes)) => bytes,
        state => panic!("expected WantsWrite, got {state:?}"),
    }
}

fn expect_wants_read(cor: &mut ImapLogin, frag: &mut Fragmentizer) {
    match cor.resume(frag, None) {
        ImapCoroutineState::Yielded(ImapYield::WantsRead) => {}
        state => panic!("expected WantsRead, got {state:?}"),
    }
}

fn expect_complete_ok(cor: &mut ImapLogin, frag: &mut Fragmentizer, reply: &[u8]) {
    match cor.resume(frag, Some(reply)) {
        ImapCoroutineState::Complete(Ok(_)) => {}
        state => panic!("expected Complete(Ok), got {state:?}"),
    }
}

fn expect_complete_err(
    cor: &mut ImapLogin,
    frag: &mut Fragmentizer,
    reply: &[u8],
) -> ImapLoginError {
    match cor.resume(frag, Some(reply)) {
        ImapCoroutineState::Complete(Err(err)) => err,
        state => panic!("expected Complete(Err), got {state:?}"),
    }
}

fn first_word(line: &str) -> &str {
    line.split_whitespace()
        .next()
        .expect("first whitespace-separated token")
}
