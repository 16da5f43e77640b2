use std::str;

use imap_codec::fragmentizer::Fragmentizer;
use io_imap::coroutine::{ImapCoroutine, ImapCoroutineState};
use io_imap::rfc3501::append::{
    ImapMessageAppend, ImapMessageAppendError, ImapMessageAppendOptions, ImapMessageAppendOutput,
    ImapMessageAppendYield,
};

#[test]
fn append_sync_success_with_appenduid_returns_pair() {
    let mut append = ImapMessageAppend::new(
        "INBOX".try_into().expect("valid mailbox"),
        15,
        ImapMessageAppendOptions::default(),
    );
    let mut frag = Fragmentizer::new(50 * 1024 * 1024);

    let header = expect_wants_write(&mut append, &mut frag, None);
    let line = str::from_utf8(&header).expect("utf8 header");
    let tag = first_word(line).to_owned();
    assert!(line.contains("APPEND INBOX"));
    assert!(line.ends_with("{15}\r\n"));

    expect_wants_read(&mut append, &mut frag, None);
    expect_wants_stream(
        &mut append,
        &mut frag,
        Some(b"+ Ready for literal data\r\n"),
    );

    let crlf = expect_wants_write(&mut append, &mut frag, None);
    assert_eq!(crlf, b"\r\n");

    expect_wants_read(&mut append, &mut frag, None);

    let reply =
        format!("* 42 EXISTS\r\n{tag} OK [APPENDUID 1700000000 7] APPEND completed\r\n");
    let (exists, appenduid) =
        expect_complete_ok(&mut append, &mut frag, Some(reply.as_bytes()));
    assert_eq!(Some(42), exists);
    assert_eq!(Some((1700000000, 7)), appenduid);
}

#[test]
fn sync_success_without_appenduid_returns_none_uid() {
    let mut append = ImapMessageAppend::new(
        "INBOX".try_into().expect("valid mailbox"),
        1,
        ImapMessageAppendOptions::default(),
    );
    let mut frag = Fragmentizer::new(50 * 1024 * 1024);

    let header = expect_wants_write(&mut append, &mut frag, None);
    let tag = first_word(str::from_utf8(&header).expect("utf8 header")).to_owned();

    expect_wants_read(&mut append, &mut frag, None);
    expect_wants_stream(&mut append, &mut frag, Some(b"+ go\r\n"));
    let _ = expect_wants_write(&mut append, &mut frag, None);
    expect_wants_read(&mut append, &mut frag, None);

    let reply = format!("{tag} OK APPEND completed\r\n");
    let (exists, appenduid) =
        expect_complete_ok(&mut append, &mut frag, Some(reply.as_bytes()));
    assert!(exists.is_none());
    assert!(appenduid.is_none());
}

#[test]
fn append_non_sync_streams_without_continuation() {
    let mut append = ImapMessageAppend::new(
        "INBOX".try_into().expect("valid mailbox"),
        15,
        ImapMessageAppendOptions {
            non_sync: true,
            ..Default::default()
        },
    );
    let mut frag = Fragmentizer::new(50 * 1024 * 1024);

    let header = expect_wants_write(&mut append, &mut frag, None);
    let line = str::from_utf8(&header).expect("utf8 header");
    let tag = first_word(line).to_owned();
    assert!(line.ends_with("{15+}\r\n"));

    // No continuation read: the body streams straight away.
    expect_wants_stream(&mut append, &mut frag, None);
    let crlf = expect_wants_write(&mut append, &mut frag, None);
    assert_eq!(crlf, b"\r\n");

    expect_wants_read(&mut append, &mut frag, None);

    let reply = format!("{tag} OK APPEND completed\r\n");
    expect_complete_ok(&mut append, &mut frag, Some(reply.as_bytes()));
}

#[test]
fn append_continuation_no_returns_no_error() {
    let mut append = ImapMessageAppend::new(
        "INBOX".try_into().expect("valid mailbox"),
        15,
        ImapMessageAppendOptions::default(),
    );
    let mut frag = Fragmentizer::new(50 * 1024 * 1024);

    let header = expect_wants_write(&mut append, &mut frag, None);
    let tag = first_word(str::from_utf8(&header).expect("utf8 header")).to_owned();

    expect_wants_read(&mut append, &mut frag, None);

    let reply = format!("{tag} NO over quota\r\n");
    let err = expect_complete_err(&mut append, &mut frag, Some(reply.as_bytes()));
    let ImapMessageAppendError::No(text) = err else {
        panic!("expected ImapMessageAppendError::No, got {err:?}");
    };
    assert_eq!(text, "over quota");
}

#[test]
fn append_tagged_bad_returns_bad_error() {
    let mut append = ImapMessageAppend::new(
        "INBOX".try_into().expect("valid mailbox"),
        15,
        ImapMessageAppendOptions::default(),
    );
    let mut frag = Fragmentizer::new(50 * 1024 * 1024);

    let header = expect_wants_write(&mut append, &mut frag, None);
    let tag = first_word(str::from_utf8(&header).expect("utf8 header")).to_owned();

    expect_wants_read(&mut append, &mut frag, None);
    expect_wants_stream(&mut append, &mut frag, Some(b"+ go\r\n"));
    let _ = expect_wants_write(&mut append, &mut frag, None);
    expect_wants_read(&mut append, &mut frag, None);

    let reply = format!("{tag} BAD APPEND syntax error\r\n");
    let err = expect_complete_err(&mut append, &mut frag, Some(reply.as_bytes()));
    let ImapMessageAppendError::Bad(text) = err else {
        panic!("expected ImapMessageAppendError::Bad, got {err:?}");
    };
    assert_eq!(text, "APPEND syntax error");
}

#[test]
fn append_short_stream_returns_short_message_error() {
    let mut append = ImapMessageAppend::new(
        "INBOX".try_into().expect("valid mailbox"),
        15,
        ImapMessageAppendOptions::default(),
    );
    let mut frag = Fragmentizer::new(50 * 1024 * 1024);

    let _ = expect_wants_write(&mut append, &mut frag, None);
    expect_wants_read(&mut append, &mut frag, None);
    expect_wants_stream(&mut append, &mut frag, Some(b"+ go\r\n"));

    // Driver signals a short source with an empty slice.
    let err = expect_complete_err(&mut append, &mut frag, Some(&[]));
    assert!(matches!(err, ImapMessageAppendError::ShortMessage));
}

#[test]
fn append_bye_returns_bye_error() {
    let mut append = ImapMessageAppend::new(
        "INBOX".try_into().expect("valid mailbox"),
        15,
        ImapMessageAppendOptions::default(),
    );
    let mut frag = Fragmentizer::new(50 * 1024 * 1024);

    let _ = expect_wants_write(&mut append, &mut frag, None);
    expect_wants_read(&mut append, &mut frag, None);
    expect_wants_stream(&mut append, &mut frag, Some(b"+ go\r\n"));
    let _ = expect_wants_write(&mut append, &mut frag, None);
    expect_wants_read(&mut append, &mut frag, None);

    let err = expect_complete_err(&mut append, &mut frag, Some(b"* BYE shutting down\r\n"));
    let ImapMessageAppendError::Bye(text) = err else {
        panic!("expected ImapMessageAppendError::Bye, got {err:?}");
    };
    assert_eq!(text, "shutting down");
}

// --- utils

fn expect_wants_write(
    cor: &mut ImapMessageAppend,
    frag: &mut Fragmentizer,
    arg: Option<&[u8]>,
) -> Vec<u8> {
    match cor.resume(frag, arg) {
        ImapCoroutineState::Yielded(ImapMessageAppendYield::WantsWrite(bytes)) => bytes,
        state => panic!("expected WantsWrite, got {state:?}"),
    }
}

fn expect_wants_read(cor: &mut ImapMessageAppend, frag: &mut Fragmentizer, arg: Option<&[u8]>) {
    match cor.resume(frag, arg) {
        ImapCoroutineState::Yielded(ImapMessageAppendYield::WantsRead) => {}
        state => panic!("expected WantsRead, got {state:?}"),
    }
}

fn expect_wants_stream(
    cor: &mut ImapMessageAppend,
    frag: &mut Fragmentizer,
    arg: Option<&[u8]>,
) {
    match cor.resume(frag, arg) {
        ImapCoroutineState::Yielded(ImapMessageAppendYield::WantsStream) => {}
        state => panic!("expected WantsStream, got {state:?}"),
    }
}

fn expect_complete_ok(
    cor: &mut ImapMessageAppend,
    frag: &mut Fragmentizer,
    arg: Option<&[u8]>,
) -> ImapMessageAppendOutput {
    match cor.resume(frag, arg) {
        ImapCoroutineState::Complete(Ok(value)) => value,
        state => panic!("expected Complete(Ok), got {state:?}"),
    }
}

fn expect_complete_err(
    cor: &mut ImapMessageAppend,
    frag: &mut Fragmentizer,
    arg: Option<&[u8]>,
) -> ImapMessageAppendError {
    match cor.resume(frag, arg) {
        ImapCoroutineState::Complete(Err(err)) => err,
        state => panic!("expected Complete(Err), got {state:?}"),
    }
}

fn first_word(line: &str) -> &str {
    line.split_whitespace()
        .next()
        .expect("first whitespace-separated token")
}
