use std::str;

use imap_codec::fragmentizer::Fragmentizer;
use io_imap::coroutine::{ImapCoroutine, ImapCoroutineState};
use io_imap::rfc3501::append::{ImapMessageAppendOptions, ImapMessageAppendOutput};
use io_imap::rfc3501::append_stream::{
    ImapMessageAppendStream, ImapMessageAppendStreamError, ImapMessageAppendStreamYield,
};

#[test]
fn append_stream_sync_success_with_appenduid_returns_pair() {
    let mut append = ImapMessageAppendStream::new(
        "INBOX".try_into().expect("valid mailbox"),
        15,
        ImapMessageAppendOptions::default(),
    );
    let mut frag = Fragmentizer::new(50 * 1024 * 1024);

    let header = expect_wants_write(&mut append, &mut frag, None);
    let line = str::from_utf8(&header).expect("utf8 header");
    let tag = first_word(line).to_owned();
    assert!(line.contains("APPEND INBOX"));
    assert!(line.ends_with("{15}\r\n"));

    expect_wants_read(&mut append, &mut frag, None);
    expect_wants_stream(
        &mut append,
        &mut frag,
        Some(b"+ Ready for literal data\r\n"),
    );

    let crlf = expect_wants_write(&mut append, &mut frag, None);
    assert_eq!(crlf, b"\r\n");

    expect_wants_read(&mut append, &mut frag, None);

    let reply =
        format!("* 42 EXISTS\r\n{tag} OK [APPENDUID 1700000000 7] APPEND completed\r\n");
    let (exists, appenduid) =
        expect_complete_ok(&mut append, &mut frag, Some(reply.as_bytes()));
    assert_eq!(Some(42), exists);
    assert_eq!(Some((1700000000, 7)), appenduid);
}

#[test]
fn append_stream_non_sync_streams_without_continuation() {
    let mut append = ImapMessageAppendStream::new(
        "INBOX".try_into().expect("valid mailbox"),
        15,
        ImapMessageAppendOptions {
            non_sync: true,
            ..Default::default()
        },
    );
    let mut frag = Fragmentizer::new(50 * 1024 * 1024);

    let header = expect_wants_write(&mut append, &mut frag, None);
    let line = str::from_utf8(&header).expect("utf8 header");
    let tag = first_word(line).to_owned();
    assert!(line.ends_with("{15+}\r\n"));

    // NOTE: no continuation read: the body streams straight away.
    expect_wants_stream(&mut append, &mut frag, None);
    let crlf = expect_wants_write(&mut append, &mut frag, None);
    assert_eq!(crlf, b"\r\n");

    expect_wants_read(&mut append, &mut frag, None);

    let reply = format!("{tag} OK APPEND completed\r\n");
    expect_complete_ok(&mut append, &mut frag, Some(reply.as_bytes()));
}

#[test]
fn append_stream_continuation_no_returns_no_error() {
    let mut append = ImapMessageAppendStream::new(
        "INBOX".try_into().expect("valid mailbox"),
        15,
        ImapMessageAppendOptions::default(),
    );
    let mut frag = Fragmentizer::new(50 * 1024 * 1024);

    let header = expect_wants_write(&mut append, &mut frag, None);
    let tag = first_word(str::from_utf8(&header).expect("utf8 header")).to_owned();

    expect_wants_read(&mut append, &mut frag, None);

    let reply = format!("{tag} NO over quota\r\n");
    let err = expect_complete_err(&mut append, &mut frag, Some(reply.as_bytes()));
    let ImapMessageAppendStreamError::No(text) = err else {
        panic!("expected ImapMessageAppendStreamError::No, got {err:?}");
    };
    assert_eq!(text, "over quota");
}

#[test]
fn append_stream_short_stream_returns_short_message_error() {
    let mut append = ImapMessageAppendStream::new(
        "INBOX".try_into().expect("valid mailbox"),
        15,
        ImapMessageAppendOptions::default(),
    );
    let mut frag = Fragmentizer::new(50 * 1024 * 1024);

    let _ = expect_wants_write(&mut append, &mut frag, None);
    expect_wants_read(&mut append, &mut frag, None);
    expect_wants_stream(&mut append, &mut frag, Some(b"+ go\r\n"));

    // NOTE: an empty slice signals a short source.
    let err = expect_complete_err(&mut append, &mut frag, Some(&[]));
    assert!(matches!(err, ImapMessageAppendStreamError::ShortMessage));
}

#[test]
fn append_stream_bye_returns_bye_error() {
    let mut append = ImapMessageAppendStream::new(
        "INBOX".try_into().expect("valid mailbox"),
        15,
        ImapMessageAppendOptions::default(),
    );
    let mut frag = Fragmentizer::new(50 * 1024 * 1024);

    let _ = expect_wants_write(&mut append, &mut frag, None);
    expect_wants_read(&mut append, &mut frag, None);
    expect_wants_stream(&mut append, &mut frag, Some(b"+ go\r\n"));
    let _ = expect_wants_write(&mut append, &mut frag, None);
    expect_wants_read(&mut append, &mut frag, None);

    let err = expect_complete_err(&mut append, &mut frag, Some(b"* BYE shutting down\r\n"));
    let ImapMessageAppendStreamError::Bye(text) = err else {
        panic!("expected ImapMessageAppendStreamError::Bye, got {err:?}");
    };
    assert_eq!(text, "shutting down");
}

fn expect_wants_write(
    cor: &mut ImapMessageAppendStream,
    frag: &mut Fragmentizer,
    arg: Option<&[u8]>,
) -> Vec<u8> {
    match cor.resume(frag, arg) {
        ImapCoroutineState::Yielded(ImapMessageAppendStreamYield::WantsWrite(bytes)) => bytes,
        state => panic!("expected WantsWrite, got {state:?}"),
    }
}

fn expect_wants_read(
    cor: &mut ImapMessageAppendStream,
    frag: &mut Fragmentizer,
    arg: Option<&[u8]>,
) {
    match cor.resume(frag, arg) {
        ImapCoroutineState::Yielded(ImapMessageAppendStreamYield::WantsRead) => {}
        state => panic!("expected WantsRead, got {state:?}"),
    }
}

fn expect_wants_stream(
    cor: &mut ImapMessageAppendStream,
    frag: &mut Fragmentizer,
    arg: Option<&[u8]>,
) {
    match cor.resume(frag, arg) {
        ImapCoroutineState::Yielded(ImapMessageAppendStreamYield::WantsStream) => {}
        state => panic!("expected WantsStream, got {state:?}"),
    }
}

fn expect_complete_ok(
    cor: &mut ImapMessageAppendStream,
    frag: &mut Fragmentizer,
    arg: Option<&[u8]>,
) -> ImapMessageAppendOutput {
    match cor.resume(frag, arg) {
        ImapCoroutineState::Complete(Ok(value)) => value,
        state => panic!("expected Complete(Ok), got {state:?}"),
    }
}

fn expect_complete_err(
    cor: &mut ImapMessageAppendStream,
    frag: &mut Fragmentizer,
    arg: Option<&[u8]>,
) -> ImapMessageAppendStreamError {
    match cor.resume(frag, arg) {
        ImapCoroutineState::Complete(Err(err)) => err,
        state => panic!("expected Complete(Err), got {state:?}"),
    }
}

fn first_word(line: &str) -> &str {
    line.split_whitespace()
        .next()
        .expect("first whitespace-separated token")
}
