use imap_codec::fragmentizer::Fragmentizer;
use io_imap::coroutine::{ImapCoroutine, ImapCoroutineState, ImapYield};
use io_imap::rfc3501::raw::{ImapRaw, ImapRawError, MAX_COMMAND_SIZE};

#[test]
fn command_is_written_verbatim() {
    let input = b"a1 CAPABILITY\r\n";
    let mut raw = ImapRaw::new(input).unwrap();
    let mut frag = Fragmentizer::new(MAX_COMMAND_SIZE);

    let bytes = expect_wants_write(&mut raw, &mut frag, None);
    assert_eq!(bytes, input);
}

#[test]
fn success_returns_full_raw_response() {
    let mut raw = ImapRaw::new(b"a1 CAPABILITY\r\n").unwrap();
    let mut frag = Fragmentizer::new(MAX_COMMAND_SIZE);

    let _ = expect_wants_write(&mut raw, &mut frag, None);
    expect_wants_read(&mut raw, &mut frag);

    let reply = "* CAPABILITY IMAP4REV1 IDLE\r\na1 OK CAPABILITY completed\r\n";
    let out = expect_complete_ok(&mut raw, &mut frag, reply.as_bytes());
    assert_eq!(out, reply);
}

#[test]
fn batch_waits_for_every_tag_out_of_order() {
    let input = b"a1 SELECT INBOX\r\na2 CAPABILITY\r\n";
    let mut raw = ImapRaw::new(input).unwrap();
    let mut frag = Fragmentizer::new(MAX_COMMAND_SIZE);

    let bytes = expect_wants_write(&mut raw, &mut frag, None);
    assert_eq!(bytes, input);

    expect_wants_read(&mut raw, &mut frag);

    // Server answers the second command before the first.
    let first = "* CAPABILITY IMAP4REV1\r\na2 OK CAPABILITY completed\r\n";
    expect_wants_read_after(&mut raw, &mut frag, first.as_bytes());

    let second = "* 3 EXISTS\r\na1 OK [READ-WRITE] SELECT completed\r\n";
    let out = expect_complete_ok(&mut raw, &mut frag, second.as_bytes());
    assert_eq!(out, format!("{first}{second}"));
}

#[test]
fn tagged_no_is_returned_as_payload_not_error() {
    let mut raw = ImapRaw::new(b"a1 SELECT INBOX\r\n").unwrap();
    let mut frag = Fragmentizer::new(MAX_COMMAND_SIZE);

    let _ = expect_wants_write(&mut raw, &mut frag, None);
    expect_wants_read(&mut raw, &mut frag);

    let reply = "a1 NO mailbox does not exist\r\n";
    let out = expect_complete_ok(&mut raw, &mut frag, reply.as_bytes());
    assert_eq!(out, reply);
    assert!(out.contains("NO mailbox does not exist"));
}

#[test]
fn response_with_literal_is_captured_verbatim() {
    let mut raw = ImapRaw::new(b"a1 FETCH 1 BODY[]\r\n").unwrap();
    let mut frag = Fragmentizer::new(MAX_COMMAND_SIZE);

    let _ = expect_wants_write(&mut raw, &mut frag, None);
    expect_wants_read(&mut raw, &mut frag);

    let reply = "* 1 FETCH (BODY[] {3}\r\nabc)\r\na1 OK FETCH completed\r\n";
    let out = expect_complete_ok(&mut raw, &mut frag, reply.as_bytes());
    assert_eq!(out, reply);
    assert!(out.contains("abc"));
}

#[test]
fn command_with_literal_is_parsed_for_its_tag() {
    // The command itself spans a synchronizing literal; its single tag
    // must still be extracted so exactly one completion is awaited.
    let input = b"a1 LOGIN {5}\r\nADMIN {5}\r\nsesam\r\n";
    let raw = ImapRaw::new(input).unwrap();
    assert_eq!(raw.pending().len(), 1);
    assert!(raw.pending().contains(&b"a1".to_vec()));
}

#[test]
fn missing_tag_is_rejected() {
    let err = expect_new_err(b"CAPABILITY\r\n");
    assert!(matches!(err, ImapRawError::MissingTag));
}

#[test]
fn duplicate_tag_is_rejected() {
    let err = expect_new_err(b"a1 NOOP\r\na1 NOOP\r\n");
    assert!(matches!(err, ImapRawError::DuplicateTag(tag) if tag == "a1"));
}

#[test]
fn unterminated_command_is_rejected() {
    let err = expect_new_err(b"a1 CAPABILITY");
    assert!(matches!(err, ImapRawError::IncompleteCommand));
}

#[test]
fn empty_input_is_rejected() {
    let err = expect_new_err(b"");
    assert!(matches!(err, ImapRawError::NoCommand));
}

fn expect_new_err(command: &[u8]) -> ImapRawError {
    match ImapRaw::new(command) {
        Ok(_) => panic!("expected ImapRaw::new to fail"),
        Err(err) => err,
    }
}

#[test]
fn eof_before_tagged_returns_error() {
    let mut raw = ImapRaw::new(b"a1 CAPABILITY\r\n").unwrap();
    let mut frag = Fragmentizer::new(MAX_COMMAND_SIZE);

    let _ = expect_wants_write(&mut raw, &mut frag, None);
    expect_wants_read(&mut raw, &mut frag);

    let err = expect_complete_err(&mut raw, &mut frag, b"");
    assert!(matches!(err, ImapRawError::Eof));
}

fn expect_wants_write(
    cor: &mut ImapRaw,
    frag: &mut Fragmentizer,
    arg: Option<&[u8]>,
) -> Vec<u8> {
    match cor.resume(frag, arg) {
        ImapCoroutineState::Yielded(ImapYield::WantsWrite(bytes)) => bytes,
        state => panic!("expected WantsWrite, got {state:?}"),
    }
}

fn expect_wants_read(cor: &mut ImapRaw, frag: &mut Fragmentizer) {
    match cor.resume(frag, None) {
        ImapCoroutineState::Yielded(ImapYield::WantsRead) => {}
        state => panic!("expected WantsRead, got {state:?}"),
    }
}

fn expect_wants_read_after(cor: &mut ImapRaw, frag: &mut Fragmentizer, reply: &[u8]) {
    match cor.resume(frag, Some(reply)) {
        ImapCoroutineState::Yielded(ImapYield::WantsRead) => {}
        state => panic!("expected WantsRead, got {state:?}"),
    }
}

fn expect_complete_ok(cor: &mut ImapRaw, frag: &mut Fragmentizer, reply: &[u8]) -> String {
    match cor.resume(frag, Some(reply)) {
        ImapCoroutineState::Complete(Ok(value)) => value,
        state => panic!("expected Complete(Ok), got {state:?}"),
    }
}

fn expect_complete_err(
    cor: &mut ImapRaw,
    frag: &mut Fragmentizer,
    reply: &[u8],
) -> ImapRawError {
    match cor.resume(frag, Some(reply)) {
        ImapCoroutineState::Complete(Err(err)) => err,
        state => panic!("expected Complete(Err), got {state:?}"),
    }
}
