use imap_codec::fragmentizer::Fragmentizer;
use io_imap::coroutine::{ImapCoroutine, ImapCoroutineState, ImapYield};
use io_imap::rfc3501::raw::{ImapRaw, ImapRawError};

fn run(command: &[u8], replies: &[&[u8]]) -> Result<String, ImapRawError> {
    let mut raw = ImapRaw::new(command)?;
    let mut frag = Fragmentizer::new(1024);
    match raw.resume(&mut frag, None) {
        ImapCoroutineState::Yielded(ImapYield::WantsWrite(bytes)) => assert_eq!(bytes, command),
        state => panic!("expected WantsWrite, got {state:?}"),
    }
    let mut replies = replies.iter();
    let mut step = raw.resume(&mut frag, None);
    loop {
        match step {
            ImapCoroutineState::Yielded(ImapYield::WantsRead) => {
                step = raw.resume(&mut frag, Some(replies.next().expect("another reply")));
            }
            ImapCoroutineState::Complete(result) => return result,
            state => panic!("unexpected {state:?}"),
        }
    }
}

#[test]
fn response_is_verbatim_however_it_is_read() {
    let reply = b"* 1 FETCH (BODY[] {4}\r\na\r\nb)\r\na1 OK done\r\n";
    let pieces: Vec<&[u8]> = reply.chunks(1).collect();
    let whole = run(b"a1 FETCH 1 BODY[]\r\n", &[reply]).unwrap();
    assert_eq!(whole.as_bytes(), reply);
    assert_eq!(run(b"a1 FETCH 1 BODY[]\r\n", &pieces).unwrap(), whole);
}

#[test]
fn tags_inside_literals_complete_nothing() {
    let reply = b"* 1 FETCH (BODY[] {10}\r\na1 OK no\r\n)\r\na1 OK done\r\n";
    let out = run(b"a1 FETCH 1 BODY[]\r\n", &[reply]).unwrap();
    assert_eq!(out.as_bytes(), reply);
}

#[test]
fn foreign_tags_complete_nothing() {
    let replies: [&[u8]; 2] = [b"b7 OK what\r\n", b"a1 OK done\r\n"];
    assert_eq!(run(b"a1 NOOP\r\n", &replies).unwrap(), "b7 OK what\r\na1 OK done\r\n");
}

#[test]
fn bytes_that_are_no_text_are_replaced() {
    let out = run(b"a1 NOOP\r\n", &[b"* OK \xff\r\na1 OK done\r\n"]).unwrap();
    assert_eq!(out, "* OK \u{fffd}\r\na1 OK done\r\n");
}

#[test]
fn text_is_returned_as_it_is() {
    let reply = "* OK \u{e9}t\u{e9} \u{1f600}\r\na1 OK done\r\n";
    assert_eq!(run(b"a1 NOOP\r\n", &[reply.as_bytes()]).unwrap(), reply);
}

#[test]
fn every_tag_is_awaited() {
    let raw = ImapRaw::new(b"a1 NOOP\r\na2 LOGIN {3+}\r\nbob {1+}\r\nx\r\na3 LOGOUT\r\n").unwrap();
    let tags = [b"a1".to_vec(), b"a2".to_vec(), b"a3".to_vec()];
    assert_eq!(raw.pending().len(), 3);
    assert!(tags.iter().all(|tag| raw.pending().contains(tag)));
}

#[test]
fn raw_rejections() {
    assert!(matches!(ImapRaw::new(b"\r\n").err(), Some(ImapRawError::MissingTag)));
    assert!(matches!(ImapRaw::new(b"* NOOP\r\n").err(), Some(ImapRawError::MissingTag)));
    assert!(matches!(ImapRaw::new(b"+ NOOP\r\n").err(), Some(ImapRawError::MissingTag)));
    assert!(matches!(ImapRaw::new(b"").err(), Some(ImapRawError::NoCommand)));
    assert!(matches!(
        ImapRaw::new(b"a1 LOGIN {9}\r\nshort").err(),
        Some(ImapRawError::IncompleteCommand)
    ));
    assert!(matches!(
        ImapRaw::new(b"a1 NOOP\r\na2 NOOP").err(),
        Some(ImapRawError::IncompleteCommand)
    ));
    assert!(matches!(
        ImapRaw::new(b"a1 NOOP\r\na2 NOOP\r\na1 NOOP\r\n").err(),
        Some(ImapRawError::DuplicateTag(tag)) if tag == "a1"
    ));
    assert!(matches!(run(b"a1 NOOP\r\n", &[b"* 1 EXISTS\r\n", b""]), Err(ImapRawError::Eof)));
}
