use imap_codec::fragmentizer::Fragmentizer;
use io_imap::coroutine::{ImapCoroutine, ImapCoroutineState};
use io_imap::rfc3501::append::{ImapMessageAppend, ImapMessageAppendOptions};
use io_imap::rfc3501::append_stream::{
    ImapMessageAppendStream, ImapMessageAppendStreamError, ImapMessageAppendStreamYield,
};
use io_imap::rfc3501::fetch_stream::{
    ImapMessageFetchStream, ImapMessageFetchStreamError, ImapMessageFetchStreamYield,
};
use io_imap::rfc3501::fetch_stream_batch::{
    parse_uid, ImapMessageFetchStreamBatch, ImapMessageFetchStreamBatchError,
    ImapMessageFetchStreamBatchYield,
};

/// What came of fetching a body from the given reads, which also serve
/// the octets that the driver streams itself.
fn fetch_body(reads: &[&str]) -> (Vec<u8>, Result<(), ImapMessageFetchStreamError>) {
    let mut cor = ImapMessageFetchStream::new(7, true);
    let mut frag = Fragmentizer::new(1024);
    let mut reads = reads.iter().map(|read| read.as_bytes().to_vec());
    let mut body = Vec::new();
    let mut arg: Option<Vec<u8>> = None;
    loop {
        match cor.resume(&mut frag, arg.take().as_deref()) {
            ImapCoroutineState::Yielded(ImapMessageFetchStreamYield::WantsWrite(bytes)) => {
                let line = String::from_utf8(bytes).expect("utf8 command");
                assert!(line.trim_end().ends_with("UID FETCH 7 BODY.PEEK[]"), "{line}");
            }
            ImapCoroutineState::Yielded(ImapMessageFetchStreamYield::WantsRead) => {
                arg = Some(reads.next().unwrap_or_default());
            }
            ImapCoroutineState::Yielded(ImapMessageFetchStreamYield::BodyChunk(bytes)) => {
                body.extend(bytes);
            }
            ImapCoroutineState::Yielded(ImapMessageFetchStreamYield::WantsStream { len }) => {
                let bytes = reads.next().unwrap_or_default();
                arg = if bytes.len() == len as usize { None } else { Some(Vec::new()) };
                body.extend(bytes);
            }
            ImapCoroutineState::Complete(result) => return (body, result),
        }
    }
}

#[test]
fn body_is_the_same_however_it_is_read() {
    let header = "* 1 FETCH (UID 7 BODY[] {11}\r\n";
    let whole = format!("{header}a\r\nb {{3}}\r\nc)\r\na1 OK done\r\n");
    let (body, result) = fetch_body(&[&whole]);
    assert!(result.is_ok());
    assert_eq!(body, b"a\r\nb {3}\r\nc");

    let (body, result) = fetch_body(&[header, "a\r\nb {3}\r\nc", ")\r\na1 ", "OK done\r\n"]);
    assert!(result.is_ok());
    assert_eq!(body, b"a\r\nb {3}\r\nc");

    let trailer = ")\r\na1 OK done\r\n";
    let reads = ["* 1 FETCH (UID 7 BO", "DY[] {11}\r", "\na\r\n", "b {3}\r\nc", trailer];
    let (body, result) = fetch_body(&reads);
    assert!(result.is_ok());
    assert_eq!(body, b"a\r\nb {3}\r\nc");
}

#[test]
fn empty_body_is_handed_over() {
    let (body, result) = fetch_body(&["* 1 FETCH (BODY[] {0}\r\n)\r\na1 OK done\r\n"]);
    assert!(result.is_ok());
    assert!(body.is_empty());
}

#[test]
fn other_lines_are_ignored() {
    let reply = "* 3 EXISTS\r\n* @@@\r\n\
                 * 1 FETCH (BODY[] {2}\r\nhi)\r\n\
                 * 4 EXISTS\r\na1 OK done\r\n";
    let (body, result) = fetch_body(&[reply]);
    assert!(result.is_ok());
    assert_eq!(body, b"hi");
}

#[test]
fn fetch_stream_failures() {
    let header = "* 1 FETCH (BODY[] {5}\r\n";
    assert!(matches!(
        fetch_body(&["a1 BAD what\r\n"]).1,
        Err(ImapMessageFetchStreamError::Bad(text)) if text == "what"
    ));
    assert!(matches!(
        fetch_body(&["* BYE gone\r\n"]).1,
        Err(ImapMessageFetchStreamError::Bye(text)) if text == "gone"
    ));
    assert!(matches!(fetch_body(&[]).1, Err(ImapMessageFetchStreamError::MissingTagged)));
    assert!(matches!(
        fetch_body(&[header, "hello", ""]).1,
        Err(ImapMessageFetchStreamError::MissingTagged)
    ));
    assert!(matches!(
        fetch_body(&[header, "hel"]).1,
        Err(ImapMessageFetchStreamError::ShortBody)
    ));
    assert!(matches!(
        fetch_body(&[header, "hello", ")\r\n* 2 FETCH (BODY[] {1}\r\n"]).1,
        Err(ImapMessageFetchStreamError::UnexpectedLiteral)
    ));
}

/// What came of fetching bodies in a batch from the given reads.
fn fetch_batch(
    mut cor: ImapMessageFetchStreamBatch,
    reads: &[&str],
) -> (Vec<(u32, Vec<u8>)>, Result<(), ImapMessageFetchStreamBatchError>) {
    let mut frag = Fragmentizer::new(1024);
    let mut reads = reads.iter().map(|read| read.as_bytes().to_vec());
    let mut done = Vec::new();
    let mut current: Option<(u32, Vec<u8>)> = None;
    let mut arg: Option<Vec<u8>> = None;
    loop {
        match cor.resume(&mut frag, arg.take().as_deref()) {
            ImapCoroutineState::Yielded(ImapMessageFetchStreamBatchYield::WantsWrite(_)) => {}
            ImapCoroutineState::Yielded(ImapMessageFetchStreamBatchYield::WantsRead) => {
                arg = Some(reads.next().unwrap_or_default());
            }
            ImapCoroutineState::Yielded(ImapMessageFetchStreamBatchYield::MessageStart { uid }) => {
                assert!(current.is_none());
                current = Some((uid, Vec::new()));
            }
            ImapCoroutineState::Yielded(ImapMessageFetchStreamBatchYield::BodyChunk(bytes)) => {
                current.as_mut().expect("a message").1.extend(bytes);
            }
            ImapCoroutineState::Yielded(ImapMessageFetchStreamBatchYield::WantsStream { len }) => {
                let bytes = reads.next().unwrap_or_default();
                arg = if bytes.len() == len as usize { None } else { Some(Vec::new()) };
                current.as_mut().expect("a message").1.extend(bytes);
            }
            ImapCoroutineState::Yielded(ImapMessageFetchStreamBatchYield::MessageEnd) => {
                done.push(current.take().expect("a message"));
            }
            ImapCoroutineState::Complete(result) => return (done, result),
        }
    }
}

fn batch() -> ImapMessageFetchStreamBatch {
    ImapMessageFetchStreamBatch::new("1:*".try_into().unwrap(), true)
}

#[test]
fn batch_is_the_same_however_it_is_read() {
    let expected = vec![(10, b"hello".to_vec()), (11, Vec::new()), (12, b"x)\r\n".to_vec())];
    let whole = "* 1 FETCH (UID 10 BODY[] {5}\r\nhello)\r\n\
                 * 2 FETCH (UID 11 BODY[] {0}\r\n)\r\n\
                 * 3 FETCH (UID 12 BODY[] {4}\r\nx)\r\n)\r\na1 OK done\r\n";
    let (bodies, result) = fetch_batch(batch(), &[whole]);
    assert!(result.is_ok());
    assert_eq!(bodies, expected);

    let reads = [
        "* 1 FETCH (UID 10 BODY[] {5}\r\nhe",
        "llo",
        ")\r\n* 2 FETCH (UID 11 BODY[] {0}\r\n)\r\n* 3 FETCH (UID 12 BODY[] {4}\r\n",
        "x)\r\n",
        ")\r\na1 OK done\r\n",
    ];
    let (bodies, result) = fetch_batch(batch(), &reads);
    assert!(result.is_ok());
    assert_eq!(bodies, expected);
}

#[test]
fn batch_of_one() {
    let mut cor = ImapMessageFetchStreamBatch::single(34);
    let mut frag = Fragmentizer::new(1024);
    match cor.resume(&mut frag, None) {
        ImapCoroutineState::Yielded(ImapMessageFetchStreamBatchYield::WantsWrite(bytes)) => {
            let line = String::from_utf8(bytes).expect("utf8 command");
            assert!(line.trim_end().ends_with("UID FETCH 34 (UID BODY.PEEK[])"), "{line}");
        }
        state => panic!("expected WantsWrite, got {state:?}"),
    }
}

#[test]
fn batch_failures() {
    let header = "* 1 FETCH (UID 10 BODY[] {5}\r\n";
    assert!(matches!(
        fetch_batch(batch(), &["a1 BAD what\r\n"]).1,
        Err(ImapMessageFetchStreamBatchError::Bad(_))
    ));
    assert!(matches!(
        fetch_batch(batch(), &["* BYE gone\r\n"]).1,
        Err(ImapMessageFetchStreamBatchError::Bye(_))
    ));
    assert!(matches!(
        fetch_batch(batch(), &[]).1,
        Err(ImapMessageFetchStreamBatchError::MissingTagged)
    ));
    assert!(matches!(
        fetch_batch(batch(), &[header, "hel"]).1,
        Err(ImapMessageFetchStreamBatchError::ShortBody)
    ));
}

#[test]
fn parse_uid_edge_cases() {
    assert_eq!(parse_uid(b"* 1 FETCH (uid 4294967295 BODY[] {1}"), Some(u32::MAX));
    assert_eq!(parse_uid(b"* 1 FETCH (UID 4294967296 BODY[] {1}"), None);
    assert_eq!(parse_uid(b"* 1 FETCH (UID  5 BODY[] {1}"), Some(5));
    assert_eq!(parse_uid(b"* 1 FETCH (UID BODY[] {1}"), None);
    assert_eq!(parse_uid(b"UID 1"), Some(1));
    assert_eq!(parse_uid(b""), None);
}

fn header_of(opts: ImapMessageAppendOptions, len: u32) -> String {
    let mailbox = "R\u{e9}ponses".to_string().try_into().unwrap();
    let mut cor = ImapMessageAppendStream::new(mailbox, len, opts);
    let mut frag = Fragmentizer::new(1024);
    match cor.resume(&mut frag, None) {
        ImapCoroutineState::Yielded(ImapMessageAppendStreamYield::WantsWrite(bytes)) => {
            String::from_utf8(bytes).expect("utf8 header")
        }
        state => panic!("expected WantsWrite, got {state:?}"),
    }
}

#[test]
fn append_header_announces_the_message() {
    let header = header_of(ImapMessageAppendOptions::default(), 0);
    assert!(header.ends_with(" APPEND R&AOk-ponses {0}\r\n"), "{header}");
    let header = header_of(ImapMessageAppendOptions::default(), u32::MAX);
    assert!(header.ends_with(" APPEND R&AOk-ponses {4294967295}\r\n"), "{header}");
    let flags = vec![imap_codec::imap_types::flag::Flag::Seen];
    let opts = ImapMessageAppendOptions { flags, date: None, non_sync: true };
    let header = header_of(opts, 120);
    assert!(header.ends_with(" APPEND R&AOk-ponses (\\Seen) {120+}\r\n"), "{header}");
}

#[test]
fn append_failures() {
    let new = || {
        let mailbox = "INBOX".try_into().unwrap();
        let mut cor = ImapMessageAppendStream::new(mailbox, 3, ImapMessageAppendOptions::default());
        let mut frag = Fragmentizer::new(1024);
        let _ = cor.resume(&mut frag, None);
        (cor, frag)
    };
    let (mut cor, mut frag) = new();
    match cor.resume(&mut frag, Some(b"a1 BAD what\r\n")) {
        ImapCoroutineState::Complete(Err(ImapMessageAppendStreamError::Bad(_))) => {}
        state => panic!("expected Bad, got {state:?}"),
    }
    let (mut cor, mut frag) = new();
    match cor.resume(&mut frag, Some(b"")) {
        ImapCoroutineState::Complete(Err(ImapMessageAppendStreamError::Send(_))) => {}
        state => panic!("expected Send, got {state:?}"),
    }
    let (mut cor, mut frag) = new();
    let _ = cor.resume(&mut frag, Some(b"+ go\r\n"));
    match cor.resume(&mut frag, None) {
        ImapCoroutineState::Yielded(ImapMessageAppendStreamYield::WantsWrite(bytes)) => {
            assert_eq!(bytes, b"\r\n");
        }
        state => panic!("expected WantsWrite, got {state:?}"),
    }
    match cor.resume(&mut frag, Some(b"+ again\r\n")) {
        ImapCoroutineState::Complete(Err(ImapMessageAppendStreamError::MissingTagged)) => {}
        state => panic!("expected MissingTagged, got {state:?}"),
    }
}

#[test]
fn both_appends_write_the_same_header() {
    let mut frag = Fragmentizer::new(1024);
    let mailbox = "INBOX".try_into().unwrap();
    let mut append = ImapMessageAppend::new(mailbox, 9, ImapMessageAppendOptions::default());
    let line = match append.resume(&mut frag, None) {
        ImapCoroutineState::Yielded(
            io_imap::rfc3501::append::ImapMessageAppendYield::WantsWrite(bytes),
        ) => String::from_utf8(bytes).unwrap(),
        state => panic!("expected WantsWrite, got {state:?}"),
    };
    let (_, rest) = line.split_once(' ').unwrap();
    assert_eq!(rest, "APPEND INBOX {9}\r\n");
}
