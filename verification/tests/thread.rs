use std::str;

use imap_codec::fragmentizer::Fragmentizer;
use imap_codec::imap_types::extensions::thread::{Thread, ThreadingAlgorithm};
use imap_codec::imap_types::search::SearchKey;
use io_imap::coroutine::{ImapCoroutine, ImapCoroutineState, ImapYield};
use io_imap::rfc5256::thread::{ImapMessageThread, ImapMessageThreadError, ImapMessageThreadOptions};

fn algorithm() -> ThreadingAlgorithm<'static> {
    ThreadingAlgorithm::OrderedSubject
}

fn search_criteria() -> imap_codec::imap_types::core::Vec1<SearchKey<'static>> {
    imap_codec::imap_types::core::Vec1::try_from(vec![SearchKey::All])
        .expect("one search criterion")
}

/// Happy path: server returns `* THREAD ...` then tagged OK.
#[test]
fn success_returns_threads() {
    let mut thread = ImapMessageThread::new(
        algorithm(),
        search_criteria(),
        ImapMessageThreadOptions::default(),
    );
    let mut frag = Fragmentizer::new(50 * 1024 * 1024);

    let bytes = expect_wants_write(&mut thread, &mut frag, None);
    let line = str::from_utf8(&bytes).expect("utf8 command");
    let tag = first_word(line).to_owned();
    assert!(line.contains("THREAD ORDEREDSUBJECT"));

    expect_wants_read(&mut thread, &mut frag);

    let reply = format!("* THREAD (1)(2 3)\r\n{tag} OK THREAD completed\r\n");
    let threads = expect_complete_ok(&mut thread, &mut frag, reply.as_bytes());
    assert_eq!(2, threads.len());
}

/// Server skips `* THREAD`: surface MissingData.
#[test]
fn missing_data_returns_missing_data_error() {
    let mut thread = ImapMessageThread::new(
        algorithm(),
        search_criteria(),
        ImapMessageThreadOptions::default(),
    );
    let mut frag = Fragmentizer::new(50 * 1024 * 1024);

    let bytes = expect_wants_write(&mut thread, &mut frag, None);
    let tag = first_word(str::from_utf8(&bytes).expect("utf8 command")).to_owned();

    expect_wants_read(&mut thread, &mut frag);

    let reply = format!("{tag} OK THREAD completed\r\n");
    let err = expect_complete_err(&mut thread, &mut frag, reply.as_bytes());
    assert!(matches!(err, ImapMessageThreadError::MissingData));
}

/// Tagged NO: surface text verbatim.
#[test]
fn thread_tagged_no_returns_no_error() {
    let mut thread = ImapMessageThread::new(
        algorithm(),
        search_criteria(),
        ImapMessageThreadOptions::default(),
    );
    let mut frag = Fragmentizer::new(50 * 1024 * 1024);

    let bytes = expect_wants_write(&mut thread, &mut frag, None);
    let tag = first_word(str::from_utf8(&bytes).expect("utf8 command")).to_owned();

    expect_wants_read(&mut thread, &mut frag);

    let reply = format!("{tag} NO no mailbox selected\r\n");
    let err = expect_complete_err(&mut thread, &mut frag, reply.as_bytes());
    let ImapMessageThreadError::No(text) = err else {
        panic!("expected ImapMessageThreadError::No, got {err:?}");
    };
    assert_eq!(text, "no mailbox selected");
}

/// BYE before tagged response: surface text verbatim.
#[test]
fn thread_bye_returns_bye_error() {
    let mut thread = ImapMessageThread::new(
        algorithm(),
        search_criteria(),
        ImapMessageThreadOptions::default(),
    );
    let mut frag = Fragmentizer::new(50 * 1024 * 1024);

    let _ = expect_wants_write(&mut thread, &mut frag, None);
    expect_wants_read(&mut thread, &mut frag);

    let err = expect_complete_err(&mut thread, &mut frag, b"* BYE going down\r\n");
    let ImapMessageThreadError::Bye(text) = err else {
        panic!("expected ImapMessageThreadError::Bye, got {err:?}");
    };
    assert_eq!(text, "going down");
}

// --- utils

fn expect_wants_write(
    cor: &mut ImapMessageThread,
    frag: &mut Fragmentizer,
    arg: Option<&[u8]>,
) -> Vec<u8> {
    match cor.resume(frag, arg) {
        ImapCoroutineState::Yielded(ImapYield::WantsWrite(bytes)) => bytes,
        state => panic!("expected WantsWrite, got {state:?}"),
    }
}

fn expect_wants_read(cor: &mut ImapMessageThread, frag: &mut Fragmentizer) {
    match cor.resume(frag, None) {
        ImapCoroutineState::Yielded(ImapYield::WantsRead) => {}
        state => panic!("expected WantsRead, got {state:?}"),
    }
}

fn expect_complete_ok(
    cor: &mut ImapMessageThread,
    frag: &mut Fragmentizer,
    reply: &[u8],
) -> Vec<Thread> {
    match cor.resume(frag, Some(reply)) {
        ImapCoroutineState::Complete(Ok(value)) => value,
        state => panic!("expected Complete(Ok), got {state:?}"),
    }
}

fn expect_complete_err(
    cor: &mut ImapMessageThread,
    frag: &mut Fragmentizer,
    reply: &[u8],
) -> ImapMessageThreadError {
    match cor.resume(frag, Some(reply)) {
        ImapCoroutineState::Complete(Err(err)) => err,
        state => panic!("expected Complete(Err), got {state:?}"),
    }
}

fn first_word(line: &str) -> &str {
    line.split_whitespace()
        .next()
        .expect("first whitespace-separated token")
}
