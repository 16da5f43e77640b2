use std::str;

use imap_codec::fragmentizer::Fragmentizer;
use imap_codec::imap_types::search::SearchKey;
use io_imap::coroutine::{ImapCoroutine, ImapCoroutineState, ImapYield};
use io_imap::rfc3501::search::{ImapMessageSearch, ImapMessageSearchError, ImapMessageSearchOptions};

fn criteria() -> imap_codec::imap_types::core::Vec1<SearchKey<'static>> {
    imap_codec::imap_types::core::Vec1::try_from(vec![SearchKey::All]).expect("one criterion")
}

/// Happy path: server returns `* SEARCH ...` line then tagged OK.
#[test]
fn success_returns_ids() {
    let mut search = ImapMessageSearch::new(criteria(), ImapMessageSearchOptions::default());
    let mut frag = Fragmentizer::new(50 * 1024 * 1024);

    let bytes = expect_wants_write(&mut search, &mut frag, None);
    let line = str::from_utf8(&bytes).expect("utf8 command");
    let tag = first_word(line).to_owned();
    assert!(line.contains("SEARCH "));

    expect_wants_read(&mut search, &mut frag);

    let reply = format!("* SEARCH 1 2 5\r\n{tag} OK SEARCH completed\r\n");
    let ids = expect_complete_ok(&mut search, &mut frag, reply.as_bytes());
    assert_eq!(3, ids.len());
    assert_eq!(1, ids[0]);
    assert_eq!(5, ids[2]);
}

/// UID flag flips the wire keyword to `UID SEARCH`.
#[test]
fn uid_variant_sends_uid_search() {
    let mut search = ImapMessageSearch::new(criteria(), ImapMessageSearchOptions { uid: true });
    let mut frag = Fragmentizer::new(50 * 1024 * 1024);

    let bytes = expect_wants_write(&mut search, &mut frag, None);
    let line = str::from_utf8(&bytes).expect("utf8 command");
    assert!(line.contains("UID SEARCH "));
}

/// Tagged NO: surface text verbatim.
#[test]
fn search_tagged_no_returns_no_error() {
    let mut search = ImapMessageSearch::new(criteria(), ImapMessageSearchOptions::default());
    let mut frag = Fragmentizer::new(50 * 1024 * 1024);

    let bytes = expect_wants_write(&mut search, &mut frag, None);
    let tag = first_word(str::from_utf8(&bytes).expect("utf8 command")).to_owned();

    expect_wants_read(&mut search, &mut frag);

    let reply = format!("{tag} NO no mailbox selected\r\n");
    let err = expect_complete_err(&mut search, &mut frag, reply.as_bytes());
    let ImapMessageSearchError::No(text) = err else {
        panic!("expected ImapMessageSearchError::No, got {err:?}");
    };
    assert_eq!(text, "no mailbox selected");
}

/// BYE before tagged response: surface text verbatim.
#[test]
fn search_bye_returns_bye_error() {
    let mut search = ImapMessageSearch::new(criteria(), ImapMessageSearchOptions::default());
    let mut frag = Fragmentizer::new(50 * 1024 * 1024);

    let _ = expect_wants_write(&mut search, &mut frag, None);
    expect_wants_read(&mut search, &mut frag);

    let err = expect_complete_err(&mut search, &mut frag, b"* BYE going down\r\n");
    let ImapMessageSearchError::Bye(text) = err else {
        panic!("expected ImapMessageSearchError::Bye, got {err:?}");
    };
    assert_eq!(text, "going down");
}

// --- utils

fn expect_wants_write(
    cor: &mut ImapMessageSearch,
    frag: &mut Fragmentizer,
    arg: Option<&[u8]>,
) -> Vec<u8> {
    match cor.resume(frag, arg) {
        ImapCoroutineState::Yielded(ImapYield::WantsWrite(bytes)) => bytes,
        state => panic!("expected WantsWrite, got {state:?}"),
    }
}

fn expect_wants_read(cor: &mut ImapMessageSearch, frag: &mut Fragmentizer) {
    match cor.resume(frag, None) {
        ImapCoroutineState::Yielded(ImapYield::WantsRead) => {}
        state => panic!("expected WantsRead, got {state:?}"),
    }
}

fn expect_complete_ok(
    cor: &mut ImapMessageSearch,
    frag: &mut Fragmentizer,
    reply: &[u8],
) -> Vec<u32> {
    match cor.resume(frag, Some(reply)) {
        ImapCoroutineState::Complete(Ok(value)) => value,
        state => panic!("expected Complete(Ok), got {state:?}"),
    }
}

fn expect_complete_err(
    cor: &mut ImapMessageSearch,
    frag: &mut Fragmentizer,
    reply: &[u8],
) -> ImapMessageSearchError {
    match cor.resume(frag, Some(reply)) {
        ImapCoroutineState::Complete(Err(err)) => err,
        state => panic!("expected Complete(Err), got {state:?}"),
    }
}

fn first_word(line: &str) -> &str {
    line.split_whitespace()
        .next()
        .expect("first whitespace-separated token")
}
