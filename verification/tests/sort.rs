use std::str;

use imap_codec::fragmentizer::Fragmentizer;
use imap_codec::imap_types::extensions::sort::{SortCriterion, SortKey};
use imap_codec::imap_types::search::SearchKey;
use io_imap::coroutine::{ImapCoroutine, ImapCoroutineState, ImapYield};
use io_imap::rfc5256::order::date_sort_key;
use io_imap::rfc5256::sort::{ImapMessageSort, ImapMessageSortError, ImapMessageSortOptions};

fn arrival() -> imap_codec::imap_types::core::Vec1<SortCriterion> {
    imap_codec::imap_types::core::Vec1::try_from(vec![SortCriterion {
        reverse: false,
        key: SortKey::Arrival,
    }])
    .expect("one sort criterion")
}

fn search_criteria() -> imap_codec::imap_types::core::Vec1<SearchKey<'static>> {
    imap_codec::imap_types::core::Vec1::try_from(vec![SearchKey::All])
        .expect("one search criterion")
}

fn first_word(line: &str) -> &str {
    line.split_whitespace()
        .next()
        .expect("first whitespace-separated token")
}

#[test]
fn sort_success_returns_ids() {
    let mut sort = ImapMessageSort::new(
        arrival(),
        search_criteria(),
        ImapMessageSortOptions::default(),
    );
    let mut frag = Fragmentizer::new(50 * 1024 * 1024);

    let bytes = wants_write(&mut sort, &mut frag, None);
    let line = str::from_utf8(&bytes).expect("utf8 command");
    let tag = first_word(line).to_owned();
    assert!(line.contains("SORT "));
    assert!(!line.contains("SEARCH"));

    wants_read(&mut sort, &mut frag, None);

    let reply = format!("* SORT 3 1 2\r\n{tag} OK SORT completed\r\n");
    let ids = complete_ok(&mut sort, &mut frag, Some(reply.as_bytes()));
    assert_eq!(
        vec![3, 1, 2],
        ids,
        "server order preserved verbatim"
    );
}

#[test]
fn sort_uid_variant_sends_uid_sort() {
    let mut sort = ImapMessageSort::new(
        arrival(),
        search_criteria(),
        ImapMessageSortOptions {
            uid: true,
            ..Default::default()
        },
    );
    let mut frag = Fragmentizer::new(50 * 1024 * 1024);

    let bytes = wants_write(&mut sort, &mut frag, None);
    let line = str::from_utf8(&bytes).expect("utf8 command");
    assert!(line.contains("UID SORT "));
}

#[test]
fn sort_missing_data_returns_missing_data_error() {
    let mut sort = ImapMessageSort::new(
        arrival(),
        search_criteria(),
        ImapMessageSortOptions::default(),
    );
    let mut frag = Fragmentizer::new(50 * 1024 * 1024);

    let bytes = wants_write(&mut sort, &mut frag, None);
    let tag = first_word(str::from_utf8(&bytes).expect("utf8 command")).to_owned();

    wants_read(&mut sort, &mut frag, None);

    let reply = format!("{tag} OK SORT completed\r\n");
    let err = complete_err(&mut sort, &mut frag, reply.as_bytes());
    assert!(matches!(err, ImapMessageSortError::MissingData));
}

#[test]
fn sort_tagged_no_returns_no_error() {
    let mut sort = ImapMessageSort::new(
        arrival(),
        search_criteria(),
        ImapMessageSortOptions::default(),
    );
    let mut frag = Fragmentizer::new(50 * 1024 * 1024);

    let bytes = wants_write(&mut sort, &mut frag, None);
    let tag = first_word(str::from_utf8(&bytes).expect("utf8 command")).to_owned();

    wants_read(&mut sort, &mut frag, None);

    let reply = format!("{tag} NO no mailbox selected\r\n");
    let err = complete_err(&mut sort, &mut frag, reply.as_bytes());
    let ImapMessageSortError::No(text) = err else {
        panic!("expected ImapMessageSortError::No, got {err:?}");
    };
    assert_eq!(text, "no mailbox selected");
}

#[test]
fn fallback_searches_then_fetches_then_sorts() {
    let mut sort = ImapMessageSort::new(
        arrival(),
        search_criteria(),
        ImapMessageSortOptions {
            uid: true,
            fallback: true,
        },
    );
    let mut frag = Fragmentizer::new(50 * 1024 * 1024);

    let bytes = wants_write(&mut sort, &mut frag, None);
    let line = str::from_utf8(&bytes).expect("utf8 command");
    let search_tag = first_word(line).to_owned();
    assert!(line.contains("UID SEARCH"));

    wants_read(&mut sort, &mut frag, None);

    let search_reply = format!("* SEARCH 1 2\r\n{search_tag} OK SEARCH completed\r\n");
    let bytes = wants_write(&mut sort, &mut frag, Some(search_reply.as_bytes()));
    let line = str::from_utf8(&bytes).expect("utf8 command");
    let fetch_tag = first_word(line).to_owned();
    assert!(line.contains("UID FETCH"));
    assert!(line.contains("INTERNALDATE"));
    assert!(line.contains("UID"));

    wants_read(&mut sort, &mut frag, None);

    // NOTE: UID 1 arrived later than UID 2, so arrival-ascending
    // sorts to [2, 1].
    let fetch_reply = format!(
        "* 1 FETCH (UID 1 INTERNALDATE \"02-Feb-2021 00:00:00 +0000\")\r\n\
         * 2 FETCH (UID 2 INTERNALDATE \"01-Jan-2020 00:00:00 +0000\")\r\n\
         {fetch_tag} OK FETCH completed\r\n"
    );
    let ids = complete_ok(&mut sort, &mut frag, Some(fetch_reply.as_bytes()));
    assert_eq!(vec![2, 1], ids);
}

#[test]
fn fallback_reverse_flips_order() {
    let criteria = imap_codec::imap_types::core::Vec1::try_from(vec![SortCriterion {
        reverse: true,
        key: SortKey::Arrival,
    }])
    .expect("one criterion");
    let mut sort = ImapMessageSort::new(
        criteria,
        search_criteria(),
        ImapMessageSortOptions {
            uid: true,
            fallback: true,
        },
    );
    let mut frag = Fragmentizer::new(50 * 1024 * 1024);

    let bytes = wants_write(&mut sort, &mut frag, None);
    let search_tag = first_word(str::from_utf8(&bytes).expect("utf8 command")).to_owned();
    wants_read(&mut sort, &mut frag, None);

    let search_reply = format!("* SEARCH 1 2\r\n{search_tag} OK SEARCH completed\r\n");
    let bytes = wants_write(&mut sort, &mut frag, Some(search_reply.as_bytes()));
    let fetch_tag = first_word(str::from_utf8(&bytes).expect("utf8 command")).to_owned();
    wants_read(&mut sort, &mut frag, None);

    let fetch_reply = format!(
        "* 1 FETCH (UID 1 INTERNALDATE \"02-Feb-2021 00:00:00 +0000\")\r\n\
         * 2 FETCH (UID 2 INTERNALDATE \"01-Jan-2020 00:00:00 +0000\")\r\n\
         {fetch_tag} OK FETCH completed\r\n"
    );
    let ids = complete_ok(&mut sort, &mut frag, Some(fetch_reply.as_bytes()));
    assert_eq!(vec![1, 2], ids);
}

#[test]
fn fallback_empty_search_returns_empty_without_fetch() {
    let mut sort = ImapMessageSort::new(
        arrival(),
        search_criteria(),
        ImapMessageSortOptions {
            uid: true,
            fallback: true,
        },
    );
    let mut frag = Fragmentizer::new(50 * 1024 * 1024);

    let bytes = wants_write(&mut sort, &mut frag, None);
    let search_tag = first_word(str::from_utf8(&bytes).expect("utf8 command")).to_owned();
    wants_read(&mut sort, &mut frag, None);

    let search_reply = format!("* SEARCH\r\n{search_tag} OK SEARCH completed\r\n");
    let ids = complete_ok(&mut sort, &mut frag, Some(search_reply.as_bytes()));
    assert!(ids.is_empty());
}

#[test]
fn date_sort_key_is_chronological_not_lexical() {
    // Same format iCloud fixtures use: the weekday leads the string,
    // so a lexical compare orders by weekday name, not by instant.
    let mon = date_sort_key(Some(b"Mon, 13 Jul 2026 09:00:00 +0200"));
    let fri = date_sort_key(Some(b"Fri, 17 Jul 2026 16:20:00 +0200"));

    // Chronologically 13 Jul precedes 17 Jul...
    assert!(mon < fri, "13 Jul must sort before 17 Jul");
    // ...even though lexically the raw headers compare the other way.
    assert!(*b"Fri, 17 Jul 2026 16:20:00 +0200" < *b"Mon, 13 Jul 2026 09:00:00 +0200");

    // Offsets are honoured: 10:00 +0000 is after 11:00 +0200 (09:00Z).
    let utc = date_sort_key(Some(b"Mon, 13 Jul 2026 10:00:00 +0000"));
    let cest = date_sort_key(Some(b"Mon, 13 Jul 2026 11:00:00 +0200"));
    assert!(cest < utc, "09:00Z must sort before 10:00Z");

    // Absent or unparsable dates fall to the bottom, deterministically.
    assert_eq!(date_sort_key(None), None);
    assert_eq!(date_sort_key(Some(b"not a date")), None);
    assert!(date_sort_key(None) < mon);
}

fn wants_write(
    cor: &mut ImapMessageSort,
    frag: &mut Fragmentizer,
    arg: Option<&[u8]>,
) -> Vec<u8> {
    match cor.resume(frag, arg) {
        ImapCoroutineState::Yielded(ImapYield::WantsWrite(bytes)) => bytes,
        state => panic!("expected WantsWrite, got {state:?}"),
    }
}

fn wants_read(cor: &mut ImapMessageSort, frag: &mut Fragmentizer, arg: Option<&[u8]>) {
    match cor.resume(frag, arg) {
        ImapCoroutineState::Yielded(ImapYield::WantsRead) => {}
        state => panic!("expected WantsRead, got {state:?}"),
    }
}

fn complete_ok(
    cor: &mut ImapMessageSort,
    frag: &mut Fragmentizer,
    arg: Option<&[u8]>,
) -> Vec<u32> {
    match cor.resume(frag, arg) {
        ImapCoroutineState::Complete(Ok(value)) => value,
        state => panic!("expected Complete(Ok), got {state:?}"),
    }
}

fn complete_err(
    cor: &mut ImapMessageSort,
    frag: &mut Fragmentizer,
    reply: &[u8],
) -> ImapMessageSortError {
    match cor.resume(frag, Some(reply)) {
        ImapCoroutineState::Complete(Err(err)) => err,
        state => panic!("expected Complete(Err), got {state:?}"),
    }
}
