use std::collections::BTreeMap;

use imap_codec::fragmentizer::Fragmentizer;
use imap_codec::imap_types::extensions::sort::{SortCriterion, SortKey};
use imap_codec::imap_types::search::SearchKey;
use io_imap::command::ItemName;
use io_imap::coroutine::{ImapCoroutine, ImapCoroutineState, ImapYield};
use io_imap::rfc3501::fetch::ImapMessageFetchError;
use io_imap::rfc3501::search::ImapMessageSearchError;
use io_imap::rfc5256::order::{
    date_sort_key, keys_from_facts, rank, sort_places, ItemFact, Rank, SortField, SortKeys, SortOrder,
};
use io_imap::rfc5256::sort::{
    fetch_items, local_sort, ImapMessageSort, ImapMessageSortError, ImapMessageSortOptions,
};

fn keys(size: Option<u32>, date: Option<i64>, subject: Option<&str>) -> SortKeys {
    SortKeys {
        arrival: None,
        size,
        date: date.map(|seconds| (seconds, 0)),
        subject: subject.map(|subject| subject.as_bytes().to_vec()),
        uid: None,
    }
}

fn by(field: SortField) -> SortOrder {
    SortOrder { reverse: false, field }
}

fn reversed(field: SortField) -> SortOrder {
    SortOrder { reverse: true, field }
}

#[test]
fn first_criterion_that_differs_decides() {
    let orders = vec![by(SortField::Size), reversed(SortField::Subject)];
    let a = keys(Some(1), None, Some("b"));
    let b = keys(Some(1), None, Some("a"));
    let c = keys(Some(2), None, Some("z"));
    assert_eq!(rank(&orders, &a, &b), Rank::Before);
    assert_eq!(rank(&orders, &b, &a), Rank::After);
    assert_eq!(rank(&orders, &a, &c), Rank::Before);
    assert_eq!(rank(&orders, &a, &a), Rank::Same);
}

#[test]
fn absent_keys_rank_first() {
    let orders = vec![by(SortField::Subject)];
    let none = keys(None, None, None);
    let empty = keys(None, None, Some(""));
    let prefix = keys(None, None, Some("ab"));
    let longer = keys(None, None, Some("abc"));
    assert_eq!(rank(&orders, &none, &empty), Rank::Before);
    assert_eq!(rank(&orders, &empty, &prefix), Rank::Before);
    assert_eq!(rank(&orders, &prefix, &longer), Rank::Before);
    assert_eq!(rank(&orders, &longer, &none), Rank::After);
}

#[test]
fn addresses_defer_to_the_date() {
    let orders = vec![by(SortField::From), by(SortField::DisplayTo)];
    let early = keys(None, Some(1), None);
    let late = keys(None, Some(2), None);
    assert_eq!(rank(&orders, &early, &late), Rank::Before);
    // The date decides in ascending order, whatever the criteria do.
    let orders = vec![reversed(SortField::Cc)];
    assert_eq!(rank(&orders, &early, &late), Rank::Before);
}

#[test]
fn sorting_is_stable() {
    let all = [3, 1, 2, 1, 3, 2].map(|size| keys(Some(size), None, None));
    let places = sort_places(&vec![by(SortField::Size)], &all.iter().collect());
    assert_eq!(places, vec![1, 3, 2, 5, 0, 4]);
    let places = sort_places(&vec![reversed(SortField::Size)], &all.iter().collect());
    assert_eq!(places, vec![0, 4, 2, 5, 1, 3]);
}

#[test]
fn sorting_keeps_every_message() {
    let all: Vec<SortKeys> = (0..1000u32).map(|i| keys(Some(i * 7919 % 101), None, None)).collect();
    let mut places = sort_places(&vec![by(SortField::Size)], &all.iter().collect());
    let sizes: Vec<u32> = places.iter().map(|place| all[*place].size.unwrap()).collect();
    assert!(sizes.windows(2).all(|pair| pair[0] <= pair[1]));
    places.sort();
    assert_eq!(places, (0..1000).collect::<Vec<usize>>());
}

#[test]
fn ids_without_uid_are_dropped_in_uid_mode() {
    let mut fetched = BTreeMap::new();
    fetched.insert(1, SortKeys { uid: Some(30), ..keys(Some(9), None, None) });
    fetched.insert(2, keys(Some(5), None, None));
    fetched.insert(3, SortKeys { uid: Some(10), ..keys(Some(1), None, None) });
    let orders = vec![by(SortField::Size)];
    assert_eq!(local_sort(&orders, &fetched, true), vec![10, 30]);
    assert_eq!(local_sort(&orders, &fetched, false), vec![3, 2, 1]);
    assert!(local_sort(&orders, &BTreeMap::new(), false).is_empty());
}

#[test]
fn fetched_items_suffice() {
    let orders = vec![by(SortField::Size), by(SortField::Arrival), reversed(SortField::Size)];
    assert_eq!(
        fetch_items(&orders, true),
        vec![ItemName::Rfc822Size, ItemName::InternalDate, ItemName::Envelope, ItemName::Uid]
    );
    assert_eq!(fetch_items(&vec![by(SortField::Subject)], false), vec![ItemName::Envelope]);
    assert_eq!(fetch_items(&vec![by(SortField::DisplayFrom)], false), vec![ItemName::Envelope]);
}

#[test]
fn first_fact_counts() {
    let envelope = |date: Option<&str>, subject: Option<&str>| ItemFact::Envelope {
        date: date.map(|date| date.as_bytes().to_vec()),
        subject: subject.map(|subject| subject.as_bytes().to_vec()),
    };
    let keys = keys_from_facts(vec![
        ItemFact::Other,
        envelope(None, Some("first")),
        ItemFact::Rfc822Size(5),
        envelope(Some("Thu, 1 Jan 1970 00:00:09 +0000"), Some("second")),
        ItemFact::Rfc822Size(6),
        ItemFact::InternalDate((7, 0)),
        ItemFact::InternalDate((8, 0)),
    ]);
    assert_eq!(keys.arrival, Some((7, 0)));
    assert_eq!(keys.size, Some(5));
    assert_eq!(keys.date, Some((9, 0)));
    assert_eq!(keys.subject, Some(b"first".to_vec()));
    assert_eq!(keys.uid, None);
}

#[test]
fn date_sort_key_is_the_instant() {
    let key = date_sort_key(Some(b"Thu, 1 Jan 1970 01:00:01 +0100"));
    assert_eq!(key, Some((1, 0)));
    assert_eq!(date_sort_key(Some(b"\xff\xfe")), None);
}

struct Server {
    cor: ImapMessageSort,
    frag: Fragmentizer,
    line: String,
}

impl Server {
    fn new(keys: Vec<(bool, SortKey)>, uid: bool) -> Server {
        let orders: Vec<SortCriterion> =
            keys.into_iter().map(|(reverse, key)| SortCriterion { reverse, key }).collect();
        let criteria = vec![SearchKey::All].try_into().expect("one criterion");
        let opts = ImapMessageSortOptions { uid, fallback: true };
        let cor = ImapMessageSort::new(orders.try_into().expect("one criterion"), criteria, opts);
        let mut server = Server { cor, frag: Fragmentizer::new(1 << 20), line: String::new() };
        assert!(server.resume(None).is_none());
        server
    }

    /// Resumes, and notes what the coroutine writes.
    fn resume(&mut self, arg: Option<&[u8]>) -> Option<Result<Vec<u32>, ImapMessageSortError>> {
        match self.cor.resume(&mut self.frag, arg) {
            ImapCoroutineState::Yielded(ImapYield::WantsWrite(bytes)) => {
                self.line = String::from_utf8(bytes).expect("utf8 command");
                None
            }
            ImapCoroutineState::Yielded(ImapYield::WantsRead) => None,
            ImapCoroutineState::Complete(result) => Some(result),
        }
    }

    fn answer(&mut self, untagged: &str) -> Option<Result<Vec<u32>, ImapMessageSortError>> {
        let tag = self.line.split_whitespace().next().expect("tag");
        let reply = format!("{untagged}{tag} OK done\r\n");
        self.resume(Some(reply.as_bytes()))
    }
}

fn fetch_line(seq: u32, date: &str, subject: &str) -> String {
    let envelope = format!("(\"{date}\" \"{subject}\" NIL NIL NIL NIL NIL NIL NIL NIL)");
    format!("* {seq} FETCH (ENVELOPE {envelope})\r\n")
}

#[test]
fn fallback_sorts_by_subject_then_date() {
    let mut server = Server::new(vec![(false, SortKey::Subject)], false);
    assert!(server.line.ends_with(" SEARCH ALL\r\n"));
    assert!(server.answer("* SEARCH 1 2 3\r\n").is_none());
    assert!(server.line.trim_end().ends_with("FETCH 1:3 ENVELOPE"), "{}", server.line);
    let reply = fetch_line(1, "Fri, 17 Jul 2026 16:20:00 +0200", "same")
        + &fetch_line(2, "Mon, 13 Jul 2026 09:00:00 +0200", "same")
        + &fetch_line(3, "Sun, 1 Jan 2040 00:00:00 +0000", "first");
    let ids = server.answer(&reply).expect("complete").unwrap();
    assert_eq!(ids, vec![3, 2, 1]);
}

#[test]
fn fallback_sorts_by_size_and_uid() {
    let mut server = Server::new(vec![(true, SortKey::Size)], true);
    assert!(server.answer("* SEARCH 10 11 12\r\n").is_none());
    let line = server.line.trim_end().to_string();
    assert!(line.ends_with("UID FETCH 10:12 (RFC822.SIZE ENVELOPE UID)"), "{line}");
    let reply = "* 1 FETCH (RFC822.SIZE 5 UID 10)\r\n\
                 * 2 FETCH (RFC822.SIZE 7 UID 11)\r\n\
                 * 3 FETCH (RFC822.SIZE 5 UID 12)\r\n";
    let ids = server.answer(reply).expect("complete").unwrap();
    assert_eq!(ids, vec![11, 10, 12]);
}

#[test]
fn fallback_fetches_in_chunks() {
    let mut server = Server::new(vec![(true, SortKey::Size)], false);
    let ids: Vec<String> = (1..=300).map(|id: u32| id.to_string()).collect();
    assert!(server.answer(&format!("* SEARCH {}\r\n", ids.join(" "))).is_none());
    assert!(server.line.contains(" FETCH 1:255 ("), "{}", server.line);
    assert!(server.answer("* 1 FETCH (RFC822.SIZE 1)\r\n* 9 FETCH (RFC822.SIZE 5)\r\n").is_none());
    assert!(server.line.contains(" FETCH 256:300 ("), "{}", server.line);
    // What a later chunk tells of a message replaces what an earlier one
    // told.
    let reply = "* 256 FETCH (RFC822.SIZE 3)\r\n* 9 FETCH (RFC822.SIZE 2)\r\n";
    let ids = server.answer(reply).expect("complete").unwrap();
    assert_eq!(ids, vec![256, 9, 1]);
}

#[test]
fn fallback_fetches_no_more_than_needed() {
    let sizes = "* 1 FETCH (RFC822.SIZE 1 UID 7)\r\n* 2 FETCH (RFC822.SIZE 2 UID 7)\r\n";
    let mut server = Server::new(vec![(true, SortKey::Size)], true);
    let ids: Vec<String> = (1..=255).map(|id: u32| id.to_string()).collect();
    assert!(server.answer(&format!("* SEARCH {}\r\n", ids.join(" "))).is_none());
    assert!(server.line.contains(" FETCH 1:255 ("), "{}", server.line);
    // Messages may share a UID: each of them counts.
    assert_eq!(server.answer(sizes).expect("complete").unwrap(), vec![7, 7]);

    let mut server = Server::new(vec![(true, SortKey::Size)], true);
    let ids: Vec<String> = (1..=256).map(|id: u32| id.to_string()).collect();
    assert!(server.answer(&format!("* SEARCH {}\r\n", ids.join(" "))).is_none());
    assert!(server.answer("").is_none());
    assert!(server.line.contains(" FETCH 256 ("), "{}", server.line);
    assert_eq!(server.answer(sizes).expect("complete").unwrap(), vec![7, 7]);
}

#[test]
fn fallback_failures() {
    let mut server = Server::new(vec![(false, SortKey::Date)], false);
    let tag = server.line.split_whitespace().next().unwrap().to_string();
    match server.resume(Some(format!("{tag} NO no\r\n").as_bytes())) {
        Some(Err(ImapMessageSortError::Search(ImapMessageSearchError::No(_)))) => {}
        other => panic!("expected Search, got {other:?}"),
    }
    let mut server = Server::new(vec![(false, SortKey::Date)], false);
    assert!(server.answer("* SEARCH 1\r\n").is_none());
    match server.resume(Some(b"* BYE gone\r\n")) {
        Some(Err(ImapMessageSortError::Fetch(ImapMessageFetchError::Bye(_)))) => {}
        other => panic!("expected Fetch, got {other:?}"),
    }
}
