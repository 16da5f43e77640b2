use std::str;

use imap_codec::fragmentizer::Fragmentizer;
use imap_codec::imap_types::sequence::SequenceSet;
use io_imap::coroutine::{ImapCoroutine, ImapCoroutineState};
use io_imap::rfc3501::fetch_stream_batch::{
    parse_uid, ImapMessageFetchStreamBatch, ImapMessageFetchStreamBatchError,
    ImapMessageFetchStreamBatchYield,
};

/// Drives the coroutine over a single canned reply, collecting `(uid, body)`
/// pairs. Panics on any error.
fn run_ok(cmd_set: &str, reply_after_tag: impl Fn(&str) -> String) -> Vec<(u32, Vec<u8>)> {
    let set: SequenceSet = cmd_set.try_into().unwrap();
    let mut cor = ImapMessageFetchStreamBatch::new(set, true);
    let mut frag = Fragmentizer::new(50 * 1024 * 1024);

    // First resume writes the command; capture its tag.
    let cmd = match cor.resume(&mut frag, None) {
        ImapCoroutineState::Yielded(ImapMessageFetchStreamBatchYield::WantsWrite(b)) => b,
        s => panic!("expected WantsWrite, got {s:?}"),
    };
    let tag = str::from_utf8(&cmd)
        .unwrap()
        .split_whitespace()
        .next()
        .unwrap()
        .to_owned();
    let reply = reply_after_tag(&tag);

    let mut out: Vec<(u32, Vec<u8>)> = Vec::new();
    let mut cur_uid: Option<u32> = None;
    let mut cur_body: Vec<u8> = Vec::new();
    let mut fed = false;
    let mut arg: Option<&[u8]> = None;
    let reply_bytes = reply.as_bytes();

    loop {
        match cor.resume(&mut frag, arg.take()) {
            ImapCoroutineState::Complete(Ok(())) => break,
            ImapCoroutineState::Complete(Err(e)) => panic!("unexpected error: {e:?}"),
            ImapCoroutineState::Yielded(ImapMessageFetchStreamBatchYield::WantsRead) => {
                // Feed the whole reply on the first read, EOF-empty after.
                arg = if !fed {
                    fed = true;
                    Some(reply_bytes)
                } else {
                    Some(&[])
                };
            }
            ImapCoroutineState::Yielded(ImapMessageFetchStreamBatchYield::WantsWrite(_)) => {}
            ImapCoroutineState::Yielded(ImapMessageFetchStreamBatchYield::MessageStart {
                uid,
            }) => {
                cur_uid = Some(uid);
                cur_body.clear();
            }
            ImapCoroutineState::Yielded(ImapMessageFetchStreamBatchYield::BodyChunk(b)) => {
                cur_body.extend_from_slice(&b);
            }
            ImapCoroutineState::Yielded(ImapMessageFetchStreamBatchYield::WantsStream {
                ..
            }) => {
                // The reply is fed in one go, so bodies always arrive as
                // BodyChunk from pending; a WantsStream here means the test's
                // canned reply was too fragmented — signal short.
                arg = Some(&[]);
            }
            ImapCoroutineState::Yielded(ImapMessageFetchStreamBatchYield::MessageEnd) => {
                out.push((cur_uid.take().unwrap(), core::mem::take(&mut cur_body)));
            }
        }
    }
    out
}

#[test]
fn command_requests_uid_and_body_peek() {
    let set: SequenceSet = "1,2,3".try_into().unwrap();
    let mut cor = ImapMessageFetchStreamBatch::new(set, true);
    let mut frag = Fragmentizer::new(50 * 1024 * 1024);
    let cmd = match cor.resume(&mut frag, None) {
        ImapCoroutineState::Yielded(ImapMessageFetchStreamBatchYield::WantsWrite(b)) => b,
        s => panic!("expected WantsWrite, got {s:?}"),
    };
    let line = str::from_utf8(&cmd).unwrap();
    // imap-codec collapses `1,2,3` to the range `1:3`.
    assert!(line.contains("UID FETCH 1:3 (UID BODY.PEEK[])"), "{line}");
}

#[test]
fn streams_two_bodies_routed_by_uid() {
    let bodies = run_ok("10,11", |tag| {
        format!(
            "* 1 FETCH (UID 10 BODY[] {{5}}\r\nhello)\r\n\
             * 2 FETCH (UID 11 BODY[] {{5}}\r\nworld)\r\n\
             {tag} OK FETCH completed\r\n"
        )
    });
    assert_eq!(bodies.len(), 2);
    assert_eq!(bodies[0], (10, b"hello".to_vec()));
    assert_eq!(bodies[1], (11, b"world".to_vec()));
}

#[test]
fn routes_by_uid_not_by_position() {
    // Server returns them in a different order than requested: routing must
    // follow the UID on each line, not arrival order.
    let bodies = run_ok("10,11", |tag| {
        format!(
            "* 2 FETCH (UID 11 BODY[] {{3}}\r\nBBB)\r\n\
             * 1 FETCH (UID 10 BODY[] {{3}}\r\nAAA)\r\n\
             {tag} OK done\r\n"
        )
    });
    assert_eq!(bodies, vec![(11, b"BBB".to_vec()), (10, b"AAA".to_vec())]);
}

#[test]
fn skips_interleaved_untagged_and_missing_uids() {
    // A requested UID with no data simply never appears; an interleaved
    // untagged EXPUNGE between items is skipped.
    let bodies = run_ok("10,11,12", |tag| {
        format!(
            "* 1 FETCH (UID 10 BODY[] {{2}}\r\nhi)\r\n\
             * 3 EXPUNGE\r\n\
             * 4 FETCH (UID 12 BODY[] {{2}}\r\nyo)\r\n\
             {tag} OK done\r\n"
        )
    });
    assert_eq!(bodies, vec![(10, b"hi".to_vec()), (12, b"yo".to_vec())]);
}

#[test]
fn empty_result_completes_clean() {
    let bodies = run_ok("99", |tag| format!("{tag} OK nothing\r\n"));
    assert!(bodies.is_empty());
}

#[test]
fn tagged_no_is_an_error() {
    let set: SequenceSet = "1".try_into().unwrap();
    let mut cor = ImapMessageFetchStreamBatch::new(set, true);
    let mut frag = Fragmentizer::new(50 * 1024 * 1024);
    let cmd = match cor.resume(&mut frag, None) {
        ImapCoroutineState::Yielded(ImapMessageFetchStreamBatchYield::WantsWrite(b)) => b,
        s => panic!("{s:?}"),
    };
    let tag = str::from_utf8(&cmd)
        .unwrap()
        .split_whitespace()
        .next()
        .unwrap()
        .to_owned();
    // WantsRead, then feed a NO.
    assert!(matches!(
        cor.resume(&mut frag, None),
        ImapCoroutineState::Yielded(ImapMessageFetchStreamBatchYield::WantsRead)
    ));
    let reply = format!("{tag} NO mailbox gone\r\n");
    match cor.resume(&mut frag, Some(reply.as_bytes())) {
        ImapCoroutineState::Complete(Err(ImapMessageFetchStreamBatchError::No(t))) => {
            assert_eq!(t, "mailbox gone")
        }
        s => panic!("expected No error, got {s:?}"),
    }
}

#[test]
fn body_line_without_uid_errs_for_fallback() {
    // A body FETCH line whose UID we cannot parse must error (so the caller
    // falls back to per-message) rather than misroute the body.
    let set: SequenceSet = "1".try_into().unwrap();
    let mut cor = ImapMessageFetchStreamBatch::new(set, true);
    let mut frag = Fragmentizer::new(50 * 1024 * 1024);
    let _ = cor.resume(&mut frag, None); // WantsWrite
    let _ = cor.resume(&mut frag, None); // WantsRead
    let reply = "* 1 FETCH (BODY[] {3}\r\nxxx)\r\nA1 OK done\r\n";
    match cor.resume(&mut frag, Some(reply.as_bytes())) {
        ImapCoroutineState::Complete(Err(ImapMessageFetchStreamBatchError::UidMissing)) => {}
        s => panic!("expected UidMissing, got {s:?}"),
    }
}

#[test]
fn parse_uid_finds_the_token() {
    assert_eq!(parse_uid(b"* 12 FETCH (UID 34 BODY[] {5}\r\n"), Some(34));
    assert_eq!(
        parse_uid(b"* 1 FETCH (FLAGS (\\Seen) UID 7 BODY[] {2}\r\n"),
        Some(7)
    );
    assert_eq!(parse_uid(b"* 1 FETCH (BODY[] {2}\r\n"), None);
    // A "UID"-like substring in a word must not match (word boundary).
    assert_eq!(parse_uid(b"* 1 FETCH (XUID 9 BODY[] {2}\r\n"), None);
}
