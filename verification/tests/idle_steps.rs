use std::sync::atomic::AtomicBool;
use std::sync::Arc;
use std::time::Duration;

use imap_codec::fragmentizer::Fragmentizer;
use io_imap::coroutine::{ImapCoroutine, ImapCoroutineState};
use io_imap::rfc2177::idle::{
    ImapIdle, ImapIdleError, ImapIdleOptions, ImapIdleYield, IDLE_DEFAULT_TIMEOUT_SECS,
};
use io_imap::response::ServerData;

fn idle(timeout: Option<Duration>) -> ImapIdle {
    ImapIdle::new(Arc::new(AtomicBool::new(false)), ImapIdleOptions { timeout })
}

/// Brings the coroutine to where it reads events; returns the tag.
fn granted(cor: &mut ImapIdle, frag: &mut Fragmentizer) -> String {
    let tag = match cor.advance(frag, None, false, false) {
        ImapCoroutineState::Yielded(ImapIdleYield::WantsWrite(bytes)) => {
            let line = String::from_utf8(bytes).expect("utf8 command");
            line.split_whitespace().next().expect("tag").to_string()
        }
        state => panic!("expected WantsWrite, got {state:?}"),
    };
    match cor.advance(frag, Some(b"+ idling\r\n"), false, false) {
        ImapCoroutineState::Yielded(ImapIdleYield::WantsRead) => tag,
        state => panic!("expected WantsRead, got {state:?}"),
    }
}

fn says_done(state: ImapCoroutineState<ImapIdleYield, Result<(), ImapIdleError>>) {
    match state {
        ImapCoroutineState::Yielded(ImapIdleYield::WantsWrite(bytes)) => {
            assert_eq!(bytes, b"DONE\r\n");
        }
        state => panic!("expected DONE, got {state:?}"),
    }
}

#[test]
fn stopping_says_done_whatever_was_read() {
    let mut cor = idle(None);
    let mut frag = Fragmentizer::new(1024);
    let tag = granted(&mut cor, &mut frag);
    says_done(cor.advance(&mut frag, Some(b"* 5 EXISTS\r\n"), true, false));
    let reply = format!("{tag} OK done\r\n");
    match cor.advance(&mut frag, Some(reply.as_bytes()), true, false) {
        ImapCoroutineState::Complete(Ok(())) => {}
        state => panic!("expected Complete, got {state:?}"),
    }
}

#[test]
fn refresh_starts_a_new_idle() {
    let mut cor = idle(None);
    let mut frag = Fragmentizer::new(1024);
    let tag = granted(&mut cor, &mut frag);
    says_done(cor.advance(&mut frag, None, false, true));
    let reply = format!("{tag} OK done\r\n");
    match cor.advance(&mut frag, Some(reply.as_bytes()), false, true) {
        ImapCoroutineState::Yielded(ImapIdleYield::WantsWrite(bytes)) => {
            let line = String::from_utf8(bytes).expect("utf8 command");
            assert!(line.ends_with(" IDLE\r\n"));
            assert_ne!(line.split_whitespace().next().unwrap(), tag);
        }
        state => panic!("expected WantsWrite, got {state:?}"),
    }
}

#[test]
fn refresh_follows_the_clock() {
    let mut cor = idle(Some(Duration::ZERO));
    let mut frag = Fragmentizer::new(1024);
    let _ = cor.resume(&mut frag, None);
    says_done(cor.resume(&mut frag, Some(b"+ idling\r\n")));
}

#[test]
fn refresh_interval() {
    let cor = idle(None);
    assert_eq!(cor.timeout(), Duration::from_secs(IDLE_DEFAULT_TIMEOUT_SECS));
    assert!(cor.is_over(Duration::from_secs(29)));
    assert!(!cor.is_over(Duration::from_millis(28_999)));
    let cor = idle(Some(Duration::from_millis(5)));
    assert_eq!(cor.timeout(), Duration::from_millis(5));
    assert!(cor.is_over(Duration::from_millis(5)));
    assert!(!cor.is_over(Duration::from_micros(4_999)));
}

#[test]
fn idling_goes_on() {
    let mut cor = idle(None);
    let mut frag = Fragmentizer::new(1024);
    let _ = granted(&mut cor, &mut frag);
    match cor.advance(&mut frag, Some(b"* 5 EXISTS\r\n* OK still here\r\n* 2 EX"), false, false) {
        ImapCoroutineState::Yielded(ImapIdleYield::Event(event)) => {
            assert!(matches!(event.data[..], [ServerData::Exists(5)]));
            assert_eq!(event.untagged[0].text, "still here");
        }
        state => panic!("expected Event, got {state:?}"),
    }
    match cor.advance(&mut frag, Some(b"PUNGE\r\n"), false, false) {
        ImapCoroutineState::Yielded(ImapIdleYield::Event(event)) => {
            assert!(matches!(event.data[..], [ServerData::Expunge(2)]));
        }
        state => panic!("expected Event, got {state:?}"),
    }
}

#[test]
fn idle_refusals() {
    let refused = |reply: &[u8]| {
        let mut cor = idle(None);
        let mut frag = Fragmentizer::new(1024);
        let _ = cor.resume(&mut frag, None);
        match cor.resume(&mut frag, Some(reply)) {
            ImapCoroutineState::Complete(Err(err)) => err,
            state => panic!("expected Complete(Err), got {state:?}"),
        }
    };
    assert!(matches!(refused(b"a1 OK what\r\n"), ImapIdleError::UnexpectedTagged));
    assert!(matches!(refused(b"a1 NO no\r\n"), ImapIdleError::No(_)));
    assert!(matches!(refused(b"* BYE gone\r\n"), ImapIdleError::Bye(_)));
    assert!(matches!(refused(b""), ImapIdleError::Send(_)));
}

#[test]
fn reading_failures() {
    let failed = |frag: &mut Fragmentizer, poison: bool, bytes: &[u8]| {
        let mut cor = idle(None);
        let _ = granted(&mut cor, frag);
        if poison {
            frag.poison_message();
        }
        match cor.advance(frag, Some(bytes), false, false) {
            ImapCoroutineState::Complete(Err(err)) => err,
            state => panic!("expected Complete(Err), got {state:?}"),
        }
    };
    let long = b"* 1 FETCH (BODY[] \"0123456789\")\r\n";
    let frag = &mut Fragmentizer::new(1024);
    assert!(matches!(failed(frag, false, b""), ImapIdleError::Eof));
    // While events are read, a line that cannot be decoded is a failure.
    let frag = &mut Fragmentizer::new(1024);
    assert!(matches!(failed(frag, false, b"* @@@\r\n"), ImapIdleError::DecodingFailure(_)));
    let frag = &mut Fragmentizer::new(16);
    assert!(matches!(failed(frag, false, long), ImapIdleError::MessageTooLong(_)));
    // The message that a poisoning hits is the next one.
    let frag = &mut Fragmentizer::new(1024);
    let err = failed(frag, true, b"* 1 EXISTS\r\n* 2 EXISTS\r\n");
    assert!(matches!(err, ImapIdleError::MessageIsPoisoned(_)), "{err:?}");
}

#[test]
fn done_failures() {
    let ended = |reply: &[u8]| {
        let mut cor = idle(None);
        let mut frag = Fragmentizer::new(1024);
        let _ = granted(&mut cor, &mut frag);
        says_done(cor.advance(&mut frag, None, true, false));
        match cor.advance(&mut frag, Some(reply), true, false) {
            ImapCoroutineState::Complete(Err(err)) => err,
            state => panic!("expected Complete(Err), got {state:?}"),
        }
    };
    assert!(matches!(ended(b"a1 BAD bad\r\n"), ImapIdleError::Bad(_)));
    assert!(matches!(ended(b"* BYE gone\r\n"), ImapIdleError::Bye(_)));
    assert!(matches!(ended(b"+ what\r\n"), ImapIdleError::MissingTagged));
    assert!(matches!(ended(b""), ImapIdleError::Send(_)));
}
