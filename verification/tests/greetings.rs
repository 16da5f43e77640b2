use imap_codec::fragmentizer::Fragmentizer;
use io_imap::coroutine::{ImapCoroutine, ImapCoroutineState, ImapYield};
use io_imap::rfc3501::capability::ImapCapabilityGetError;
use io_imap::rfc3501::greeting::{
    ImapGreetingGet, ImapGreetingGetError, ImapGreetingGetOptions, ImapGreetingOk,
};
use io_imap::rfc3501::greeting_with_capability::{
    ImapGreetingWithCapabilityGet, ImapGreetingWithCapabilityGetError,
};

fn greet(frag: &mut Fragmentizer, bytes: &[u8]) -> Result<ImapGreetingOk, ImapGreetingGetError> {
    let mut cor = ImapGreetingGet::new(ImapGreetingGetOptions::default());
    match cor.resume(frag, Some(bytes)) {
        ImapCoroutineState::Complete(result) => result,
        state => panic!("expected Complete, got {state:?}"),
    }
}

#[test]
fn greeting_may_come_in_pieces() {
    let mut cor = ImapGreetingGet::new(ImapGreetingGetOptions::default());
    let mut frag = Fragmentizer::new(1024);
    for piece in [&b"* "[..], b"OK [CAPABILITY IMAP4REV1", b" IDLE] hi"] {
        match cor.resume(&mut frag, Some(piece)) {
            ImapCoroutineState::Yielded(ImapYield::WantsRead) => {}
            state => panic!("expected WantsRead, got {state:?}"),
        }
    }
    match cor.resume(&mut frag, Some(b"\r\n")) {
        ImapCoroutineState::Complete(Ok(ok)) => assert_eq!(ok.capability.len(), 2),
        state => panic!("expected Complete, got {state:?}"),
    }
}

#[test]
fn greeting_without_capabilities_is_enough_by_default() {
    let ok = greet(&mut Fragmentizer::new(1024), b"* OK hello\r\n").unwrap();
    assert!(ok.capability.is_empty());
    assert!(!ok.pre_authenticated);
}

#[test]
fn greeting_that_is_none_fails() {
    let result = greet(&mut Fragmentizer::new(1024), b"HTTP/1.1 400 Bad Request\r\n");
    let Err(ImapGreetingGetError::DecodingFailure(bytes)) = result else {
        panic!("expected DecodingFailure");
    };
    assert_eq!(bytes.declassify(), b"HTTP/1.1 400 Bad Request\r\n");
}

#[test]
fn greeting_over_the_limit_fails() {
    let result = greet(&mut Fragmentizer::new(8), b"* OK a long greeting\r\n");
    assert!(matches!(result, Err(ImapGreetingGetError::MessageTooLong(_))));
}

#[test]
fn poisoned_greeting_fails() {
    let mut frag = Fragmentizer::new(1024);
    frag.poison_message();
    let result = greet(&mut frag, b"* OK hello\r\n");
    assert!(matches!(result, Err(ImapGreetingGetError::MessageIsPoisoned(_))));
}

fn with_capability(replies: &[&str]) -> Result<ImapGreetingOk, ImapGreetingWithCapabilityGetError> {
    let mut cor = ImapGreetingWithCapabilityGet::new();
    let mut frag = Fragmentizer::new(1024);
    let mut tag = String::new();
    let mut replies = replies.iter();
    let mut step = cor.resume(&mut frag, None);
    loop {
        match step {
            ImapCoroutineState::Yielded(ImapYield::WantsRead) => {
                let reply = replies.next().expect("another reply").replace("{tag}", &tag);
                step = cor.resume(&mut frag, Some(reply.as_bytes()));
            }
            ImapCoroutineState::Yielded(ImapYield::WantsWrite(bytes)) => {
                let line = String::from_utf8(bytes).expect("utf8 command");
                tag = line.split_whitespace().next().expect("tag").to_string();
                assert_eq!(line, format!("{tag} CAPABILITY\r\n"));
                step = cor.resume(&mut frag, None);
            }
            ImapCoroutineState::Complete(result) => return result,
        }
    }
}

#[test]
fn capabilities_of_the_greeting_are_enough() {
    let ok = with_capability(&["* PREAUTH [CAPABILITY IMAP4REV1 IDLE] hi\r\n"]).unwrap();
    assert_eq!(ok.capability.len(), 2);
    assert!(ok.pre_authenticated);
}

#[test]
fn missing_capabilities_are_asked_for() {
    let replies = ["* OK hi\r\n", "* CAPABILITY IMAP4REV1 IDLE MOVE\r\n{tag} OK done\r\n"];
    let ok = with_capability(&replies).unwrap();
    assert_eq!(ok.capability.len(), 3);
    assert!(!ok.pre_authenticated);
}

#[test]
fn failures_are_told_apart() {
    assert!(matches!(
        with_capability(&["* BYE no\r\n"]),
        Err(ImapGreetingWithCapabilityGetError::Greeting(ImapGreetingGetError::Bye(_)))
    ));
    assert!(matches!(
        with_capability(&["* OK hi\r\n", "{tag} NO no\r\n"]),
        Err(ImapGreetingWithCapabilityGetError::Capability(ImapCapabilityGetError::No(_)))
    ));
}

#[test]
fn greeting_reports_a_failed_round_trip() {
    let mut cor = ImapGreetingGet::new(ImapGreetingGetOptions { ensure_capabilities: true });
    let mut frag = Fragmentizer::new(1024);
    let _ = cor.resume(&mut frag, Some(b"* OK hi\r\n"));
    match cor.resume(&mut frag, Some(b"")) {
        ImapCoroutineState::Complete(Err(ImapGreetingGetError::Capability(err))) => {
            assert!(matches!(err, ImapCapabilityGetError::Send(_)));
        }
        state => panic!("expected Complete(Err), got {state:?}"),
    }
}
