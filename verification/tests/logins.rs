use imap_codec::fragmentizer::Fragmentizer;
use imap_codec::imap_types::response::Capability;
use io_imap::coroutine::{ImapCoroutine, ImapCoroutineState, ImapYield};
use io_imap::rfc2971::id::ImapServerIdError;
use io_imap::rfc3501::capability::ImapCapabilityGetError;
use io_imap::rfc3501::login::{ImapLogin, ImapLoginError, ImapLoginOptions};

/// What came of logging in, and the commands that were written, without
/// their tags. `{tag}` in a reply stands for the tag of the last one.
fn login(
    opts: ImapLoginOptions,
    replies: &[&str],
) -> (Vec<String>, Result<Vec<Capability<'static>>, ImapLoginError>) {
    let mut cor = ImapLogin::new("alice", "secret", opts).expect("valid credentials");
    let mut frag = Fragmentizer::new(1024);
    let mut replies = replies.iter();
    let mut commands = Vec::new();
    let mut tag = String::new();
    let mut step = cor.resume(&mut frag, None);
    loop {
        match step {
            ImapCoroutineState::Yielded(ImapYield::WantsWrite(bytes)) => {
                let line = String::from_utf8(bytes).expect("utf8 command");
                let (word, rest) = line.split_once(' ').expect("tag");
                tag = word.to_string();
                commands.push(rest.trim_end().to_string());
                step = cor.resume(&mut frag, None);
            }
            ImapCoroutineState::Yielded(ImapYield::WantsRead) => {
                let reply = replies.next().expect("another reply").replace("{tag}", &tag);
                step = cor.resume(&mut frag, Some(reply.as_bytes()));
            }
            ImapCoroutineState::Complete(result) => return (commands, result),
        }
    }
}

#[test]
fn credentials_that_cannot_be_sent() {
    for text in ["a\0b", "a\rb", "a\nb", "\0"] {
        assert!(ImapLogin::new(text, "secret", ImapLoginOptions::default()).is_err());
        assert!(ImapLogin::new("alice", text, ImapLoginOptions::default()).is_err());
    }
    assert!(ImapLogin::new("", "", ImapLoginOptions::default()).is_ok());
}

#[test]
fn answers_can_be_read_byte_by_byte() {
    let opts = ImapLoginOptions { ensure_capabilities: true, auto_id: None };
    let mut cor = ImapLogin::new("alice", "secret", opts).expect("valid credentials");
    let mut frag = Fragmentizer::new(1024);
    for reply in ["{tag} OK in\r\n", "* CAPABILITY IMAP4REV1 IDLE\r\n{tag} OK done\r\n"] {
        let mut step = cor.resume(&mut frag, None);
        for byte in reply.replace("{tag}", "a1").bytes() {
            step = cor.resume(&mut frag, Some(&[byte]));
        }
        if let ImapCoroutineState::Complete(result) = step {
            assert_eq!(result.unwrap().len(), 2);
            return;
        }
    }
    panic!("expected Complete");
}

#[test]
fn capabilities_are_asked_for_when_none_came() {
    let opts = ImapLoginOptions { ensure_capabilities: true, auto_id: None };
    let replies = ["{tag} OK in\r\n", "* CAPABILITY IMAP4REV1 IDLE\r\n{tag} OK done\r\n"];
    let (commands, result) = login(opts, &replies);
    assert_eq!(commands, vec!["LOGIN alice secret", "CAPABILITY"]);
    assert_eq!(result.unwrap().len(), 2);
}

#[test]
fn capabilities_that_came_are_enough() {
    let opts = ImapLoginOptions { ensure_capabilities: true, auto_id: None };
    let (commands, result) = login(opts, &["* CAPABILITY IMAP4REV1\r\n{tag} OK in\r\n"]);
    assert_eq!(commands.len(), 1);
    assert_eq!(result.unwrap().len(), 1);
    let opts = ImapLoginOptions { ensure_capabilities: true, auto_id: None };
    let (commands, result) = login(opts, &["{tag} OK [CAPABILITY IMAP4REV1 IDLE] in\r\n"]);
    assert_eq!(commands.len(), 1);
    assert_eq!(result.unwrap().len(), 2);
}

#[test]
fn client_identifies_itself() {
    let opts = ImapLoginOptions { ensure_capabilities: true, auto_id: Some(Vec::new()) };
    let replies = [
        "{tag} OK in\r\n",
        "* CAPABILITY IMAP4REV1\r\n{tag} OK done\r\n",
        "* ID NIL\r\n{tag} OK done\r\n",
    ];
    let (commands, result) = login(opts, &replies);
    assert_eq!(commands, vec!["LOGIN alice secret", "CAPABILITY", "ID NIL"]);
    assert_eq!(result.unwrap().len(), 1);

    let name = "name".to_string().try_into().unwrap();
    let value = "mail".to_string().try_into().unwrap();
    let parameters = vec![(name, imap_codec::imap_types::core::NString(Some(value)))];
    let opts = ImapLoginOptions { ensure_capabilities: false, auto_id: Some(parameters) };
    let (commands, result) = login(opts, &["{tag} OK in\r\n", "{tag} OK done\r\n"]);
    assert_eq!(commands, vec!["LOGIN alice secret", "ID (\"name\" \"mail\")"]);
    assert!(result.is_ok());
}

#[test]
fn follow_ups_may_fail() {
    let opts = ImapLoginOptions { ensure_capabilities: true, auto_id: None };
    let (_, result) = login(opts, &["{tag} OK in\r\n", "{tag} BAD bad\r\n"]);
    assert!(matches!(
        result,
        Err(ImapLoginError::Capability(ImapCapabilityGetError::Bad(_)))
    ));
    let opts = ImapLoginOptions { ensure_capabilities: false, auto_id: Some(Vec::new()) };
    let (_, result) = login(opts, &["{tag} OK in\r\n", "{tag} NO no\r\n"]);
    assert!(matches!(result, Err(ImapLoginError::ServerId(ImapServerIdError::No(_)))));
}
