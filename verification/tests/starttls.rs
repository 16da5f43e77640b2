use imap_codec::fragmentizer::Fragmentizer;
use io_imap::coroutine::{ImapCoroutine, ImapCoroutineState, ImapYield};
use io_imap::rfc3501::starttls::{ImapStartTls, ImapStartTlsError};

fn wants_read(cor: &mut ImapStartTls, frag: &mut Fragmentizer, arg: Option<&[u8]>) {
    match cor.resume(frag, arg) {
        ImapCoroutineState::Yielded(ImapYield::WantsRead) => {}
        state => panic!("expected WantsRead, got {state:?}"),
    }
}

fn wants_write(cor: &mut ImapStartTls, frag: &mut Fragmentizer, arg: Option<&[u8]>) -> String {
    match cor.resume(frag, arg) {
        ImapCoroutineState::Yielded(ImapYield::WantsWrite(bytes)) => {
            String::from_utf8(bytes).expect("utf8 command")
        }
        state => panic!("expected WantsWrite, got {state:?}"),
    }
}

fn complete(
    cor: &mut ImapStartTls,
    frag: &mut Fragmentizer,
    arg: &[u8],
) -> Result<Vec<u8>, ImapStartTlsError> {
    match cor.resume(frag, Some(arg)) {
        ImapCoroutineState::Complete(result) => result,
        state => panic!("expected Complete, got {state:?}"),
    }
}

#[test]
fn clean_upgrade_leaves_nothing_over() {
    let mut cor = ImapStartTls::new();
    let mut frag = Fragmentizer::new(1024);
    wants_read(&mut cor, &mut frag, None);
    wants_read(&mut cor, &mut frag, Some(b"* OK hel"));
    let line = wants_write(&mut cor, &mut frag, Some(b"lo\r\n"));
    let tag = line.split_whitespace().next().unwrap();
    assert_eq!(line, format!("{tag} STARTTLS\r\n"));
    wants_read(&mut cor, &mut frag, None);
    let reply = format!("{tag} OK begin TLS\r\n");
    assert_eq!(complete(&mut cor, &mut frag, reply.as_bytes()).unwrap(), b"");
}

#[test]
fn injected_bytes_are_left_over() {
    let mut cor = ImapStartTls::new();
    let mut frag = Fragmentizer::new(1024);
    let line = wants_write(&mut cor, &mut frag, Some(b"* OK hello\r\n"));
    let tag = line.split_whitespace().next().unwrap();
    let reply = format!("{tag} OK begin TLS\r\n* CAPABILITY IMAP4REV1\r\n");
    let leftover = complete(&mut cor, &mut frag, reply.as_bytes()).unwrap();
    assert_eq!(leftover, b"* CAPABILITY IMAP4REV1\r\n");
}

#[test]
fn tagged_line_may_come_in_pieces() {
    let mut cor = ImapStartTls::new();
    let mut frag = Fragmentizer::new(1024);
    let line = wants_write(&mut cor, &mut frag, Some(b"* OK hello\r\n"));
    let tag = line.split_whitespace().next().unwrap();
    wants_read(&mut cor, &mut frag, Some(b"* OK wait\r\n"));
    wants_read(&mut cor, &mut frag, Some(tag.as_bytes()));
    wants_read(&mut cor, &mut frag, Some(b" OK begin"));
    assert_eq!(complete(&mut cor, &mut frag, b" TLS\r\nmore").unwrap(), b"more");
}

#[test]
fn end_of_stream_fails_the_upgrade() {
    let mut cor = ImapStartTls::new();
    let mut frag = Fragmentizer::new(1024);
    wants_read(&mut cor, &mut frag, None);
    let result = complete(&mut cor, &mut frag, b"");
    assert!(matches!(result, Err(ImapStartTlsError::Eof)));
}
