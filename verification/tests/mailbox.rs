use imap_codec::imap_types::mailbox::Mailbox;
use io_imap::rfc3501::mailbox::{decode, decode_inplace, encode, encode_inplace};

// RFC 3501 §5.1.3 reference vector.
const RUSSIAN_PLAIN: &str = "Отправленные";
const RUSSIAN_WIRE: &str = "&BB4EQgQ,BEAEMAQyBDsENQQ9BD0ESwQ1-";

#[test]
fn encode_passes_printable_ascii_through() {
    assert_eq!(encode("Drafts"), "Drafts");
    assert_eq!(encode("Notes/Work"), "Notes/Work");
}

#[test]
fn encode_doubles_ampersand() {
    assert_eq!(encode("AT&T"), "AT&-T");
    assert_eq!(encode("&"), "&-");
}

#[test]
fn encode_rfc3501_reference_vector() {
    assert_eq!(encode(RUSSIAN_PLAIN), RUSSIAN_WIRE);
}

#[test]
fn encode_mixed_ascii_and_unicode() {
    assert_eq!(encode("Notes/Брошены"), "Notes/&BBEEQAQ+BEgENQQ9BEs-");
}

#[test]
fn decode_passes_printable_ascii_through() {
    assert_eq!(decode("Drafts"), "Drafts");
    assert_eq!(decode("Notes/Work"), "Notes/Work");
}

#[test]
fn decode_unescapes_doubled_ampersand() {
    assert_eq!(decode("AT&-T"), "AT&T");
    assert_eq!(decode("&-"), "&");
}

#[test]
fn decode_rfc3501_reference_vector() {
    assert_eq!(decode(RUSSIAN_WIRE), RUSSIAN_PLAIN);
}

#[test]
fn round_trip_unicode() {
    for name in [
        "Inbox",
        "Drafts",
        "AT&T",
        "Notes/Brouillons",
        "Notes/Брошены",
        "日本語",
        "Mixed/AT&T/Брошены",
    ] {
        let encoded = encode(name);
        let decoded = decode(&encoded);
        assert_eq!(decoded, name, "round-trip failed for {name:?}");
    }
}

#[test]
fn encode_inplace_leaves_inbox_alone() {
    let mut mbox = Mailbox::Inbox;
    encode_inplace(&mut mbox);
    assert!(matches!(mbox, Mailbox::Inbox));
}

#[test]
fn encode_inplace_rewrites_other() {
    let mut mbox: Mailbox<'static> = "Notes/Брошены".to_string().try_into().unwrap();
    encode_inplace(&mut mbox);
    match mbox {
        Mailbox::Other(other) => {
            let bytes: &[u8] = other.inner().as_ref();
            assert_eq!(bytes, b"Notes/&BBEEQAQ+BEgENQQ9BEs-");
        }
        other => panic!("expected Other, got {other:?}"),
    }
}

#[test]
fn decode_inplace_rewrites_other() {
    let mut mbox: Mailbox<'static> = "Notes/&BBEEQAQ+BEgENQQ9BEs-"
        .to_string()
        .try_into()
        .unwrap();
    decode_inplace(&mut mbox);
    match mbox {
        Mailbox::Other(other) => {
            let bytes: &[u8] = other.inner().as_ref();
            assert_eq!(core::str::from_utf8(bytes).unwrap(), "Notes/Брошены");
        }
        other => panic!("expected Other, got {other:?}"),
    }
}

#[test]
fn round_trip_through_mailbox() {
    let original = "Notes/Брошены";
    let mut mbox: Mailbox<'static> = original.to_string().try_into().unwrap();
    encode_inplace(&mut mbox);
    decode_inplace(&mut mbox);
    match mbox {
        Mailbox::Other(other) => {
            let bytes: &[u8] = other.inner().as_ref();
            assert_eq!(core::str::from_utf8(bytes).unwrap(), original);
        }
        other => panic!("expected Other, got {other:?}"),
    }
}
