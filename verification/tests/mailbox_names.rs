use imap_codec::imap_types::mailbox::Mailbox;
use io_imap::rfc3501::mailbox::{
    decode, decode_inplace, encode, encode_inplace, push_shift, push_unshifted_bytes,
};

#[test]
fn every_name_survives_the_wire() {
    let names = [
        "",
        "&",
        "&-",
        "&&--&",
        "\u{e9}",
        "a\u{e9}&\u{e9}b",
        "\u{1f600}",
        "x\u{1f600}\u{e9}y",
        "tab\tand\nnewline",
        "\u{ffff}\u{10000}\u{10ffff}",
        "\u{fffd}",
    ];
    for name in names {
        let wire = encode(name);
        assert!(wire.bytes().all(|b| (0x20..=0x7e).contains(&b)), "{wire:?}");
        assert_eq!(decode(&wire), name);
    }
}

#[test]
fn encoding_is_not_idempotent() {
    assert_eq!(encode("&-"), "&--");
    assert_eq!(encode(&encode("&-")), "&---");
}

#[test]
fn surrogate_pairs_are_shifted_whole() {
    assert_eq!(encode("\u{1f600}"), "&2D3eAA-");
    assert_eq!(decode("&2D3eAA-"), "\u{1f600}");
}

#[test]
fn base64_is_strict() {
    // Padding may be there or not, but has to be complete.
    assert_eq!(decode("&AOk=-"), "\u{e9}");
    assert_eq!(decode("&AOkA6Q==-"), "\u{e9}\u{e9}");
    assert_eq!(decode("&AOkA6Q=-"), "\u{fffd}");
    assert_eq!(decode("&AOk==-"), "\u{fffd}");
    // Bits left over have to be zero.
    assert_eq!(decode("&AOl-"), "\u{fffd}");
    // One character is left over.
    assert_eq!(decode("&AOkA6-"), "\u{fffd}");
    assert_eq!(decode("&A=Ok-"), "\u{fffd}");
}

#[test]
fn slash_gives_way_to_comma() {
    assert_eq!(encode("\u{3ff}"), "&A,8-");
    assert_eq!(decode("&A,8-"), "\u{3ff}");
}

#[test]
fn malformed_runs_yield_the_replacement_character() {
    // No base64.
    assert_eq!(decode("a&***-b"), "a\u{fffd}b");
    // An odd number of bytes.
    assert_eq!(decode("a&AAAA-b"), "a\u{fffd}b");
    // A lone surrogate.
    assert_eq!(decode("a&2D0-b"), "a\u{fffd}b");
    // A run that is not closed.
    assert_eq!(decode("a&***"), "a\u{fffd}");
    assert_eq!(decode("a&AOk"), "a\u{e9}");
    assert_eq!(decode("a&"), "a&");
}

#[test]
fn shifted_runs() {
    let mut out = "a".to_string();
    push_shift("A/8+", &mut out);
    assert_eq!(out, "a&A,8+-");
    let mut out = String::new();
    push_unshifted_bytes(Some(vec![0xd8, 0x3d, 0xde, 0x00, 0x00, 0x41]), &mut out);
    assert_eq!(out, "\u{1f600}A");
    push_unshifted_bytes(Some(vec![0x00, 0x41, 0x00]), &mut out);
    assert_eq!(out, "\u{1f600}A\u{fffd}");
    push_unshifted_bytes(None, &mut out);
    assert_eq!(out, "\u{1f600}A\u{fffd}\u{fffd}");
    push_unshifted_bytes(Some(vec![0xde, 0x00, 0xd8, 0x3d]), &mut out);
    assert_eq!(out, "\u{1f600}A\u{fffd}\u{fffd}\u{fffd}\u{fffd}");
}

#[test]
fn names_that_stay_what_they_are() {
    let mut mailbox: Mailbox<'static> = "Archive".try_into().unwrap();
    encode_inplace(&mut mailbox);
    assert_eq!(mailbox, "Archive".try_into().unwrap());
    decode_inplace(&mut mailbox);
    assert_eq!(mailbox, "Archive".try_into().unwrap());
    let mut mailbox = Mailbox::Inbox;
    decode_inplace(&mut mailbox);
    assert_eq!(mailbox, Mailbox::Inbox);
}
