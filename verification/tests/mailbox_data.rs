use imap_codec::fragmentizer::Fragmentizer;
use io_imap::coroutine::{ImapCoroutine, ImapCoroutineState, ImapYield};
use io_imap::rfc3501::copy::{expand, ImapMessageCopy, ImapMessageCopyOptions, UidElement};
use io_imap::rfc3501::examine::{ImapMailboxExamine, ImapMailboxExamineOptions};
use io_imap::rfc3501::select::{ImapMailboxSelect, ImapMailboxSelectOptions, SelectData};
use io_imap::rfc6851::message_move::{ImapMessageMove, ImapMessageMoveOptions};

fn answer<C, T, E>(mut cor: C, reply: &str) -> Result<T, E>
where
    C: ImapCoroutine<Yield = ImapYield, Return = Result<T, E>>,
{
    let mut frag = Fragmentizer::new(1024);
    let tag = match cor.resume(&mut frag, None) {
        ImapCoroutineState::Yielded(ImapYield::WantsWrite(bytes)) => {
            let line = String::from_utf8(bytes).expect("utf8 command");
            line.split_whitespace().next().expect("tag").to_string()
        }
        _ => panic!("expected WantsWrite"),
    };
    match cor.resume(&mut frag, Some(reply.replace("{tag}", &tag).as_bytes())) {
        ImapCoroutineState::Complete(result) => result,
        _ => panic!("expected Complete"),
    }
}

const STATE: &str = "* FLAGS (\\Seen \\Deleted)\r\n\
    * 9 EXISTS\r\n\
    * 2 RECENT\r\n\
    * OK [UNSEEN 4] first unseen\r\n\
    * OK [PERMANENTFLAGS (\\Seen \\*)] limited\r\n\
    * OK [UIDNEXT 77] predicted\r\n\
    * OK [UIDVALIDITY 1700] valid\r\n\
    * OK [HIGHESTMODSEQ 90060115205545359] highest\r\n\
    * VANISHED (EARLIER) 41,43:46,44\r\n\
    * VANISHED 5\r\n\
    * 3 FETCH (UID 30 FLAGS (\\Seen))\r\n\
    * 1 FETCH (UID 10 FLAGS ())\r\n\
    {tag} OK [READ-WRITE] done\r\n";

fn is_state(data: SelectData) {
    assert_eq!(data.flags.unwrap().len(), 2);
    assert_eq!(data.exists, Some(9));
    assert_eq!(data.recent, Some(2));
    assert_eq!(data.unseen, Some(4));
    assert_eq!(data.permanent_flags.unwrap().len(), 2);
    assert_eq!(data.uid_next, Some(77));
    assert_eq!(data.uid_validity, Some(1700));
    assert_eq!(data.highest_mod_seq, Some(90060115205545359));
    assert_eq!(data.vanished_earlier, vec![41, 43, 44, 45, 46]);
    let changed: Vec<u32> = data.changed.iter().map(|change| change.seq).collect();
    assert_eq!(changed, vec![3, 1]);
}

#[test]
fn select_collects_the_whole_state() {
    let mailbox = "INBOX".try_into().unwrap();
    let select = ImapMailboxSelect::new(mailbox, ImapMailboxSelectOptions::default());
    is_state(answer(select, STATE).unwrap());
}

#[test]
fn examine_collects_the_whole_state() {
    let mailbox = "INBOX".try_into().unwrap();
    let examine = ImapMailboxExamine::new(mailbox, ImapMailboxExamineOptions::default());
    is_state(answer(examine, STATE).unwrap());
}

#[test]
fn vanished_sets_are_expanded() {
    let mailbox = "INBOX".try_into().unwrap();
    let select = ImapMailboxSelect::new(mailbox, ImapMailboxSelectOptions::default());
    let reply = "* VANISHED (EARLIER) 7:5,6,9,8\r\n\
                 * VANISHED (EARLIER) 4294967295\r\n\
                 {tag} OK done\r\n";
    let data = answer(select, reply).unwrap();
    assert_eq!(data.vanished_earlier, vec![5, 6, 7, 8, 9, u32::MAX]);
}

#[test]
fn select_without_answers_is_empty() {
    let mailbox = "INBOX".try_into().unwrap();
    let select = ImapMailboxSelect::new(mailbox, ImapMailboxSelectOptions::default());
    let data = answer(select, "{tag} OK done\r\n").unwrap();
    assert!(data.flags.is_none());
    assert!(data.exists.is_none());
    assert!(data.highest_mod_seq.is_none());
    assert!(data.vanished_earlier.is_empty());
    assert!(data.changed.is_empty());
}

#[test]
fn uid_sets_are_expanded_and_sorted() {
    let copy = || {
        let messages = "1:4".try_into().unwrap();
        let mailbox = "Archive".try_into().unwrap();
        ImapMessageCopy::new(messages, mailbox, ImapMessageCopyOptions::default())
    };
    let reply = "{tag} OK [COPYUID 9 7,2:4 20:22,30] done\r\n";
    let copied = answer(copy(), reply).unwrap();
    assert_eq!(copied, Some((9, vec![2, 3, 4, 7], vec![20, 21, 22, 30])));
    let reply = "{tag} OK [COPYUID 9 4:2,7 5,5,5:6] done\r\n";
    let copied = answer(copy(), reply).unwrap();
    assert_eq!(copied, Some((9, vec![2, 3, 4, 7], vec![5, 5, 5, 6])));
}

#[test]
fn ranges_may_come_in_any_order() {
    let elements = vec![UidElement::Range(9, 7), UidElement::Single(8), UidElement::Range(1, 2)];
    assert_eq!(expand(&elements), vec![1, 2, 7, 8, 8, 9]);
    assert_eq!(expand(&vec![UidElement::Range(u32::MAX, u32::MAX)]), vec![u32::MAX]);
}

#[test]
fn move_prefers_the_tagged_code() {
    let messages = "1:2".try_into().unwrap();
    let mailbox = "Archive".try_into().unwrap();
    let mov = ImapMessageMove::new(messages, mailbox, ImapMessageMoveOptions::default());
    let reply = "* OK [COPYUID 9 1 5] moved\r\n{tag} OK [COPYUID 9 2 6] done\r\n";
    assert_eq!(answer(mov, reply).unwrap(), Some((9, vec![2], vec![6])));
}
