//! The order in which messages are sorted on the client side.
//!
//! Messages are ranked by the sort criteria, then by their date. Messages
//! that rank the same keep the order of their sequence numbers.

use chrono::DateTime;
use imap_codec::imap_types;
use imap_codec::imap_types::extensions::sort::{SortCriterion, SortKey};
use imap_codec::imap_types::fetch::MessageDataItem;
use vstd::prelude::*;
use vstd::utf8::{decode_utf8, valid_utf8};

use crate::rfc3501::mailbox::{bytes_view, utf8_text};

verus! {

/// What messages are sorted by.
#[derive(Clone, Copy, Debug, PartialEq, Eq, Structural)]
pub enum SortField {
    Arrival,
    Cc,
    Date,
    From,
    Size,
    Subject,
    To,
    DisplayFrom,
    DisplayTo,
}

/// One sort criterion.
#[derive(Clone, Copy, Debug, PartialEq, Eq, Structural)]
pub struct SortOrder {
    pub reverse: bool,
    pub field: SortField,
}

/// The criteria that a non-empty list holds, in order.
pub uninterp spec fn sort_orders(criteria: imap_types::core::Vec1<SortCriterion>) -> Seq<SortOrder>;

/// `Vec1::as_ref`: the criteria of the list, in order.
#[verifier::external_body]
pub(crate) fn read_orders(criteria: &imap_types::core::Vec1<SortCriterion>) -> (orders: Vec<
    SortOrder,
>)
    ensures
        orders@ == sort_orders(*criteria),
{
    let field = |key: &SortKey| match key {
        SortKey::Arrival => SortField::Arrival,
        SortKey::Cc => SortField::Cc,
        SortKey::Date => SortField::Date,
        SortKey::From => SortField::From,
        SortKey::Size => SortField::Size,
        SortKey::Subject => SortField::Subject,
        SortKey::To => SortField::To,
        SortKey::DisplayFrom => SortField::DisplayFrom,
        SortKey::DisplayTo => SortField::DisplayTo,
    };
    let order = |c: &SortCriterion| SortOrder { reverse: c.reverse, field: field(&c.key) };
    criteria.as_ref().iter().map(order).collect()
}

/// A point in time: seconds since the start of 1970 in UTC, and the
/// nanoseconds within the second.
pub type Moment = (i64, u32);

/// What a message data item tells about the place of its message.
#[derive(Debug)]
pub enum ItemFact {
    InternalDate(Moment),
    Rfc822Size(u32),
    Envelope { date: Option<Vec<u8>>, subject: Option<Vec<u8>> },
    Uid(u32),
    Other,
}

/// Model of [`ItemFact`].
pub enum FactView {
    InternalDate(Moment),
    Rfc822Size(u32),
    Envelope { date: Option<Seq<u8>>, subject: Option<Seq<u8>> },
    Uid(u32),
    Other,
}

impl View for ItemFact {
    type V = FactView;

    open spec fn view(&self) -> FactView {
        match *self {
            ItemFact::InternalDate(instant) => FactView::InternalDate(instant),
            ItemFact::Rfc822Size(size) => FactView::Rfc822Size(size),
            ItemFact::Envelope { date, subject } => FactView::Envelope {
                date: bytes_view(date),
                subject: bytes_view(subject),
            },
            ItemFact::Uid(uid) => FactView::Uid(uid),
            ItemFact::Other => FactView::Other,
        }
    }
}

/// What an item tells about the place of its message.
pub uninterp spec fn item_fact(item: MessageDataItem<'static>) -> FactView;

/// Reads imap-types' `MessageDataItem`: the instant of an internal date
/// as chrono's `timestamp` and `timestamp_subsec_nanos`, a size, the raw
/// date and subject of an envelope, or a UID.
#[verifier::external_body]
fn read_fact(item: &MessageDataItem<'static>) -> (fact: ItemFact)
    ensures
        fact@ == item_fact(*item),
{
    let bytes = |s: &imap_types::core::NString<'static>| s.0.as_ref().map(|s| s.as_ref().to_vec());
    match item {
        MessageDataItem::InternalDate(date) => ItemFact::InternalDate(
            (date.as_ref().timestamp(), date.as_ref().timestamp_subsec_nanos()),
        ),
        MessageDataItem::Rfc822Size(size) => ItemFact::Rfc822Size(*size),
        MessageDataItem::Envelope(envelope) => {
            ItemFact::Envelope { date: bytes(&envelope.date), subject: bytes(&envelope.subject) }
        },
        MessageDataItem::Uid(uid) => ItemFact::Uid(uid.get()),
        _ => ItemFact::Other,
    }
}

/// The instant that chrono reads from a date in the format of message
/// headers, if it is one.
pub uninterp spec fn rfc2822_instant(text: Seq<char>) -> Option<Moment>;

/// chrono's `DateTime::parse_from_rfc2822`: the instant as `timestamp`
/// and `timestamp_subsec_nanos`, or nothing for another text.
#[verifier::external_body]
fn parse_rfc2822(text: &str) -> (instant: Option<Moment>)
    ensures
        instant == rfc2822_instant(text@),
{
    let date = DateTime::parse_from_rfc2822(text).ok()?;
    Some((date.timestamp(), date.timestamp_subsec_nanos()))
}

/// The instant of a raw `Date` header.
pub open spec fn date_key(raw: Option<Seq<u8>>) -> Option<Moment> {
    match raw {
        Some(bytes) => if valid_utf8(bytes) {
            rfc2822_instant(decode_utf8(bytes))
        } else {
            None
        },
        None => None,
    }
}

/// Parses a raw `Date` header into an instant, so that dates order
/// chronologically rather than by the leading weekday. A header that is
/// absent, not UTF-8 or no date has none, which ranks before any real
/// date.
pub fn date_sort_key(raw: Option<&[u8]>) -> (key: Option<Moment>)
    ensures
        key == date_key(crate::coroutine::arg_view(raw)),
        raw matches Some(bytes) ==> (valid_utf8(bytes@) ==> key == rfc2822_instant(
            decode_utf8(bytes@),
        )),
        raw matches Some(bytes) ==> (!valid_utf8(bytes@) ==> key is None),
        raw is None ==> key is None,
{
    match raw {
        Some(bytes) => match utf8_text(bytes) {
            Some(text) => parse_rfc2822(text.as_str()),
            None => None,
        },
        None => None,
    }
}

/// What `pick` finds first in the items.
pub open spec fn first_of<A, B>(items: Seq<A>, pick: spec_fn(A) -> Option<B>) -> Option<B>
    decreases items.len(),
{
    if items.len() == 0 {
        None
    } else {
        match first_of(items.drop_last(), pick) {
            Some(found) => Some(found),
            None => pick(items.last()),
        }
    }
}

/// What a message is ranked by, and its UID.
#[derive(Debug)]
pub struct SortKeys {
    pub arrival: Option<Moment>,
    pub size: Option<u32>,
    pub date: Option<Moment>,
    pub subject: Option<Vec<u8>>,
    pub uid: Option<u32>,
}

/// Model of [`SortKeys`].
pub struct KeysView {
    pub arrival: Option<Moment>,
    pub size: Option<u32>,
    pub date: Option<Moment>,
    pub subject: Option<Seq<u8>>,
    pub uid: Option<u32>,
}

impl View for SortKeys {
    type V = KeysView;

    open spec fn view(&self) -> KeysView {
        KeysView {
            arrival: self.arrival,
            size: self.size,
            date: self.date,
            subject: bytes_view(self.subject),
            uid: self.uid,
        }
    }
}

pub open spec fn arrival_of(facts: Seq<FactView>) -> Option<Moment> {
    first_of(
        facts,
        |fact: FactView|
            match fact {
                FactView::InternalDate(instant) => Some(instant),
                _ => None,
            },
    )
}

pub open spec fn size_of(facts: Seq<FactView>) -> Option<u32> {
    first_of(
        facts,
        |fact: FactView|
            match fact {
                FactView::Rfc822Size(size) => Some(size),
                _ => None,
            },
    )
}

/// The first date that an envelope holds; one without is passed over.
pub open spec fn date_of(facts: Seq<FactView>) -> Option<Seq<u8>> {
    first_of(
        facts,
        |fact: FactView|
            match fact {
                FactView::Envelope { date, .. } => date,
                _ => None,
            },
    )
}

/// The first subject that an envelope holds; one without is passed over.
pub open spec fn subject_of(facts: Seq<FactView>) -> Option<Seq<u8>> {
    first_of(
        facts,
        |fact: FactView|
            match fact {
                FactView::Envelope { subject, .. } => subject,
                _ => None,
            },
    )
}

pub open spec fn uid_of(facts: Seq<FactView>) -> Option<u32> {
    first_of(
        facts,
        |fact: FactView|
            match fact {
                FactView::Uid(uid) => Some(uid),
                _ => None,
            },
    )
}

/// What a message is ranked by, given what its items tell.
pub open spec fn keys_of_facts(facts: Seq<FactView>) -> KeysView {
    KeysView {
        arrival: arrival_of(facts),
        size: size_of(facts),
        date: date_key(date_of(facts)),
        subject: subject_of(facts),
        uid: uid_of(facts),
    }
}

/// What the items of a message rank it by.
pub open spec fn keys_of(items: Seq<MessageDataItem<'static>>) -> KeysView {
    keys_of_facts(items.map_values(|item: MessageDataItem<'static>| item_fact(item)))
}

/// Models of what items tell.
pub open spec fn fact_views(facts: Seq<ItemFact>) -> Seq<FactView> {
    facts.map_values(|fact: ItemFact| fact@)
}

/// What a message is ranked by, given what its items tell.
pub fn keys_from_facts(facts: Vec<ItemFact>) -> (keys: SortKeys)
    ensures
        keys@ == keys_of_facts(fact_views(facts@)),
{
    let ghost views = fact_views(facts@);
    let mut arrival: Option<Moment> = None;
    let mut size: Option<u32> = None;
    let mut date: Option<Vec<u8>> = None;
    let mut subject: Option<Vec<u8>> = None;
    let mut uid: Option<u32> = None;
    for fact in it: facts
        invariant
            it.seq() == facts@,
            views == fact_views(facts@),
            arrival == arrival_of(views.take(it.index())),
            size == size_of(views.take(it.index())),
            bytes_view(date) == date_of(views.take(it.index())),
            bytes_view(subject) == subject_of(views.take(it.index())),
            uid == uid_of(views.take(it.index())),
    {
        proof {
            let seen = views.take(it.index() + 1);
            assert(seen.drop_last() =~= views.take(it.index()));
            assert(seen.last() == fact@);
        }
        match fact {
            ItemFact::InternalDate(found) => {
                if arrival.is_none() {
                    arrival = Some(found);
                }
            },
            ItemFact::Rfc822Size(found) => {
                if size.is_none() {
                    size = Some(found);
                }
            },
            ItemFact::Envelope { date: found_date, subject: found_subject } => {
                if date.is_none() {
                    date = found_date;
                }
                if subject.is_none() {
                    subject = found_subject;
                }
            },
            ItemFact::Uid(found) => {
                if uid.is_none() {
                    uid = Some(found);
                }
            },
            ItemFact::Other => {},
        }
    }
    assert(views.take(views.len() as int) =~= views);
    let date = match &date {
        Some(bytes) => date_sort_key(Some(bytes.as_slice())),
        None => date_sort_key(None),
    };
    SortKeys { arrival, size, date, subject, uid }
}

/// Reads what the items of a message rank it by.
pub fn sort_keys(items: &Vec<MessageDataItem<'static>>) -> (keys: SortKeys)
    ensures
        keys@ == keys_of(items@),
{
    let mut facts: Vec<ItemFact> = Vec::new();
    for i in 0..items.len()
        invariant
            facts@.len() == i,
            forall|k: int| 0 <= k < i ==> (#[trigger] facts@[k])@ == item_fact(items@[k]),
    {
        facts.push(read_fact(&items[i]));
    }
    assert(fact_views(facts@) =~= items@.map_values(
        |item: MessageDataItem<'static>| item_fact(item),
    ));
    keys_from_facts(facts)
}

/// How a message ranks against another.
#[derive(Clone, Copy, Debug, PartialEq, Eq, Structural)]
pub enum Rank {
    Before,
    Same,
    After,
}

impl Rank {
    pub open spec fn flipped(self) -> Rank {
        match self {
            Rank::Before => Rank::After,
            Rank::Same => Rank::Same,
            Rank::After => Rank::Before,
        }
    }

    fn flip(self) -> (rank: Rank)
        ensures
            rank == self.flipped(),
    {
        match self {
            Rank::Before => Rank::After,
            Rank::Same => Rank::Same,
            Rank::After => Rank::Before,
        }
    }
}

pub open spec fn rank_number(a: int, b: int) -> Rank {
    if a < b {
        Rank::Before
    } else if a == b {
        Rank::Same
    } else {
        Rank::After
    }
}

/// Earlier moments rank first.
pub open spec fn rank_moment(a: Moment, b: Moment) -> Rank {
    match rank_number(a.0 as int, b.0 as int) {
        Rank::Same => rank_number(a.1 as int, b.1 as int),
        rank => rank,
    }
}

/// The first byte that differs decides; a prefix ranks first.
pub open spec fn rank_bytes(a: Seq<u8>, b: Seq<u8>) -> Rank
    decreases a.len(),
{
    if a.len() == 0 || b.len() == 0 {
        rank_number(a.len() as int, b.len() as int)
    } else {
        match rank_number(a[0] as int, b[0] as int) {
            Rank::Same => rank_bytes(a.skip(1), b.skip(1)),
            rank => rank,
        }
    }
}

/// What is absent ranks first.
pub open spec fn rank_option<T>(
    a: Option<T>,
    b: Option<T>,
    rank: spec_fn(T, T) -> Rank,
) -> Rank {
    match (a, b) {
        (None, None) => Rank::Same,
        (None, Some(_)) => Rank::Before,
        (Some(_), None) => Rank::After,
        (Some(a), Some(b)) => rank(a, b),
    }
}

pub open spec fn rank_moments(a: Option<Moment>, b: Option<Moment>) -> Rank {
    rank_option(a, b, |a: Moment, b: Moment| rank_moment(a, b))
}

pub open spec fn rank_sizes(a: Option<u32>, b: Option<u32>) -> Rank {
    rank_option(a, b, |a: u32, b: u32| rank_number(a as int, b as int))
}

pub open spec fn rank_subjects(a: Option<Seq<u8>>, b: Option<Seq<u8>>) -> Rank {
    rank_option(a, b, |a: Seq<u8>, b: Seq<u8>| rank_bytes(a, b))
}

/// Addresses have no order of their own.
pub open spec fn rank_by_field(field: SortField, a: KeysView, b: KeysView) -> Rank {
    match field {
        SortField::Arrival => rank_moments(a.arrival, b.arrival),
        SortField::Size => rank_sizes(a.size, b.size),
        SortField::Date => rank_moments(a.date, b.date),
        SortField::Subject => rank_subjects(a.subject, b.subject),
        _ => Rank::Same,
    }
}

pub open spec fn rank_by_order(order: SortOrder, a: KeysView, b: KeysView) -> Rank {
    if order.reverse {
        rank_by_field(order.field, a, b).flipped()
    } else {
        rank_by_field(order.field, a, b)
    }
}

/// The first criterion that tells two messages apart decides, and their
/// dates where none does.
pub open spec fn rank_by(orders: Seq<SortOrder>, a: KeysView, b: KeysView) -> Rank
    decreases orders.len(),
{
    if orders.len() == 0 {
        rank_by_field(SortField::Date, a, b)
    } else {
        match rank_by_order(orders[0], a, b) {
            Rank::Same => rank_by(orders.skip(1), a, b),
            rank => rank,
        }
    }
}

/// How the outer two of three messages rank, given how the first ranks
/// against the second, and the second against the third, neither of them
/// after.
pub open spec fn chained(first: Rank, second: Rank) -> Rank {
    match first {
        Rank::Same => second,
        first => first,
    }
}

proof fn lemma_bytes_flip(a: Seq<u8>, b: Seq<u8>)
    ensures
        rank_bytes(b, a) == rank_bytes(a, b).flipped(),
    decreases a.len(),
{
    if a.len() > 0 && b.len() > 0 {
        lemma_bytes_flip(a.skip(1), b.skip(1));
    }
}

proof fn lemma_bytes_chain(a: Seq<u8>, b: Seq<u8>, c: Seq<u8>)
    requires
        rank_bytes(a, b) != Rank::After,
        rank_bytes(b, c) != Rank::After,
    ensures
        rank_bytes(a, c) == chained(rank_bytes(a, b), rank_bytes(b, c)),
    decreases a.len(),
{
    if a.len() > 0 && b.len() > 0 && c.len() > 0 && a[0] == b[0] && b[0] == c[0] {
        lemma_bytes_chain(a.skip(1), b.skip(1), c.skip(1));
    }
}

proof fn lemma_field_flip(field: SortField, a: KeysView, b: KeysView)
    ensures
        rank_by_field(field, b, a) == rank_by_field(field, a, b).flipped(),
{
    if a.subject is Some && b.subject is Some {
        lemma_bytes_flip(a.subject->0, b.subject->0);
    }
}

proof fn lemma_field_chain(field: SortField, a: KeysView, b: KeysView, c: KeysView)
    requires
        rank_by_field(field, a, b) != Rank::After,
        rank_by_field(field, b, c) != Rank::After,
    ensures
        rank_by_field(field, a, c) == chained(
            rank_by_field(field, a, b),
            rank_by_field(field, b, c),
        ),
{
    if field == SortField::Subject && a.subject is Some && b.subject is Some && c.subject is Some {
        lemma_bytes_chain(a.subject->0, b.subject->0, c.subject->0);
    }
}

proof fn lemma_order_chain(order: SortOrder, a: KeysView, b: KeysView, c: KeysView)
    requires
        rank_by_order(order, a, b) != Rank::After,
        rank_by_order(order, b, c) != Rank::After,
    ensures
        rank_by_order(order, a, c) == chained(
            rank_by_order(order, a, b),
            rank_by_order(order, b, c),
        ),
{
    let field = order.field;
    if order.reverse {
        lemma_field_flip(field, a, b);
        lemma_field_flip(field, b, c);
        lemma_field_flip(field, a, c);
        lemma_field_chain(field, c, b, a);
    } else {
        lemma_field_chain(field, a, b, c);
    }
}

/// Ranking is the same seen from either message.
pub proof fn rank_is_symmetric(orders: Seq<SortOrder>, a: KeysView, b: KeysView)
    ensures
        rank_by(orders, b, a) == rank_by(orders, a, b).flipped(),
    decreases orders.len(),
{
    if orders.len() == 0 {
        lemma_field_flip(SortField::Date, a, b);
    } else {
        lemma_field_flip(orders[0].field, a, b);
        rank_is_symmetric(orders.skip(1), a, b);
    }
}

/// Ranking is transitive.
pub proof fn rank_is_transitive(orders: Seq<SortOrder>, a: KeysView, b: KeysView, c: KeysView)
    requires
        rank_by(orders, a, b) != Rank::After,
        rank_by(orders, b, c) != Rank::After,
    ensures
        rank_by(orders, a, c) == chained(rank_by(orders, a, b), rank_by(orders, b, c)),
    decreases orders.len(),
{
    if orders.len() == 0 {
        lemma_field_chain(SortField::Date, a, b, c);
    } else {
        lemma_order_chain(orders[0], a, b, c);
        if rank_by_order(orders[0], a, b) == Rank::Same && rank_by_order(orders[0], b, c)
            == Rank::Same {
            rank_is_transitive(orders.skip(1), a, b, c);
        }
    }
}

fn moments_rank(a: Option<Moment>, b: Option<Moment>) -> (rank: Rank)
    ensures
        rank == rank_moments(a, b),
{
    match (a, b) {
        (None, None) => Rank::Same,
        (None, Some(_)) => Rank::Before,
        (Some(_), None) => Rank::After,
        (Some(a), Some(b)) => if a.0 < b.0 {
            Rank::Before
        } else if a.0 > b.0 {
            Rank::After
        } else if a.1 < b.1 {
            Rank::Before
        } else if a.1 > b.1 {
            Rank::After
        } else {
            Rank::Same
        },
    }
}

fn sizes_rank(a: Option<u32>, b: Option<u32>) -> (rank: Rank)
    ensures
        rank == rank_sizes(a, b),
{
    match (a, b) {
        (None, None) => Rank::Same,
        (None, Some(_)) => Rank::Before,
        (Some(_), None) => Rank::After,
        (Some(a), Some(b)) => if a < b {
            Rank::Before
        } else if a > b {
            Rank::After
        } else {
            Rank::Same
        },
    }
}

fn bytes_rank(a: &Vec<u8>, b: &Vec<u8>) -> (rank: Rank)
    ensures
        rank == rank_bytes(a@, b@),
{
    let mut i: usize = 0;
    assert(a@.skip(0) =~= a@ && b@.skip(0) =~= b@);
    while i < a.len() && i < b.len()
        invariant
            i <= a@.len(),
            i <= b@.len(),
            rank_bytes(a@, b@) == rank_bytes(a@.skip(i as int), b@.skip(i as int)),
        decreases a@.len() - i,
    {
        if a[i] < b[i] {
            return Rank::Before;
        }
        if a[i] > b[i] {
            return Rank::After;
        }
        assert(a@.skip(i as int).skip(1) =~= a@.skip(i + 1));
        assert(b@.skip(i as int).skip(1) =~= b@.skip(i + 1));
        i = i + 1;
    }
    if a.len() < b.len() {
        Rank::Before
    } else if a.len() > b.len() {
        Rank::After
    } else {
        Rank::Same
    }
}

fn field_rank(field: SortField, a: &SortKeys, b: &SortKeys) -> (rank: Rank)
    ensures
        rank == rank_by_field(field, a@, b@),
{
    match field {
        SortField::Arrival => moments_rank(a.arrival, b.arrival),
        SortField::Size => sizes_rank(a.size, b.size),
        SortField::Date => moments_rank(a.date, b.date),
        SortField::Subject => match (&a.subject, &b.subject) {
            (None, None) => Rank::Same,
            (None, Some(_)) => Rank::Before,
            (Some(_), None) => Rank::After,
            (Some(a), Some(b)) => bytes_rank(a, b),
        },
        _ => Rank::Same,
    }
}

/// How message `a` ranks against message `b`.
pub fn rank(orders: &Vec<SortOrder>, a: &SortKeys, b: &SortKeys) -> (rank: Rank)
    ensures
        rank == rank_by(orders@, a@, b@),
{
    assert(orders@.skip(0) =~= orders@);
    for i in 0..orders.len()
        invariant
            rank_by(orders@, a@, b@) == rank_by(orders@.skip(i as int), a@, b@),
    {
        let rank = field_rank(orders[i].field, a, b);
        if rank != Rank::Same {
            return if orders[i].reverse {
                rank.flip()
            } else {
                rank
            };
        }
        assert(orders@.skip(i as int).skip(1) =~= orders@.skip(i + 1));
    }
    field_rank(SortField::Date, a, b)
}

/// Whether message `i` comes before message `j`: it ranks before it, or
/// ranks the same and was listed before it.
pub open spec fn precedes(
    orders: Seq<SortOrder>,
    keys: Seq<KeysView>,
    i: usize,
    j: usize,
) -> bool {
    match rank_by(orders, keys[i as int], keys[j as int]) {
        Rank::Before => true,
        Rank::Same => i < j,
        Rank::After => false,
    }
}

/// Whether `places` lists the messages from `start` up to `end`, sorted.
pub open spec fn is_sorted_run(
    orders: Seq<SortOrder>,
    keys: Seq<KeysView>,
    start: int,
    end: int,
    places: Seq<usize>,
) -> bool {
    &&& places.len() == end - start
    &&& forall|k: int| 0 <= k < places.len() ==> start <= #[trigger] places[k] < end
    &&& forall|k: int, l: int|
        0 <= k < l < places.len() ==> #[trigger] precedes(orders, keys, places[k], places[l])
}

/// Whether `places` lists all messages, sorted.
pub open spec fn is_sorted(
    orders: Seq<SortOrder>,
    keys: Seq<KeysView>,
    places: Seq<usize>,
) -> bool {
    is_sorted_run(orders, keys, 0, keys.len() as int, places)
}

/// Models of the keys of messages.
pub open spec fn key_views(keys: Seq<&SortKeys>) -> Seq<KeysView> {
    keys.map_values(|keys: &SortKeys| keys@)
}

proof fn lemma_precedes_chain(
    orders: Seq<SortOrder>,
    keys: Seq<KeysView>,
    i: usize,
    j: usize,
    k: usize,
)
    requires
        precedes(orders, keys, i, j),
        precedes(orders, keys, j, k),
    ensures
        precedes(orders, keys, i, k),
{
    rank_is_transitive(orders, keys[i as int], keys[j as int], keys[k as int]);
}

/// What comes before the first of a sorted run comes before all of it.
proof fn lemma_precedes_run(
    orders: Seq<SortOrder>,
    keys: Seq<KeysView>,
    i: usize,
    run: Seq<usize>,
    from: int,
)
    requires
        0 <= from < run.len(),
        precedes(orders, keys, i, run[from]),
        forall|k: int, l: int|
            0 <= k < l < run.len() ==> #[trigger] precedes(orders, keys, run[k], run[l]),
    ensures
        forall|k: int| from <= k < run.len() ==> #[trigger] precedes(orders, keys, i, run[k]),
{
    assert forall|k: int| from <= k < run.len() implies #[trigger] precedes(
        orders,
        keys,
        i,
        run[k],
    ) by {
        if k > from {
            lemma_precedes_chain(orders, keys, i, run[from], run[k]);
        }
    }
}

/// Merges two sorted runs, the first of messages listed before those of
/// the second.
fn merge(
    orders: &Vec<SortOrder>,
    keys: &Vec<&SortKeys>,
    left: &Vec<usize>,
    right: &Vec<usize>,
    Ghost(start): Ghost<int>,
    Ghost(middle): Ghost<int>,
    Ghost(end): Ghost<int>,
) -> (places: Vec<usize>)
    requires
        0 <= start <= middle <= end <= keys@.len(),
        is_sorted_run(orders@, key_views(keys@), start, middle, left@),
        is_sorted_run(orders@, key_views(keys@), middle, end, right@),
    ensures
        is_sorted_run(orders@, key_views(keys@), start, end, places@),
{
    let ghost views = key_views(keys@);
    let mut places: Vec<usize> = Vec::new();
    let mut i: usize = 0;
    let mut j: usize = 0;
    while i < left.len() || j < right.len()
        invariant
            0 <= start <= middle <= end <= keys@.len(),
            views == key_views(keys@),
            is_sorted_run(orders@, views, start, middle, left@),
            is_sorted_run(orders@, views, middle, end, right@),
            i <= left@.len(),
            j <= right@.len(),
            places@.len() == i + j,
            forall|k: int| 0 <= k < places@.len() ==> start <= #[trigger] places@[k] < end,
            forall|k: int, l: int|
                0 <= k < l < places@.len() ==> #[trigger] precedes(
                    orders@,
                    views,
                    places@[k],
                    places@[l],
                ),
            forall|k: int, l: int|
                0 <= k < places@.len() && i <= l < left@.len() ==> #[trigger] precedes(
                    orders@,
                    views,
                    places@[k],
                    left@[l],
                ),
            forall|k: int, l: int|
                0 <= k < places@.len() && j <= l < right@.len() ==> #[trigger] precedes(
                    orders@,
                    views,
                    places@[k],
                    right@[l],
                ),
        decreases left@.len() - i + right@.len() - j,
    {
        let from_left = if i == left.len() {
            false
        } else if j == right.len() {
            true
        } else {
            let a: usize = left[i];
            let b: usize = right[j];
            proof {
                rank_is_symmetric(orders@, views[a as int], views[b as int]);
            }
            rank(orders, keys[a], keys[b]) != Rank::After
        };
        let ghost before = places@;
        if from_left {
            places.push(left[i]);
            proof {
                if j < right@.len() {
                    lemma_precedes_run(orders@, views, left@[i as int], right@, j as int);
                }
            }
            i = i + 1;
        } else {
            places.push(right[j]);
            proof {
                if i < left@.len() {
                    lemma_precedes_run(orders@, views, right@[j as int], left@, i as int);
                }
            }
            j = j + 1;
        }
        assert(places@.drop_last() =~= before);
    }
    places
}

/// Sorts the messages from `start` up to `end`.
fn sort_run(orders: &Vec<SortOrder>, keys: &Vec<&SortKeys>, start: usize, end: usize) -> (places:
    Vec<usize>)
    requires
        start <= end <= keys@.len(),
    ensures
        is_sorted_run(orders@, key_views(keys@), start as int, end as int, places@),
    decreases end - start,
{
    if end - start == 0 {
        return Vec::new();
    }
    if end - start == 1 {
        let mut places: Vec<usize> = Vec::new();
        places.push(start);
        return places;
    }
    let middle: usize = start + (end - start) / 2;
    let left = sort_run(orders, keys, start, middle);
    let right = sort_run(orders, keys, middle, end);
    merge(
        orders,
        keys,
        &left,
        &right,
        Ghost(start as int),
        Ghost(middle as int),
        Ghost(end as int),
    )
}

/// The places of the messages, sorted. Messages that rank the same stay
/// in the order in which they are listed.
pub fn sort_places(orders: &Vec<SortOrder>, keys: &Vec<&SortKeys>) -> (places: Vec<usize>)
    ensures
        is_sorted(orders@, key_views(keys@), places@),
{
    sort_run(orders, keys, 0, keys.len())
}

/// A sorted list holds every message.
pub proof fn sorting_keeps_every_message(
    orders: Seq<SortOrder>,
    keys: Seq<KeysView>,
    places: Seq<usize>,
    place: usize,
)
    requires
        is_sorted(orders, keys, places),
        place < keys.len(),
    ensures
        places.contains(place),
{
    let found = places.map_values(|k: usize| k as int);
    assert forall|k: int, l: int| 0 <= k < l < found.len() implies found[k] != found[l] by {
        assert(precedes(orders, keys, places[k], places[l]));
        rank_is_symmetric(orders, keys[found[k]], keys[found[l]]);
    }
    assert(found.no_duplicates());
    found.unique_seq_to_set();
    let range = vstd::set_lib::set_int_range(0, keys.len() as int);
    vstd::set_lib::lemma_int_range(0, keys.len() as int);
    assert(found.to_set().subset_of(range));
    vstd::set_lib::lemma_subset_equality(found.to_set(), range);
    assert(range.contains(place as int));
    assert(found.contains(place as int));
    let k = choose|k: int| 0 <= k < found.len() && found[k] == place as int;
    assert(places[k] == place);
}

pub(crate) proof fn lemma_precedes_once(
    orders: Seq<SortOrder>,
    keys: Seq<KeysView>,
    i: usize,
    j: usize,
)
    requires
        precedes(orders, keys, i, j),
    ensures
        !precedes(orders, keys, j, i),
{
    rank_is_symmetric(orders, keys[i as int], keys[j as int]);
}

/// Messages that can be sorted can be counted.
pub(crate) proof fn sorting_fits(
    orders: Seq<SortOrder>,
    keys: Seq<KeysView>,
    places: Seq<usize>,
)
    requires
        is_sorted(orders, keys, places),
    ensures
        keys.len() <= usize::MAX + 1,
{
    let found = places.map_values(|k: usize| k as int);
    assert forall|k: int, l: int| 0 <= k < l < found.len() implies found[k] != found[l] by {
        assert(precedes(orders, keys, places[k], places[l]));
        lemma_precedes_once(orders, keys, places[k], places[l]);
    }
    assert(found.no_duplicates());
    found.unique_seq_to_set();
    let range = vstd::set_lib::set_int_range(0, usize::MAX + 1);
    vstd::set_lib::lemma_int_range(0, usize::MAX + 1);
    assert(found.to_set().subset_of(range));
    vstd::set_lib::lemma_len_subset(found.to_set(), range);
}

proof fn lemma_sorted_prefix(
    orders: Seq<SortOrder>,
    keys: Seq<KeysView>,
    first: Seq<usize>,
    second: Seq<usize>,
    k: int,
)
    requires
        is_sorted(orders, keys, first),
        is_sorted(orders, keys, second),
        0 <= k <= keys.len(),
    ensures
        first.take(k) =~= second.take(k),
    decreases k,
{
    if k > 0 {
        lemma_sorted_prefix(orders, keys, first, second, k - 1);
        let a = first[k - 1];
        let b = second[k - 1];
        if a != b {
            sorting_keeps_every_message(orders, keys, second, a);
            let l = choose|l: int| 0 <= l < second.len() && second[l] == a;
            sorting_keeps_every_message(orders, keys, first, b);
            let m = choose|m: int| 0 <= m < first.len() && first[m] == b;
            if l < k - 1 {
                assert(first.take(k - 1)[l] == second.take(k - 1)[l]);
                assert(precedes(orders, keys, first[l], first[k - 1]));
                lemma_precedes_once(orders, keys, a, a);
            } else if m < k - 1 {
                assert(first.take(k - 1)[m] == second.take(k - 1)[m]);
                assert(precedes(orders, keys, second[m], second[k - 1]));
                lemma_precedes_once(orders, keys, b, b);
            } else {
                assert(precedes(orders, keys, second[k - 1], second[l]));
                assert(precedes(orders, keys, first[k - 1], first[m]));
                lemma_precedes_once(orders, keys, a, b);
            }
        }
        assert forall|i: int| 0 <= i < k implies first[i] == second[i] by {
            if i < k - 1 {
                assert(first.take(k - 1)[i] == second.take(k - 1)[i]);
            }
        }
    }
}

/// There is one way to sort.
pub proof fn sorting_is_determined(
    orders: Seq<SortOrder>,
    keys: Seq<KeysView>,
    first: Seq<usize>,
    second: Seq<usize>,
)
    requires
        is_sorted(orders, keys, first),
        is_sorted(orders, keys, second),
    ensures
        first == second,
{
    lemma_sorted_prefix(orders, keys, first, second, keys.len() as int);
    assert(first.take(keys.len() as int) =~= first);
    assert(second.take(keys.len() as int) =~= second);
}

} // verus!
