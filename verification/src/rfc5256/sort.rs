//! IMAP SORT coroutine ([`ImapMessageSort`]) with a client-side fallback.
//!
//! Runs the SORT command, or, when the server lacks the SORT extension
//! (or the caller opts out via `fallback`), SEARCH, then FETCH, then a
//! local sort. Both paths return the same ids.

use std::collections::BTreeMap;

use imap_codec::fragmentizer::Fragmentizer;
use imap_codec::imap_types;
use imap_codec::imap_types::extensions::sort::SortCriterion;
use imap_codec::imap_types::fetch::MessageDataItem;
use imap_codec::imap_types::search::SearchKey;
use vstd::multiset::Multiset;
use vstd::prelude::*;
use vstd::std_specs::btree::increasing_seq;
use vstd::std_specs::cmp::OrdSpec;
use vstd::std_specs::iter::IteratorSpec;

use crate::command::{
    are_ids, encode_sort, fresh_tag, item_names, item_set, sequence_set, sequence_set_of,
    utf_8, utf_8_name, CommandView, ItemName,
};
use crate::coroutine::{arg_view, ImapCoroutine, ImapCoroutineState, ImapYield, YieldView};
use crate::framing::{framing, Framing};
use crate::outcome::{
    conclude, each_of, judge, last_of, result_view, step_view, verdict, FailureView, Refusal,
};
use crate::response::{DataView, ServerData};
use crate::rfc3501::fetch::{
    fetch_outcome, ImapMessageFetch, ImapMessageFetchError, ImapMessageFetchOptions,
};
use crate::rfc3501::search::{
    search_outcome, ImapMessageSearch, ImapMessageSearchError, ImapMessageSearchOptions,
};
use crate::rfc3501::store::{items_view, MessageItems};
use crate::rfc5256::order::{
    is_sorted, key_views, keys_of, lemma_precedes_once, precedes, read_orders, sort_keys,
    sort_orders, sort_places, sorting_fits, sorting_is_determined, sorting_keeps_every_message,
    KeysView, SortField, SortKeys, SortOrder,
};
use crate::send::{
    begins, data_views, first_step_of, starts, ImapSend, ImapSendError, ImapSendOutput, OutputView,
    SendState,
};

verus! {

/// How many messages one FETCH of the fallback asks for at most.
pub const MAX_CHUNK: usize = 255;

/// Failure causes during the IMAP SORT flow.
#[derive(Clone, Debug)]
pub enum ImapMessageSortError {
    /// The server rejected the SORT command with a NO response.
    No(String),
    /// The server rejected the SORT command with a BAD response.
    Bad(String),
    /// The server closed the connection with a BYE response.
    Bye(String),
    /// The server never answered with a tagged response.
    MissingTagged,
    /// The server completed the command without any SORT data.
    MissingData,
    /// A chunk of searched ids could not form a valid sequence set.
    InvalidSequenceSet,
    /// The underlying exchange failed.
    Send(ImapSendError),
    /// The SEARCH step of the fallback failed.
    Search(ImapMessageSearchError),
    /// The FETCH step of the fallback failed.
    Fetch(ImapMessageFetchError),
}

impl View for ImapMessageSortError {
    type V = FailureView;

    open spec fn view(&self) -> FailureView {
        match *self {
            ImapMessageSortError::No(text) => FailureView::No(text@),
            ImapMessageSortError::Bad(text) => FailureView::Bad(text@),
            ImapMessageSortError::Bye(text) => FailureView::Bye(text@),
            ImapMessageSortError::MissingTagged => FailureView::MissingTagged,
            ImapMessageSortError::MissingData => FailureView::MissingData,
            ImapMessageSortError::InvalidSequenceSet => FailureView::InvalidSequenceSet,
            ImapMessageSortError::Send(err) => FailureView::Send(err@),
            ImapMessageSortError::Search(err) => FailureView::Search(Box::new(err@)),
            ImapMessageSortError::Fetch(err) => FailureView::Fetch(Box::new(err@)),
        }
    }
}

impl ImapMessageSortError {
    fn refused(refusal: Refusal) -> (err: Self)
        ensures
            err@ == refusal@,
    {
        match refusal {
            Refusal::No(text) => ImapMessageSortError::No(text),
            Refusal::Bad(text) => ImapMessageSortError::Bad(text),
            Refusal::Bye(text) => ImapMessageSortError::Bye(text),
            Refusal::MissingTagged => ImapMessageSortError::MissingTagged,
        }
    }
}

/// Options for [`ImapMessageSort::new`].
#[derive(Clone, Debug, Eq, PartialEq)]
pub struct ImapMessageSortOptions {
    /// When `true`, sort UIDs; returned ids are UIDs.
    pub uid: bool,
    /// When `true`, skip the SORT command and sort client-side via
    /// SEARCH and FETCH; defaults to using the SORT of the server.
    pub fallback: bool,
}

impl Default for ImapMessageSortOptions {
    fn default() -> (opts: Self)
        ensures
            opts == (ImapMessageSortOptions { uid: false, fallback: false }),
    {
        ImapMessageSortOptions { uid: false, fallback: false }
    }
}

/// The item that a field is read from. What is displayed of an address
/// has no comparable data.
pub open spec fn item_of_field(field: SortField) -> Option<ItemName> {
    match field {
        SortField::Arrival => Some(ItemName::InternalDate),
        SortField::Size => Some(ItemName::Rfc822Size),
        SortField::DisplayFrom => None,
        SortField::DisplayTo => None,
        _ => Some(ItemName::Envelope),
    }
}

/// The items that the criteria are read from, each once, in order.
pub open spec fn criteria_items(orders: Seq<SortOrder>) -> Seq<ItemName>
    decreases orders.len(),
{
    if orders.len() == 0 {
        Seq::empty()
    } else {
        let before = criteria_items(orders.drop_last());
        match item_of_field(orders.last().field) {
            Some(item) => with_item(before, item),
            None => before,
        }
    }
}

/// The items, and `item` unless it is among them.
pub open spec fn with_item(items: Seq<ItemName>, item: ItemName) -> Seq<ItemName> {
    if items.contains(item) {
        items
    } else {
        items.push(item)
    }
}

/// The items that the fallback fetches: those of the criteria, an
/// envelope for the date that decides between messages that rank the
/// same, and the UID where ids are UIDs.
pub open spec fn items_to_fetch(orders: Seq<SortOrder>, uid: bool) -> Seq<ItemName> {
    let items = with_item(criteria_items(orders), ItemName::Envelope);
    if uid {
        with_item(items, ItemName::Uid)
    } else {
        items
    }
}

proof fn lemma_criteria_items(orders: Seq<SortOrder>)
    ensures
        criteria_items(orders).no_duplicates(),
        forall|k: int|
            0 <= k < orders.len() ==> match item_of_field((#[trigger] orders[k]).field) {
                Some(item) => criteria_items(orders).contains(item),
                None => true,
            },
        !criteria_items(orders).contains(ItemName::Uid),
    decreases orders.len(),
{
    if orders.len() > 0 {
        let before = criteria_items(orders.drop_last());
        lemma_criteria_items(orders.drop_last());
        match item_of_field(orders.last().field) {
            Some(item) => {
                lemma_with_item(before, item);
            },
            None => {},
        }
        assert forall|k: int| 0 <= k < orders.len() implies match item_of_field(
            (#[trigger] orders[k]).field,
        ) {
            Some(item) => criteria_items(orders).contains(item),
            None => true,
        } by {
            if k < orders.len() - 1 {
                assert(orders.drop_last()[k] == orders[k]);
            }
        }
    }
}

proof fn lemma_with_item(items: Seq<ItemName>, item: ItemName)
    requires
        items.no_duplicates(),
    ensures
        with_item(items, item).no_duplicates(),
        with_item(items, item).contains(item),
        forall|other: ItemName| #[trigger]
            with_item(items, item).contains(other) <==> (other == item || items.contains(other)),
{
    let after = with_item(items, item);
    if !items.contains(item) {
        assert(after.last() == item);
        assert forall|other: ItemName| #[trigger] after.contains(other) <==> (other == item
            || items.contains(other)) by {
            if items.contains(other) {
                let k = choose|k: int| 0 <= k < items.len() && items[k] == other;
                assert(after[k] == other);
            }
        }
    }
}

/// The fallback fetches what every criterion is read from, always an
/// envelope, the UID where ids are UIDs and only there, and nothing
/// twice.
pub proof fn items_to_fetch_suffice(orders: Seq<SortOrder>, uid: bool)
    ensures
        items_to_fetch(orders, uid).no_duplicates(),
        items_to_fetch(orders, uid).contains(ItemName::Envelope),
        items_to_fetch(orders, uid).contains(ItemName::Uid) == uid,
        forall|k: int|
            0 <= k < orders.len() ==> match item_of_field((#[trigger] orders[k]).field) {
                Some(item) => items_to_fetch(orders, uid).contains(item),
                None => true,
            },
{
    lemma_criteria_items(orders);
    let items = criteria_items(orders);
    lemma_with_item(items, ItemName::Envelope);
    lemma_with_item(with_item(items, ItemName::Envelope), ItemName::Uid);
}

fn add_item(items: &mut Vec<ItemName>, item: ItemName)
    ensures
        final(items)@ == with_item(old(items)@, item),
{
    for i in 0..items.len()
        invariant
            items@ == old(items)@,
            forall|k: int| 0 <= k < i ==> items@[k] != item,
    {
        if items[i] == item {
            return;
        }
    }
    items.push(item);
}

/// The items needed to sort by the criteria locally.
pub fn fetch_items(orders: &Vec<SortOrder>, uid: bool) -> (items: Vec<ItemName>)
    ensures
        items@ == items_to_fetch(orders@, uid),
{
    let mut items: Vec<ItemName> = Vec::new();
    assert(items@ =~= criteria_items(orders@.take(0)));
    for i in 0..orders.len()
        invariant
            items@ == criteria_items(orders@.take(i as int)),
    {
        proof {
            let seen = orders@.take(i + 1);
            assert(seen.drop_last() =~= orders@.take(i as int));
            assert(seen.last() == orders@[i as int]);
        }
        match orders[i].field {
            SortField::Arrival => add_item(&mut items, ItemName::InternalDate),
            SortField::Size => add_item(&mut items, ItemName::Rfc822Size),
            SortField::DisplayFrom => {},
            SortField::DisplayTo => {},
            _ => add_item(&mut items, ItemName::Envelope),
        }
    }
    assert(orders@.take(orders@.len() as int) =~= orders@);
    add_item(&mut items, ItemName::Envelope);
    if uid {
        add_item(&mut items, ItemName::Uid);
    }
    items
}

/// Models of the keys of messages, by sequence number.
pub open spec fn fetched_view(fetched: Map<u32, SortKeys>) -> Map<u32, KeysView> {
    fetched.map_values(|keys: SortKeys| keys@)
}

/// Whether `entries` lists `fetched` in the order of the sequence
/// numbers.
pub open spec fn lists(entries: Seq<(u32, KeysView)>, fetched: Map<u32, KeysView>) -> bool {
    &&& forall|k: int, l: int| 0 <= k < l < entries.len() ==> entries[k].0 < entries[l].0
    &&& forall|k: int|
        0 <= k < entries.len() ==> fetched.contains_key((#[trigger] entries[k]).0)
            && fetched[entries[k].0] == entries[k].1
    &&& forall|seq: u32| #[trigger]
        fetched.contains_key(seq) ==> entries.contains((seq, fetched[seq]))
}

/// What the messages are ranked by.
pub open spec fn ranked(entries: Seq<(u32, KeysView)>) -> Seq<KeysView> {
    entries.map_values(|entry: (u32, KeysView)| entry.1)
}

/// The ids of messages in the given order: their sequence numbers, or
/// the UIDs of those that have one.
pub open spec fn ids_of(
    entries: Seq<(u32, KeysView)>,
    places: Seq<usize>,
    uid: bool,
) -> Seq<u32> {
    each_of(
        places,
        |place: usize|
            if uid {
                entries[place as int].1.uid
            } else {
                Some(entries[place as int].0)
            },
    )
}

/// Whether `ids` are the ids of the messages, sorted.
pub open spec fn is_local_sort(
    orders: Seq<SortOrder>,
    fetched: Map<u32, KeysView>,
    uid: bool,
    ids: Seq<u32>,
) -> bool {
    exists|entries: Seq<(u32, KeysView)>, places: Seq<usize>| #[trigger]
        is_sorted(orders, ranked(entries), places) && lists(entries, fetched) && ids == ids_of(
            entries,
            places,
            uid,
        )
}

proof fn lemma_increasing(numbers: Seq<u32>)
    requires
        increasing_seq(numbers),
    ensures
        forall|k: int, l: int| 0 <= k < l < numbers.len() ==> numbers[k] < numbers[l],
{
    broadcast use vstd::std_specs::btree::group_btree_axioms;

    assert forall|k: int, l: int| 0 <= k < l < numbers.len() implies numbers[k] < numbers[l] by {
        assert(numbers[k].cmp_spec(&numbers[l]) is Less);
    }
}

/// Sorts the fetched messages and returns their ids in order.
pub fn local_sort(
    orders: &Vec<SortOrder>,
    fetched: &BTreeMap<u32, SortKeys>,
    uid: bool,
) -> (ids: Vec<u32>)
    ensures
        is_local_sort(orders@, fetched_view(fetched@), uid, ids@),
{
    broadcast use vstd::std_specs::btree::group_btree_axioms;

    let iter = fetched.iter();
    let ghost listed = iter.remaining();
    let mut numbers: Vec<u32> = Vec::new();
    let mut keys: Vec<&SortKeys> = Vec::new();
    for listing in it: iter
        invariant
            it.seq() == listed,
            numbers@.len() == it.index(),
            keys@.len() == it.index(),
            forall|k: int| 0 <= k < it.index() ==> #[trigger] numbers@[k] == *listed[k].0,
            forall|k: int| 0 <= k < it.index() ==> *#[trigger] keys@[k] == *listed[k].1,
    {
        numbers.push(*listing.0);
        keys.push(listing.1);
    }
    let ghost view = fetched_view(fetched@);
    let ghost entries = Seq::new(numbers@.len(), |k: int| (numbers@[k], keys@[k]@));
    let places = sort_places(orders, &keys);
    assert(ranked(entries) =~= key_views(keys@));
    assert(lists(entries, view)) by {
        let order = listed.map_values(|kv: (&u32, &SortKeys)| *kv.0);
        lemma_increasing(order);
        assert forall|k: int, l: int| 0 <= k < l < entries.len() implies entries[k].0
            < entries[l].0 by {
            assert(order[k] == entries[k].0 && order[l] == entries[l].0);
        }
        assert forall|k: int| 0 <= k < entries.len() implies view.contains_key(
            (#[trigger] entries[k]).0,
        ) && view[entries[k].0] == entries[k].1 by {
            assert(fetched@.contains_key(*listed[k].0));
        }
        assert forall|seq: u32| #[trigger] view.contains_key(seq) implies entries.contains(
            (seq, view[seq]),
        ) by {
            assert(fetched@.contains_key(seq));
            let k = listed.index_of((&seq, &fetched@[seq]));
            assert(entries[k] == (seq, view[seq]));
        }
    }
    let mut ids: Vec<u32> = Vec::new();
    assert(ids@ =~= ids_of(entries, places@.take(0), uid));
    for i in 0..places.len()
        invariant
            is_sorted(orders@, ranked(entries), places@),
            entries.len() == numbers@.len(),
            keys@.len() == numbers@.len(),
            forall|k: int|
                0 <= k < entries.len() ==> #[trigger] entries[k] == (numbers@[k], keys@[k]@),
            ids@ == ids_of(entries, places@.take(i as int), uid),
    {
        let place: usize = places[i];
        proof {
            let seen = places@.take(i + 1);
            assert(seen.drop_last() =~= places@.take(i as int));
            assert(seen.last() == place);
            assert(entries[place as int] == (numbers@[place as int], keys@[place as int]@));
        }
        if uid {
            if let Some(found) = keys[place].uid {
                ids.push(found);
            }
        } else {
            ids.push(numbers[place]);
        }
    }
    assert(places@.take(places@.len() as int) =~= places@);
    ids
}

/// The ids of the last SORT response.
pub open spec fn sorted_ids(data: Seq<DataView>) -> Option<Seq<u32>> {
    last_of(
        data,
        |item: DataView|
            match item {
                DataView::Sort(found) => Some(found),
                _ => None,
            },
    )
}

/// What the answer to SORT amounts to.
pub open spec fn sort_outcome(output: OutputView) -> Result<Seq<u32>, FailureView> {
    match verdict(output) {
        Ok(_) => match sorted_ids(output.data) {
            Some(ids) => Ok(ids),
            None => Err(FailureView::MissingData),
        },
        Err(err) => Err(err),
    }
}

proof fn lemma_listing_prefix(
    first: Seq<(u32, KeysView)>,
    second: Seq<(u32, KeysView)>,
    fetched: Map<u32, KeysView>,
    k: int,
)
    requires
        lists(first, fetched),
        lists(second, fetched),
        0 <= k <= first.len(),
    ensures
        k <= second.len(),
        forall|i: int| 0 <= i < k ==> first[i] == #[trigger] second[i],
    decreases k,
{
    if k > 0 {
        lemma_listing_prefix(first, second, fetched, k - 1);
        let number = first[k - 1].0;
        assert(fetched.contains_key(number));
        let m = choose|m: int| 0 <= m < second.len() && second[m] == (number, fetched[number]);
        if m < k - 1 {
            assert(first[m] == second[m]);
        }
        let other = second[k - 1].0;
        assert(fetched.contains_key(other));
        let n = choose|n: int| 0 <= n < first.len() && first[n] == (other, fetched[other]);
        if n < k - 1 {
            assert(first[n] == second[n]);
        }
    }
}

/// What a local sort returns is determined by the criteria and by what
/// was fetched.
pub proof fn local_sort_is_determined(
    orders: Seq<SortOrder>,
    fetched: Map<u32, KeysView>,
    uid: bool,
    first: Seq<u32>,
    second: Seq<u32>,
)
    requires
        is_local_sort(orders, fetched, uid, first),
        is_local_sort(orders, fetched, uid, second),
    ensures
        first == second,
{
    let (entries, places) = choose|entries: Seq<(u32, KeysView)>, places: Seq<usize>| #[trigger]
        is_sorted(orders, ranked(entries), places) && lists(entries, fetched) && first == ids_of(
            entries,
            places,
            uid,
        );
    let (others, elsewhere) = choose|entries: Seq<(u32, KeysView)>, places: Seq<usize>| #[trigger]
        is_sorted(orders, ranked(entries), places) && lists(entries, fetched) && second == ids_of(
            entries,
            places,
            uid,
        );
    lemma_listing_prefix(entries, others, fetched, entries.len() as int);
    lemma_listing_prefix(others, entries, fetched, others.len() as int);
    assert(entries =~= others);
    sorting_is_determined(orders, ranked(entries), places, elsewhere);
}

proof fn lemma_numbers(entries: Seq<(u32, KeysView)>, places: Seq<usize>)
    ensures
        ids_of(entries, places, false) =~= places.map_values(
            |place: usize| entries[place as int].0,
        ),
    decreases places.len(),
{
    if places.len() > 0 {
        lemma_numbers(entries, places.drop_last());
    }
}

/// Without UIDs, a local sort returns the sequence numbers of the fetched
/// messages, each once.
pub proof fn local_sort_keeps_every_message(
    orders: Seq<SortOrder>,
    fetched: Map<u32, KeysView>,
    ids: Seq<u32>,
)
    requires
        is_local_sort(orders, fetched, false, ids),
    ensures
        ids.no_duplicates(),
        forall|number: u32| #[trigger] ids.contains(number) <==> fetched.contains_key(number),
{
    let (entries, places) = choose|entries: Seq<(u32, KeysView)>, places: Seq<usize>| #[trigger]
        is_sorted(orders, ranked(entries), places) && lists(entries, fetched) && ids == ids_of(
            entries,
            places,
            false,
        );
    lemma_numbers(entries, places);
    assert forall|number: u32| #[trigger]
        ids.contains(number) <==> fetched.contains_key(number) by {
        if ids.contains(number) {
            let k = choose|k: int| 0 <= k < ids.len() && ids[k] == number;
            assert(entries[places[k] as int].0 == number);
        }
        if fetched.contains_key(number) {
            let entry = (number, fetched[number]);
            let k = choose|k: int| 0 <= k < entries.len() && entries[k] == entry;
            sorting_fits(orders, ranked(entries), places);
            sorting_keeps_every_message(orders, ranked(entries), places, k as usize);
            let l = choose|l: int| 0 <= l < places.len() && places[l] == k as usize;
            assert(ids[l] == number);
        }
    }
    assert forall|k: int, l: int| 0 <= k < l < ids.len() implies ids[k] != ids[l] by {
        assert(precedes(orders, ranked(entries), places[k], places[l]));
        lemma_precedes_once(orders, ranked(entries), places[k], places[l]);
        if places[k] < places[l] {
            assert(entries[places[k] as int].0 < entries[places[l] as int].0);
        } else {
            assert(places[l] < places[k]);
            assert(entries[places[l] as int].0 < entries[places[k] as int].0);
        }
    }
}

/// The UIDs of the fetched messages, each as often as messages have it.
pub open spec fn fetched_uids(fetched: Map<u32, KeysView>) -> Multiset<u32> {
    fetched.dom().to_seq().map_values(|number: u32| fetched[number].uid->0).to_multiset()
}

proof fn lemma_set_listing(numbers: Set<u32>)
    requires
        numbers.finite(),
    ensures
        numbers.to_seq().no_duplicates(),
        forall|number: u32| #[trigger]
            numbers.to_seq().contains(number) <==> numbers.contains(number),
    decreases numbers.len(),
{
    let all = numbers.to_seq();
    numbers.lemma_to_seq_to_set_id();
    assert forall|number: u32| #[trigger] all.contains(number) <==> numbers.contains(number) by {
        assert(all.to_set().contains(number) <==> all.contains(number));
    }
    if numbers.len() > 0 {
        let first = numbers.choose();
        let rest = numbers.remove(first);
        lemma_set_listing(rest);
        assert(all == Seq::<u32>::empty().push(first) + rest.to_seq());
        assert(!rest.to_seq().contains(first));
        assert forall|i: int, j: int| 0 <= i < j < all.len() implies all[i] != all[j] by {
            assert(all[j] == rest.to_seq()[j - 1]);
            if i == 0 {
                assert(rest.to_seq().contains(all[j]));
            } else {
                assert(all[i] == rest.to_seq()[i - 1]);
            }
        }
    }
}

proof fn lemma_same_items(first: Seq<u32>, second: Seq<u32>, item: spec_fn(u32) -> u32)
    requires
        first.no_duplicates(),
        second.no_duplicates(),
        forall|number: u32| #[trigger] first.contains(number) <==> second.contains(number),
    ensures
        first.map_values(item).to_multiset() == second.map_values(item).to_multiset(),
    decreases first.len(),
{
    if first.len() == 0 {
        if second.len() > 0 {
            assert(second.contains(second[0]));
            assert(first.contains(second[0]));
        }
        assert(first.map_values(item) =~= second.map_values(item));
    } else {
        let last = first.last();
        let head = first.drop_last();
        assert(first.contains(last));
        let j = choose|j: int| 0 <= j < second.len() && second[j] == last;
        let rest = second.remove(j);
        assert forall|number: u32| #[trigger] head.contains(number) <==> rest.contains(number) by {
            lemma_remains(first, first.len() - 1, number);
            lemma_remains(second, j, number);
            assert(first.remove(first.len() - 1) =~= head);
        }
        lemma_same_items(head, rest, item);
        let firsts = first.map_values(item);
        let seconds = second.map_values(item);
        assert(firsts =~= head.map_values(item).push(item(last)));
        assert(seconds.remove(j) =~= rest.map_values(item));
        head.map_values(item).to_multiset_ensures();
        seconds.to_multiset_ensures();
        assert(seconds.contains(seconds[j]));
        assert(seconds.to_multiset() =~= seconds.to_multiset().remove(item(last)).insert(
            item(last),
        ));
    }
}

/// What is left of numbers without duplicates once one is taken out.
proof fn lemma_remains(numbers: Seq<u32>, at: int, number: u32)
    requires
        numbers.no_duplicates(),
        0 <= at < numbers.len(),
    ensures
        numbers.remove(at).contains(number) <==> numbers.contains(number) && number != numbers[at],
{
    let rest = numbers.remove(at);
    if rest.contains(number) {
        let i = choose|i: int| 0 <= i < rest.len() && rest[i] == number;
        if i < at {
            assert(numbers[i] == number);
        } else {
            assert(numbers[i + 1] == number);
        }
    }
    if numbers.contains(number) && number != numbers[at] {
        let i = choose|i: int| 0 <= i < numbers.len() && numbers[i] == number;
        if i < at {
            assert(rest[i] == number);
        } else {
            assert(rest[i - 1] == number);
        }
    }
}

proof fn lemma_uids(
    entries: Seq<(u32, KeysView)>,
    places: Seq<usize>,
    fetched: Map<u32, KeysView>,
)
    requires
        lists(entries, fetched),
        forall|k: int| 0 <= k < places.len() ==> #[trigger] places[k] < entries.len(),
        forall|number: u32| #[trigger]
            fetched.contains_key(number) ==> fetched[number].uid is Some,
    ensures
        ids_of(entries, places, true) =~= ids_of(entries, places, false).map_values(
            |number: u32| fetched[number].uid->0,
        ),
    decreases places.len(),
{
    if places.len() > 0 {
        let head = places.drop_last();
        assert forall|k: int| 0 <= k < head.len() implies #[trigger] head[k] < entries.len() by {
            assert(head[k] == places[k]);
        }
        lemma_uids(entries, head, fetched);
        let entry = entries[places.last() as int];
        assert(places[places.len() - 1] < entries.len());
        assert(fetched.contains_key(entry.0) && fetched[entry.0] == entry.1);
    }
}

/// Where every fetched message has a UID, a local sort of UIDs returns
/// those UIDs, each as often as messages have it.
pub proof fn local_sort_keeps_every_uid(
    orders: Seq<SortOrder>,
    fetched: Map<u32, KeysView>,
    ids: Seq<u32>,
)
    requires
        is_local_sort(orders, fetched, true, ids),
        forall|number: u32| #[trigger]
            fetched.contains_key(number) ==> fetched[number].uid is Some,
    ensures
        ids.to_multiset() == fetched_uids(fetched),
{
    let (entries, places) = choose|entries: Seq<(u32, KeysView)>, places: Seq<usize>| #[trigger]
        is_sorted(orders, ranked(entries), places) && lists(entries, fetched) && ids == ids_of(
            entries,
            places,
            true,
        );
    let numbers = ids_of(entries, places, false);
    assert(is_local_sort(orders, fetched, false, numbers));
    local_sort_keeps_every_message(orders, fetched, numbers);
    lemma_uids(entries, places, fetched);
    assert(fetched.dom() =~= numbers.to_set());
    lemma_set_listing(fetched.dom());
    lemma_same_items(
        numbers,
        fetched.dom().to_seq(),
        |number: u32| fetched[number].uid->0,
    );
}

/// Every id is asked for once, in chunks.
pub proof fn chunks_cover_every_id(remaining: Seq<u32>)
    requires
        remaining.len() > 0,
    ensures
        0 < chunk_of(remaining).len() <= MAX_CHUNK,
        chunk_of(remaining) + after_chunk(remaining) == remaining,
{
    assert(chunk_of(remaining) + after_chunk(remaining) =~= remaining);
}

/// Where the coroutine stands.
pub enum SortPhase {
    Sort(SendState),
    Search(SendState),
    Fetch(SendState),
}

/// Model of [`ImapMessageSort`].
pub struct SortState {
    pub phase: SortPhase,
    pub uid: bool,
    pub orders: Seq<SortOrder>,
    pub items: Seq<ItemName>,
    pub remaining: Seq<u32>,
    pub fetched: Map<u32, KeysView>,
}

/// What a step of the coroutine returns.
pub type SortResult = ImapCoroutineState<YieldView, Result<Seq<u32>, FailureView>>;

/// The first ids, as many as one FETCH asks for.
pub open spec fn chunk_of(remaining: Seq<u32>) -> Seq<u32> {
    if remaining.len() < MAX_CHUNK {
        remaining
    } else {
        remaining.take(MAX_CHUNK as int)
    }
}

/// The ids that are left once the first are fetched.
pub open spec fn after_chunk(remaining: Seq<u32>) -> Seq<u32> {
    remaining.skip(chunk_of(remaining).len() as int)
}

impl SortState {
    /// Ready to sort by the criteria.
    pub open spec fn starts(
        self,
        criteria: imap_types::core::Vec1<SortCriterion>,
        search: imap_types::core::Vec1<SearchKey<'static>>,
        opts: ImapMessageSortOptions,
    ) -> bool {
        &&& match self.phase {
            SortPhase::Sort(send) => !opts.fallback && starts(
                send,
                CommandView::Sort {
                    keys: criteria,
                    charset: utf_8(),
                    criteria: search,
                    uid: opts.uid,
                },
            ),
            SortPhase::Search(send) => opts.fallback && starts(
                send,
                CommandView::Search { charset: None, criteria: search, uid: opts.uid },
            ),
            SortPhase::Fetch(_) => false,
        }
        &&& self.uid == opts.uid
        &&& self.orders == sort_orders(criteria)
        &&& self.items == items_to_fetch(sort_orders(criteria), opts.uid)
        &&& self.remaining.len() == 0
        &&& self.fetched == Map::<u32, KeysView>::empty()
    }

    /// Asks for the next ids, under a fresh tag.
    pub open spec fn fetches(self, after: SortState, result: SortResult) -> bool {
        let rest = after_chunk(self.remaining);
        if are_ids(chunk_of(self.remaining)) {
            &&& after == (SortState { phase: after.phase, remaining: rest, ..self })
            &&& after.phase matches SortPhase::Fetch(send)
            &&& result matches ImapCoroutineState::Yielded(y)
            &&& begins(
                send,
                y,
                CommandView::Fetch {
                    messages: sequence_set_of(chunk_of(self.remaining)),
                    items: item_set(self.items),
                    uid: self.uid,
                    modifiers: Seq::empty(),
                },
            )
        } else {
            &&& after == (SortState { remaining: rest, ..self })
            &&& result == ImapCoroutineState::<YieldView, _>::Complete(
                Err::<Seq<u32>, _>(FailureView::InvalidSequenceSet),
            )
        }
    }

    /// What a step of the SORT command leads to.
    pub open spec fn sorts(
        self,
        send: SendState,
        before: Framing,
        arg: Option<Seq<u8>>,
        after: (SortState, Framing),
        result: SortResult,
    ) -> bool {
        let inner = send.resume(before, arg);
        &&& after == (SortState { phase: SortPhase::Sort(inner.state), ..self }, inner.framing)
        &&& result == conclude(inner.result, |output: OutputView| sort_outcome(output))
    }

    /// What follows once the ids are found.
    pub open spec fn finds(self, ids: Seq<u32>, after: SortState, result: SortResult) -> bool {
        let state = SortState { remaining: ids, ..self };
        if ids.len() == 0 {
            &&& after == state
            &&& result == ImapCoroutineState::<YieldView, _>::Complete(Ok::<_, FailureView>(ids))
        } else {
            state.fetches(after, result)
        }
    }

    /// What follows once the items of some messages are fetched. What a
    /// later FETCH tells of a message replaces what an earlier one told.
    pub open spec fn gets(
        self,
        items: Map<u32, Seq<MessageDataItem<'static>>>,
        after: SortState,
        result: SortResult,
    ) -> bool {
        let fetched = self.fetched.union_prefer_right(item_keys(items));
        if self.remaining.len() == 0 {
            &&& after == (SortState { fetched: Map::empty(), ..self })
            &&& result matches ImapCoroutineState::Complete(Ok(ids))
            &&& is_local_sort(self.orders, fetched, self.uid, ids)
        } else {
            SortState { fetched, ..self }.fetches(after, result)
        }
    }

    /// What a step of the SEARCH command leads to.
    pub open spec fn searches(
        self,
        send: SendState,
        before: Framing,
        arg: Option<Seq<u8>>,
        after: (SortState, Framing),
        result: SortResult,
    ) -> bool {
        let inner = send.resume(before, arg);
        let state = SortState { phase: SortPhase::Search(inner.state), ..self };
        &&& after.1 == inner.framing
        &&& match conclude(inner.result, |output: OutputView| search_outcome(output)) {
            ImapCoroutineState::Yielded(y) => {
                &&& after.0 == state
                &&& result == ImapCoroutineState::<_, Result<Seq<u32>, FailureView>>::Yielded(y)
            },
            ImapCoroutineState::Complete(Err(err)) => {
                &&& after.0 == state
                &&& result == ImapCoroutineState::<YieldView, _>::Complete(
                    Err::<Seq<u32>, _>(FailureView::Search(Box::new(err))),
                )
            },
            ImapCoroutineState::Complete(Ok(ids)) => state.finds(ids, after.0, result),
        }
    }

    /// What a step of a FETCH command leads to.
    pub open spec fn collects(
        self,
        send: SendState,
        before: Framing,
        arg: Option<Seq<u8>>,
        after: (SortState, Framing),
        result: SortResult,
    ) -> bool {
        let inner = send.resume(before, arg);
        let state = SortState { phase: SortPhase::Fetch(inner.state), ..self };
        &&& after.1 == inner.framing
        &&& match conclude(inner.result, |output: OutputView| fetch_outcome(output)) {
            ImapCoroutineState::Yielded(y) => {
                &&& after.0 == state
                &&& result == ImapCoroutineState::<_, Result<Seq<u32>, FailureView>>::Yielded(y)
            },
            ImapCoroutineState::Complete(Err(err)) => {
                &&& after.0 == state
                &&& result == ImapCoroutineState::<YieldView, _>::Complete(
                    Err::<Seq<u32>, _>(FailureView::Fetch(Box::new(err))),
                )
            },
            ImapCoroutineState::Complete(Ok(items)) => state.gets(items, after.0, result),
        }
    }

    /// What a step leads to. It is determined but for the tags of the
    /// commands.
    pub open spec fn steps(
        self,
        before: Framing,
        arg: Option<Seq<u8>>,
        after: (SortState, Framing),
        result: SortResult,
    ) -> bool {
        match self.phase {
            SortPhase::Sort(send) => self.sorts(send, before, arg, after, result),
            SortPhase::Search(send) => self.searches(send, before, arg, after, result),
            SortPhase::Fetch(send) => self.collects(send, before, arg, after, result),
        }
    }
}

/// One step of a run, with what it was given.
pub struct SortStep {
    pub before: Framing,
    pub arg: Option<Seq<u8>>,
    pub after: (SortState, Framing),
    pub result: SortResult,
}

/// Whether the steps are taken one after the other from `state` on, until
/// one completes.
pub open spec fn is_run(state: SortState, steps: Seq<SortStep>) -> bool
    decreases steps.len(),
{
    steps.len() > 0 && {
        let step = steps[0];
        &&& state.steps(step.before, step.arg, step.after, step.result)
        &&& steps.len() > 1 ==> step.result is Yielded && is_run(step.after.0, steps.skip(1))
    }
}

impl SortState {
    /// The exchange that is going on.
    pub open spec fn exchange(self) -> SendState {
        match self.phase {
            SortPhase::Sort(send) => send,
            SortPhase::Search(send) => send,
            SortPhase::Fetch(send) => send,
        }
    }

    /// The ids that the SEARCH command is answered with in this step.
    pub open spec fn found(self, step: SortStep) -> Option<Seq<u32>> {
        match conclude(
            self.exchange().resume(step.before, step.arg).result,
            |output: OutputView| search_outcome(output),
        ) {
            ImapCoroutineState::Complete(Ok(ids)) => if self.phase is Search {
                Some(ids)
            } else {
                None
            },
            _ => None,
        }
    }

    /// The items that a FETCH command is answered with in this step.
    pub open spec fn received(self, step: SortStep) -> Option<
        Map<u32, Seq<MessageDataItem<'static>>>,
    > {
        match conclude(
            self.exchange().resume(step.before, step.arg).result,
            |output: OutputView| fetch_outcome(output),
        ) {
            ImapCoroutineState::Complete(Ok(items)) => if self.phase is Fetch {
                Some(items)
            } else {
                None
            },
            _ => None,
        }
    }

    /// The ids that a FETCH command which begins with this step asks for.
    pub open spec fn asks(self, step: SortStep) -> Option<Seq<u32>> {
        if step.result is Complete {
            None
        } else if let Some(ids) = self.found(step) {
            Some(chunk_of(ids))
        } else if self.received(step) is Some {
            Some(chunk_of(self.remaining))
        } else {
            None
        }
    }
}

/// The ids that the SEARCH command of a run is answered with.
pub open spec fn ids_found(state: SortState, steps: Seq<SortStep>) -> Option<Seq<u32>>
    decreases steps.len(),
{
    if steps.len() == 0 {
        None
    } else {
        match state.found(steps[0]) {
            Some(ids) => Some(ids),
            None => ids_found(steps[0].after.0, steps.skip(1)),
        }
    }
}

/// The ids that each FETCH command of a run asks for, in order.
pub open spec fn ids_asked(state: SortState, steps: Seq<SortStep>) -> Seq<Seq<u32>>
    decreases steps.len(),
{
    if steps.len() == 0 {
        Seq::empty()
    } else {
        let rest = ids_asked(steps[0].after.0, steps.skip(1));
        match state.asks(steps[0]) {
            Some(ids) => seq![ids] + rest,
            None => rest,
        }
    }
}

/// What the FETCH commands of a run tell of the messages, after what is
/// known of them in `known`.
pub open spec fn keys_told(
    state: SortState,
    steps: Seq<SortStep>,
    known: Map<u32, KeysView>,
) -> Map<u32, KeysView>
    decreases steps.len(),
{
    if steps.len() == 0 {
        known
    } else {
        let told = match state.received(steps[0]) {
            Some(items) => known.union_prefer_right(item_keys(items)),
            None => known,
        };
        keys_told(steps[0].after.0, steps.skip(1), told)
    }
}

/// How many FETCH commands it takes to ask for that many ids.
pub open spec fn fetch_count(ids: nat) -> nat {
    (ids + MAX_CHUNK - 1) as nat / MAX_CHUNK as nat
}

/// A FETCH command that begins asks for its ids and for the items that
/// the criteria are read from, by UID where ids are UIDs.
pub proof fn fetch_asks_for_its_ids(state: SortState, step: SortStep)
    requires
        state.steps(step.before, step.arg, step.after, step.result),
        state.asks(step) is Some,
    ensures
        step.after.0.phase matches SortPhase::Fetch(send) && {
            &&& step.result matches ImapCoroutineState::Yielded(y)
            &&& begins(
                send,
                y,
                CommandView::Fetch {
                    messages: sequence_set_of(state.asks(step)->0),
                    items: item_set(state.items),
                    uid: state.uid,
                    modifiers: Seq::empty(),
                },
            )
        },
{
}

proof fn lemma_one_more_fetch(remaining: Seq<u32>)
    requires
        remaining.len() > 0,
    ensures
        fetch_count(remaining.len()) == 1 + fetch_count(after_chunk(remaining).len()),
        chunk_of(remaining) + after_chunk(remaining) == remaining,
{
    chunks_cover_every_id(remaining);
    let n = remaining.len() as int;
    if n < 255 {
        assert((n + 254) / 255 == 1);
    } else {
        assert((n + 254) / 255 == 1 + (n - 255 + 254) / 255);
    }
}

proof fn lemma_flatten_first(first: Seq<u32>, rest: Seq<Seq<u32>>)
    ensures
        (seq![first] + rest).flatten() == first + rest.flatten(),
{
    assert((seq![first] + rest).drop_first() =~= rest);
}

proof fn lemma_fetch_run(state: SortState, steps: Seq<SortStep>, ids: Seq<u32>)
    requires
        state.phase is Fetch,
        is_run(state, steps),
        steps.last().result == ImapCoroutineState::<YieldView, _>::Complete(
            Ok::<_, FailureView>(ids),
        ),
    ensures
        ids_asked(state, steps).len() == fetch_count(state.remaining.len()),
        ids_asked(state, steps).flatten() == state.remaining,
        is_local_sort(state.orders, keys_told(state, steps, state.fetched), state.uid, ids),
    decreases steps.len(),
{
    let step = steps[0];
    let next = step.after.0;
    let rest = steps.skip(1);
    if steps.len() == 1 {
        assert(ids_asked(next, rest) =~= Seq::empty());
        assert(ids_asked(state, steps).flatten() =~= state.remaining);
        let told = state.fetched.union_prefer_right(item_keys(state.received(step)->0));
        assert(keys_told(next, rest, told) == told);
    } else {
        assert(rest.last() == steps.last());
        lemma_fetch_run(next, rest, ids);
        if state.received(step) is Some {
            lemma_one_more_fetch(state.remaining);
            lemma_flatten_first(chunk_of(state.remaining), ids_asked(next, rest));
        }
    }
}

/// The fallback as a whole, from the SEARCH command to its end. As many
/// FETCH commands are sent as chunks are needed for the ids found, none
/// for no ids; together they ask for exactly these ids, in order. What is
/// returned are the ids of the messages that the FETCH commands told of,
/// sorted: by the criteria, then by date, then by sequence number.
pub proof fn fallback_sorts_what_is_found(
    state: SortState,
    steps: Seq<SortStep>,
    ids: Seq<u32>,
)
    requires
        state.phase is Search,
        state.fetched == Map::<u32, KeysView>::empty(),
        is_run(state, steps),
        steps.last().result == ImapCoroutineState::<YieldView, _>::Complete(
            Ok::<_, FailureView>(ids),
        ),
    ensures
        ids_found(state, steps) matches Some(found) && {
            &&& ids_asked(state, steps).len() == fetch_count(found.len())
            &&& ids_asked(state, steps).flatten() == found
            &&& found.len() == 0 ==> ids.len() == 0
        },
        is_local_sort(state.orders, keys_told(state, steps, Map::empty()), state.uid, ids),
    decreases steps.len(),
{
    let step = steps[0];
    let next = step.after.0;
    let rest = steps.skip(1);
    if steps.len() == 1 {
        assert(ids_asked(next, rest) =~= Seq::empty());
        assert(ids_asked(state, steps).flatten() =~= ids);
        assert(ids =~= Seq::empty());
        let none: Map<u32, KeysView> = Map::empty();
        assert(keys_told(next, rest, none) == none);
        let entries: Seq<(u32, KeysView)> = Seq::empty();
        let places: Seq<usize> = Seq::empty();
        assert(is_sorted(state.orders, ranked(entries), places));
        assert(ids_of(entries, places, state.uid) =~= ids);
        assert(lists(entries, none));
    } else {
        assert(rest.last() == steps.last());
        if let Some(found) = state.found(step) {
            lemma_fetch_run(next, rest, ids);
            lemma_one_more_fetch(found);
            lemma_flatten_first(chunk_of(found), ids_asked(next, rest));
        } else {
            fallback_sorts_what_is_found(next, rest, ids);
        }
    }
}

/// The fallback returns every message that the FETCH commands told of:
/// the sequence numbers, each once, or, where every message has a UID,
/// the UIDs, each as often as messages have it.
pub proof fn fallback_returns_every_message(
    state: SortState,
    steps: Seq<SortStep>,
    ids: Seq<u32>,
)
    requires
        state.phase is Search,
        state.fetched == Map::<u32, KeysView>::empty(),
        is_run(state, steps),
        steps.last().result == ImapCoroutineState::<YieldView, _>::Complete(
            Ok::<_, FailureView>(ids),
        ),
    ensures
        ({
            let told = keys_told(state, steps, Map::empty());
            &&& !state.uid ==> ids.no_duplicates() && forall|number: u32| #[trigger]
                ids.contains(number) <==> told.contains_key(number)
            &&& state.uid && (forall|number: u32| #[trigger]
                told.contains_key(number) ==> told[number].uid is Some) ==> ids.to_multiset()
                == fetched_uids(told)
        }),
{
    fallback_sorts_what_is_found(state, steps, ids);
    let told = keys_told(state, steps, Map::empty());
    if !state.uid {
        local_sort_keeps_every_message(state.orders, told, ids);
    } else if forall|number: u32| #[trigger]
        told.contains_key(number) ==> told[number].uid is Some {
        local_sort_keeps_every_uid(state.orders, told, ids);
    }
}

/// How the answers are split into reads does not matter.
pub proof fn reads_can_be_split(
    state: SortState,
    before: Framing,
    first: Seq<u8>,
    middle: (SortState, Framing),
    second: Seq<u8>,
    after: (SortState, Framing),
    result: SortResult,
)
    requires
        first.len() > 0,
        second.len() > 0,
        state.steps(
            before,
            Some(first),
            middle,
            ImapCoroutineState::Yielded(YieldView::WantsRead),
        ),
        middle.0.steps(middle.1, Some(second), after, result),
    ensures
        state.steps(before, Some(first + second), after, result),
{
    let send = match state.phase {
        SortPhase::Sort(send) => send,
        SortPhase::Search(send) => send,
        SortPhase::Fetch(send) => send,
    };
    crate::send::reads_can_be_split(send, before, first, second);
}

/// What the items of every message rank it by.
pub open spec fn item_keys(items: Map<u32, Seq<MessageDataItem<'static>>>) -> Map<u32, KeysView> {
    items.map_values(|items: Seq<MessageDataItem<'static>>| keys_of(items))
}

/// Where the coroutine stands.
enum State {
    Sort(ImapSend),
    Search(ImapMessageSearch),
    Fetch(ImapMessageFetch),
}

/// I/O-free IMAP SORT coroutine with a client-side fallback.
///
/// Without `fallback` it sends a plain SORT to the server. With it, it
/// searches the candidates, fetches what they are ranked by, and sorts
/// locally, returning the ids either way.
pub struct ImapMessageSort {
    state: State,
    uid: bool,
    orders: Vec<SortOrder>,
    items: Vec<ItemName>,
    remaining: Vec<u32>,
    fetched: BTreeMap<u32, SortKeys>,
}

impl View for ImapMessageSort {
    type V = SortState;

    closed spec fn view(&self) -> SortState {
        SortState {
            phase: match self.state {
                State::Sort(send) => SortPhase::Sort(send@),
                State::Search(search) => SortPhase::Search(search@),
                State::Fetch(fetch) => SortPhase::Fetch(fetch@),
            },
            uid: self.uid,
            orders: self.orders@,
            items: self.items@,
            remaining: self.remaining@,
            fetched: fetched_view(self.fetched@),
        }
    }
}

impl ImapMessageSort {
    /// Creates a coroutine that sorts the messages matching
    /// `search_criteria` by `sort_criteria`, server-side or locally.
    ///
    /// `opts.fallback` selects the client-side path and `opts.uid` the
    /// UID variant of every command involved.
    pub fn new(
        sort_criteria: imap_types::core::Vec1<SortCriterion>,
        search_criteria: imap_types::core::Vec1<SearchKey<'static>>,
        opts: ImapMessageSortOptions,
    ) -> (sort: Self)
        ensures
            sort@.starts(sort_criteria, search_criteria, opts),
    {
        broadcast use vstd::std_specs::btree::group_btree_axioms;

        let uid = opts.uid;
        let orders = read_orders(&sort_criteria);
        let items = fetch_items(&orders, uid);
        let state = if opts.fallback {
            let opts = ImapMessageSearchOptions { uid };
            State::Search(ImapMessageSearch::new(search_criteria, opts))
        } else {
            let charset = utf_8_name();
            let encoded = encode_sort(fresh_tag(), sort_criteria, charset, search_criteria, uid);
            State::Sort(ImapSend::new(encoded))
        };
        let sort = ImapMessageSort {
            state,
            uid,
            orders,
            items,
            remaining: Vec::new(),
            fetched: BTreeMap::new(),
        };
        assert(sort@.fetched =~= Map::empty());
        sort
    }

    /// What the answer to SORT amounts to.
    pub fn finish(output: ImapSendOutput) -> (result: Result<Vec<u32>, ImapMessageSortError>)
        ensures
            result_view(result) == sort_outcome(output@),
    {
        match judge(output.bye, output.tagged) {
            Ok(_) => {},
            Err(refusal) => {
                return Err(ImapMessageSortError::refused(refusal));
            },
        }
        let ghost views = data_views(output.data@);
        let mut ids: Option<Vec<u32>> = None;
        for data in it: output.data
            invariant
                it.seq() == output.data@,
                views == data_views(output.data@),
                match sorted_ids(views.take(it.index())) {
                    Some(found) => ids is Some && ids->0@ == found,
                    None => ids is None,
                },
        {
            proof {
                let seen = views.take(it.index() + 1);
                assert(seen.drop_last() =~= views.take(it.index()));
                assert(seen.last() == data@);
            }
            if let ServerData::Sort(found) = data {
                ids = Some(found);
            }
        }
        assert(views.take(views.len() as int) =~= views);
        match ids {
            Some(ids) => Ok(ids),
            None => Err(ImapMessageSortError::MissingData),
        }
    }

    /// Asks for the next ids.
    fn next_fetch(&mut self, fragmentizer: &mut Fragmentizer) -> (step: ImapCoroutineState<
        ImapYield,
        Result<Vec<u32>, ImapMessageSortError>,
    >)
        ensures
            framing(*final(fragmentizer)) == framing(*old(fragmentizer)),
            old(self)@.fetches(final(self)@, step_view(step)),
    {
        let take: usize = if self.remaining.len() < MAX_CHUNK {
            self.remaining.len()
        } else {
            MAX_CHUNK
        };
        let ghost all = self.remaining@;
        let rest = self.remaining.split_off(take);
        assert(self.remaining@ =~= chunk_of(all));
        assert(rest@ =~= after_chunk(all));
        let set = sequence_set(&self.remaining);
        self.remaining = rest;
        let set = match set {
            Some(set) => set,
            None => {
                return ImapCoroutineState::Complete(Err(ImapMessageSortError::InvalidSequenceSet));
            },
        };
        let modifiers = Vec::new();
        let opts = ImapMessageFetchOptions { uid: self.uid, modifiers };
        assert(opts.modifiers@ =~= Seq::empty());
        let mut fetch = ImapMessageFetch::new(set, item_names(&self.items), opts);
        proof {
            let command = CommandView::Fetch {
                messages: set,
                items: item_set(self.items@),
                uid: self.uid,
                modifiers: Seq::empty(),
            };
            first_step_of(fetch@, command, framing(*fragmentizer), None);
        }
        let step = fetch.resume(fragmentizer, None);
        self.state = State::Fetch(fetch);
        match step {
            ImapCoroutineState::Yielded(y) => ImapCoroutineState::Yielded(y),
            ImapCoroutineState::Complete(Ok(_)) => ImapCoroutineState::Complete(Ok(Vec::new())),
            ImapCoroutineState::Complete(Err(err)) => ImapCoroutineState::Complete(
                Err(ImapMessageSortError::Fetch(err)),
            ),
        }
    }

    /// Notes what the items of every message rank it by.
    fn collect(&mut self, items: &MessageItems)
        ensures
            final(self)@ == (SortState {
                fetched: old(self)@.fetched.union_prefer_right(item_keys(items_view(items@))),
                ..old(self)@
            }),
    {
        broadcast use vstd::std_specs::btree::group_btree_axioms;

        let iter = items.iter();
        let ghost listed = iter.remaining();
        let ghost told = item_keys(items_view(items@));
        let ghost before = self@;
        for (seq, list) in it: iter
            invariant
                it.seq() == listed,
                forall|k: int|
                    0 <= k < listed.len() ==> items@.contains_key(*(#[trigger] listed[k]).0)
                        && items@[*listed[k].0] == *listed[k].1,
                told == item_keys(items_view(items@)),
                self@ == (SortState { fetched: self@.fetched, ..before }),
                forall|number: u32|
                    #![trigger self@.fetched.contains_key(number)]
                    self@.fetched.contains_key(number) ==> before.fetched.contains_key(number)
                        || told.contains_key(number),
                forall|number: u32|
                    #![trigger self@.fetched.contains_key(number)]
                    before.fetched.contains_key(number) ==> self@.fetched.contains_key(number),
                forall|k: int|
                    0 <= k < it.index() ==> self@.fetched.contains_key(*(#[trigger] listed[k]).0),
                forall|k: int|
                    0 <= k < it.index() ==> self@.fetched[*(#[trigger] listed[k]).0]
                        == told[*listed[k].0],
                forall|number: u32|
                    #![trigger self@.fetched[number]]
                    before.fetched.contains_key(number) && !told.contains_key(number)
                        ==> self@.fetched[number] == before.fetched[number],
        {
            let ghost previous = self@.fetched;
            let keys = sort_keys(list);
            self.fetched.insert(*seq, keys);
            assert(self@.fetched =~= previous.insert(*seq, keys@));
        }
        assert(self@.fetched =~= before.fetched.union_prefer_right(told)) by {
            assert forall|number: u32| told.contains_key(number) implies self@.fetched.contains_key(
                number,
            ) && self@.fetched[number] == told[number] by {
                let k = listed.index_of((&number, &items@[number]));
                assert(*listed[k].0 == number);
            }
        }
    }

    /// Goes on once the ids are found.
    pub fn found(&mut self, ids: Vec<u32>, fragmentizer: &mut Fragmentizer) -> (step:
        ImapCoroutineState<ImapYield, Result<Vec<u32>, ImapMessageSortError>>)
        ensures
            old(self)@.finds(ids@, final(self)@, step_view(step)),
            framing(*final(fragmentizer)) == framing(*old(fragmentizer)),
    {
        let none = ids.len() == 0;
        self.remaining = ids;
        if none {
            let ids: Vec<u32> = Vec::new();
            assert(ids@ =~= self.remaining@);
            ImapCoroutineState::Complete(Ok(ids))
        } else {
            self.next_fetch(fragmentizer)
        }
    }

    /// Goes on once the items of some messages are fetched.
    pub fn fetched(&mut self, items: &MessageItems, fragmentizer: &mut Fragmentizer) -> (step:
        ImapCoroutineState<ImapYield, Result<Vec<u32>, ImapMessageSortError>>)
        ensures
            old(self)@.gets(items_view(items@), final(self)@, step_view(step)),
            framing(*final(fragmentizer)) == framing(*old(fragmentizer)),
    {
        broadcast use vstd::std_specs::btree::group_btree_axioms;

        self.collect(items);
        if self.remaining.len() == 0 {
            let ids = local_sort(&self.orders, &self.fetched, self.uid);
            self.fetched = BTreeMap::new();
            assert(self@.fetched =~= Map::empty());
            ImapCoroutineState::Complete(Ok(ids))
        } else {
            self.next_fetch(fragmentizer)
        }
    }
}

impl ImapCoroutine for ImapMessageSort {
    type Yield = ImapYield;

    type Return = Result<Vec<u32>, ImapMessageSortError>;

    fn resume(&mut self, fragmentizer: &mut Fragmentizer, arg: Option<&[u8]>) -> (step:
        ImapCoroutineState<ImapYield, Result<Vec<u32>, ImapMessageSortError>>)
        ensures
            old(self)@.steps(
                framing(*old(fragmentizer)),
                arg_view(arg),
                (final(self)@, framing(*final(fragmentizer))),
                step_view(step),
            ),
    {
        match &mut self.state {
            State::Sort(send) => match send.resume(fragmentizer, arg) {
                ImapCoroutineState::Yielded(y) => ImapCoroutineState::Yielded(y),
                ImapCoroutineState::Complete(Ok(output)) => ImapCoroutineState::Complete(
                    Self::finish(output),
                ),
                ImapCoroutineState::Complete(Err(err)) => ImapCoroutineState::Complete(
                    Err(ImapMessageSortError::Send(err)),
                ),
            },
            State::Search(search) => match search.resume(fragmentizer, arg) {
                ImapCoroutineState::Yielded(y) => ImapCoroutineState::Yielded(y),
                ImapCoroutineState::Complete(Ok(ids)) => self.found(ids, fragmentizer),
                ImapCoroutineState::Complete(Err(err)) => ImapCoroutineState::Complete(
                    Err(ImapMessageSortError::Search(err)),
                ),
            },
            State::Fetch(fetch) => match fetch.resume(fragmentizer, arg) {
                ImapCoroutineState::Yielded(y) => ImapCoroutineState::Yielded(y),
                ImapCoroutineState::Complete(Ok(items)) => self.fetched(&items, fragmentizer),
                ImapCoroutineState::Complete(Err(err)) => ImapCoroutineState::Complete(
                    Err(ImapMessageSortError::Fetch(err)),
                ),
            },
        }
    }
}

} // verus!
