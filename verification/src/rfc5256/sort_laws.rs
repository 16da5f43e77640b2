//! What sorting on the client side is for, stated over the dates, sizes
//! and subjects of the messages.

use imap_codec::imap_types;
use imap_codec::imap_types::extensions::sort::SortCriterion;
use imap_codec::imap_types::fetch::MessageDataItem;
use imap_codec::imap_types::search::SearchKey;
use vstd::prelude::*;

use crate::command::{are_ids, item_set, sequence_set_of, utf_8, CommandView, ItemName};
use crate::coroutine::ImapCoroutineState;
use crate::framing::Framing;
use crate::laws::{each_is_found, has_each, is_first};
use crate::outcome::FailureView;
use crate::rfc3501::fetch::fetch_outcome;
use crate::rfc3501::search::search_outcome;
use crate::rfc5256::order::{
    date_key, first_of, is_sorted, item_fact, keys_of, keys_of_facts, precedes, rank_by,
    rank_by_field, rank_by_order, rank_bytes, rank_is_symmetric, sort_orders, FactView, KeysView,
    Moment, Rank, SortField, SortOrder,
};
use crate::rfc5256::sort::{
    after_chunk, chunk_of, criteria_items, ids_of, is_local_sort, item_keys, items_to_fetch, lists,
    local_sort_keeps_every_message, ranked, sort_outcome, with_item, ImapMessageSortOptions,
    SortPhase, SortResult, SortState,
};
use crate::send::{begins, starts, SendState};

verus! {

/// Whether the instant `a` is earlier than `b`. No instant at all is
/// earlier than any.
pub open spec fn is_earlier(a: Option<Moment>, b: Option<Moment>) -> bool {
    match (a, b) {
        (None, Some(_)) => true,
        (Some(a), Some(b)) => a.0 < b.0 || (a.0 == b.0 && a.1 < b.1),
        _ => false,
    }
}

/// Whether the size `a` is smaller than `b`. No size at all is smaller
/// than any.
pub open spec fn is_smaller(a: Option<u32>, b: Option<u32>) -> bool {
    match (a, b) {
        (None, Some(_)) => true,
        (Some(a), Some(b)) => a < b,
        _ => false,
    }
}

/// Whether the bytes `a` and `b` agree up to place `at`, where `a` ends or
/// has the smaller byte.
pub open spec fn differ_at(a: Seq<u8>, b: Seq<u8>, at: int) -> bool {
    &&& 0 <= at <= a.len()
    &&& at < b.len()
    &&& a.take(at) == b.take(at)
    &&& at < a.len() ==> a[at] < b[at]
}

/// Whether the subject `a` stands before `b` in a dictionary of bytes. No
/// subject at all stands before any.
pub open spec fn is_alphabetical(a: Option<Seq<u8>>, b: Option<Seq<u8>>) -> bool {
    match (a, b) {
        (None, Some(_)) => true,
        (Some(a), Some(b)) => exists|at: int| #[trigger] differ_at(a, b, at),
        _ => false,
    }
}

/// Whether message `a` has less of a field than message `b`. Of an
/// address none has less than another.
pub open spec fn has_less(field: SortField, a: KeysView, b: KeysView) -> bool {
    match field {
        SortField::Arrival => is_earlier(a.arrival, b.arrival),
        SortField::Date => is_earlier(a.date, b.date),
        SortField::Size => is_smaller(a.size, b.size),
        SortField::Subject => is_alphabetical(a.subject, b.subject),
        SortField::Cc => false,
        SortField::From => false,
        SortField::To => false,
        SortField::DisplayFrom => false,
        SortField::DisplayTo => false,
    }
}

/// Whether two messages have the same of a field.
pub open spec fn has_same(field: SortField, a: KeysView, b: KeysView) -> bool {
    match field {
        SortField::Arrival => a.arrival == b.arrival,
        SortField::Date => a.date == b.date,
        SortField::Size => a.size == b.size,
        SortField::Subject => a.subject == b.subject,
        SortField::Cc => true,
        SortField::From => true,
        SortField::To => true,
        SortField::DisplayFrom => true,
        SortField::DisplayTo => true,
    }
}

/// Whether the id `x` stands before `y`.
pub open spec fn stands_before(ids: Seq<u32>, x: u32, y: u32) -> bool {
    &&& ids.contains(x)
    &&& ids.contains(y)
    &&& forall|p: int, q: int|
        0 <= p < ids.len() && 0 <= q < ids.len() && #[trigger] ids[p] == x && #[trigger] ids[q]
            == y ==> p < q
}

proof fn lemma_bytes(a: Seq<u8>, b: Seq<u8>)
    ensures
        rank_bytes(a, b) == Rank::Before <==> exists|at: int| #[trigger] differ_at(a, b, at),
        rank_bytes(a, b) == Rank::After <==> exists|at: int| #[trigger] differ_at(b, a, at),
        rank_bytes(a, b) == Rank::Same <==> a == b,
    decreases a.len(),
{
    if a.len() == 0 || b.len() == 0 {
        assert(a.take(0) =~= b.take(0));
        if a.len() < b.len() {
            assert(differ_at(a, b, 0));
        } else if a.len() > b.len() {
            assert(differ_at(b, a, 0));
        } else {
            assert(a =~= b);
        }
    } else if a[0] != b[0] {
        assert(a.take(0) =~= b.take(0));
        if a[0] < b[0] {
            assert(differ_at(a, b, 0));
        } else {
            assert(differ_at(b, a, 0));
        }
        assert forall|at: int| #[trigger] differ_at(a, b, at) implies at == 0 by {
            if at > 0 {
                assert(a.take(at)[0] == b.take(at)[0]);
            }
        }
        assert forall|at: int| #[trigger] differ_at(b, a, at) implies at == 0 by {
            if at > 0 {
                assert(a.take(at)[0] == b.take(at)[0]);
            }
        }
    } else {
        lemma_bytes(a.skip(1), b.skip(1));
        lemma_differ_later(a, b);
        lemma_differ_later(b, a);
        if a.skip(1) == b.skip(1) {
            assert(a =~= seq![a[0]] + a.skip(1));
            assert(b =~= seq![b[0]] + b.skip(1));
        }
    }
}

proof fn lemma_differ_later(a: Seq<u8>, b: Seq<u8>)
    requires
        a.len() > 0,
        b.len() > 0,
        a[0] == b[0],
    ensures
        (exists|at: int| #[trigger] differ_at(a, b, at)) <==> exists|at: int| #[trigger]
            differ_at(a.skip(1), b.skip(1), at),
{
    if exists|at: int| #[trigger] differ_at(a, b, at) {
        let at = choose|at: int| #[trigger] differ_at(a, b, at);
        assert(a.skip(1).take(at - 1) =~= a.take(at).skip(1));
        assert(b.skip(1).take(at - 1) =~= b.take(at).skip(1));
        assert(differ_at(a.skip(1), b.skip(1), at - 1));
    }
    if exists|at: int| #[trigger] differ_at(a.skip(1), b.skip(1), at) {
        let at = choose|at: int| #[trigger] differ_at(a.skip(1), b.skip(1), at);
        assert(a.take(at + 1) =~= seq![a[0]] + a.skip(1).take(at));
        assert(b.take(at + 1) =~= seq![b[0]] + b.skip(1).take(at));
        assert(differ_at(a, b, at + 1));
    }
}

proof fn lemma_field(field: SortField, a: KeysView, b: KeysView)
    ensures
        rank_by_field(field, a, b) == Rank::Before <==> has_less(field, a, b),
        rank_by_field(field, a, b) == Rank::After <==> has_less(field, b, a),
        rank_by_field(field, a, b) == Rank::Same <==> has_same(field, a, b),
{
    if a.subject is Some && b.subject is Some {
        lemma_bytes(a.subject->0, b.subject->0);
    }
}

/// A criterion ranks the message with less of its field first, whatever
/// the field. Reversed, it ranks that message last. Messages that have
/// the same of it rank the same either way.
pub proof fn reverse_is_the_opposite(field: SortField, a: KeysView, b: KeysView)
    ensures
        rank_by_order(SortOrder { reverse: false, field }, a, b) == Rank::Before <==> has_less(
            field,
            a,
            b,
        ),
        rank_by_order(SortOrder { reverse: true, field }, a, b) == Rank::After <==> has_less(
            field,
            a,
            b,
        ),
        rank_by_order(SortOrder { reverse: false, field }, a, b) == Rank::After <==> has_less(
            field,
            b,
            a,
        ),
        rank_by_order(SortOrder { reverse: true, field }, a, b) == Rank::Before <==> has_less(
            field,
            b,
            a,
        ),
        rank_by_order(SortOrder { reverse: false, field }, a, b) == Rank::Same <==> has_same(
            field,
            a,
            b,
        ),
        rank_by_order(SortOrder { reverse: true, field }, a, b) == Rank::Same <==> has_same(
            field,
            a,
            b,
        ),
{
    lemma_field(field, a, b);
}

/// The first criterion of which two messages do not have the same ranks
/// them.
pub proof fn first_difference_ranks(orders: Seq<SortOrder>, a: KeysView, b: KeysView, at: int)
    requires
        0 <= at < orders.len(),
        forall|k: int| 0 <= k < at ==> has_same((#[trigger] orders[k]).field, a, b),
        has_less(orders[at].field, a, b),
    ensures
        rank_by(orders, a, b) == if orders[at].reverse {
            Rank::After
        } else {
            Rank::Before
        },
    decreases orders.len(),
{
    reverse_is_the_opposite(orders[0].field, a, b);
    assert(orders[0] == SortOrder { reverse: orders[0].reverse, field: orders[0].field });
    if at > 0 {
        let rest = orders.skip(1);
        assert forall|k: int| 0 <= k < at - 1 implies has_same(
            (#[trigger] rest[k]).field,
            a,
            b,
        ) by {
            assert(rest[k] == orders[k + 1]);
        }
        first_difference_ranks(rest, a, b, at - 1);
    }
}

/// Where two messages have the same of every criterion, the earlier date
/// ranks first, whether a criterion is reversed or not.
pub proof fn date_ranks_the_rest(orders: Seq<SortOrder>, a: KeysView, b: KeysView)
    requires
        forall|k: int| 0 <= k < orders.len() ==> has_same((#[trigger] orders[k]).field, a, b),
    ensures
        is_earlier(a.date, b.date) ==> rank_by(orders, a, b) == Rank::Before,
        a.date == b.date ==> rank_by(orders, a, b) == Rank::Same,
    decreases orders.len(),
{
    if orders.len() == 0 {
        lemma_field(SortField::Date, a, b);
    } else {
        let rest = orders.skip(1);
        reverse_is_the_opposite(orders[0].field, a, b);
        assert(orders[0] == SortOrder { reverse: orders[0].reverse, field: orders[0].field });
        assert forall|k: int| 0 <= k < rest.len() implies has_same(
            (#[trigger] rest[k]).field,
            a,
            b,
        ) by {
            assert(rest[k] == orders[k + 1]);
        }
        date_ranks_the_rest(rest, a, b);
    }
}

/// A message that ranks before another, or the same with a smaller
/// sequence number, stands before it.
proof fn lemma_stands_before(
    orders: Seq<SortOrder>,
    fetched: Map<u32, KeysView>,
    ids: Seq<u32>,
    x: u32,
    y: u32,
)
    requires
        is_local_sort(orders, fetched, false, ids),
        fetched.contains_key(x),
        fetched.contains_key(y),
        rank_by(orders, fetched[x], fetched[y]) == Rank::Before || (rank_by(
            orders,
            fetched[x],
            fetched[y],
        ) == Rank::Same && x < y),
    ensures
        stands_before(ids, x, y),
{
    local_sort_keeps_every_message(orders, fetched, ids);
    let (entries, places) = choose|entries: Seq<(u32, KeysView)>, places: Seq<usize>| #[trigger]
        is_sorted(orders, ranked(entries), places) && lists(entries, fetched) && ids == ids_of(
            entries,
            places,
            false,
        );
    let keys = ranked(entries);
    lemma_numbered(entries, places);
    rank_is_symmetric(orders, fetched[x], fetched[y]);
    rank_is_symmetric(orders, fetched[x], fetched[x]);
    assert forall|p: int, q: int|
        0 <= p < ids.len() && 0 <= q < ids.len() && #[trigger] ids[p] == x && #[trigger] ids[q]
            == y implies p < q by {
        assert(entries[places[p] as int].0 == x);
        assert(entries[places[q] as int].0 == y);
        assert(keys[places[p] as int] == fetched[x]);
        assert(keys[places[q] as int] == fetched[y]);
        if q < p {
            assert(precedes(orders, keys, places[q], places[p]));
            if places[q] < places[p] {
                assert(entries[places[q] as int].0 < entries[places[p] as int].0);
            }
        }
    }
}

proof fn lemma_numbered(entries: Seq<(u32, KeysView)>, places: Seq<usize>)
    ensures
        ids_of(entries, places, false).len() == places.len(),
        forall|k: int|
            0 <= k < places.len() ==> #[trigger] ids_of(entries, places, false)[k]
                == entries[places[k] as int].0,
    decreases places.len(),
{
    if places.len() > 0 {
        lemma_numbered(entries, places.drop_last());
    }
}

/// Of two messages, the one with less of the first criterion that they do
/// not have the same of stands first, or last where that criterion is
/// reversed.
pub proof fn sort_goes_by_the_criteria(
    orders: Seq<SortOrder>,
    fetched: Map<u32, KeysView>,
    ids: Seq<u32>,
    x: u32,
    y: u32,
    at: int,
)
    requires
        is_local_sort(orders, fetched, false, ids),
        fetched.contains_key(x),
        fetched.contains_key(y),
        0 <= at < orders.len(),
        forall|k: int|
            0 <= k < at ==> has_same((#[trigger] orders[k]).field, fetched[x], fetched[y]),
        has_less(orders[at].field, fetched[x], fetched[y]),
    ensures
        !orders[at].reverse ==> stands_before(ids, x, y),
        orders[at].reverse ==> stands_before(ids, y, x),
{
    first_difference_ranks(orders, fetched[x], fetched[y], at);
    rank_is_symmetric(orders, fetched[x], fetched[y]);
    if orders[at].reverse {
        lemma_stands_before(orders, fetched, ids, y, x);
    } else {
        lemma_stands_before(orders, fetched, ids, x, y);
    }
}

/// Sorted by date alone, the earlier of two messages stands first; by
/// date in reverse, the later one does.
pub proof fn sort_by_date_is_chronological(
    reverse: bool,
    fetched: Map<u32, KeysView>,
    ids: Seq<u32>,
    x: u32,
    y: u32,
)
    requires
        is_local_sort(seq![SortOrder { reverse, field: SortField::Date }], fetched, false, ids),
        fetched.contains_key(x),
        fetched.contains_key(y),
        is_earlier(fetched[x].date, fetched[y].date),
    ensures
        !reverse ==> stands_before(ids, x, y),
        reverse ==> stands_before(ids, y, x),
{
    let orders = seq![SortOrder { reverse, field: SortField::Date }];
    sort_goes_by_the_criteria(orders, fetched, ids, x, y, 0);
}

/// Messages that have the same of every criterion stand by their dates,
/// the earlier first, and those of one date by their sequence numbers.
pub proof fn sort_breaks_ties_by_date(
    orders: Seq<SortOrder>,
    fetched: Map<u32, KeysView>,
    ids: Seq<u32>,
    x: u32,
    y: u32,
)
    requires
        is_local_sort(orders, fetched, false, ids),
        fetched.contains_key(x),
        fetched.contains_key(y),
        forall|k: int|
            0 <= k < orders.len() ==> has_same(
                (#[trigger] orders[k]).field,
                fetched[x],
                fetched[y],
            ),
        is_earlier(fetched[x].date, fetched[y].date) || (fetched[x].date == fetched[y].date && x
            < y),
    ensures
        stands_before(ids, x, y),
{
    date_ranks_the_rest(orders, fetched[x], fetched[y]);
    lemma_stands_before(orders, fetched, ids, x, y);
}

/// Sorted by UID, the messages stand as they do by sequence number, each
/// under its UID; one without a UID is left out.
pub proof fn uids_stand_as_the_messages_do(
    orders: Seq<SortOrder>,
    fetched: Map<u32, KeysView>,
    ids: Seq<u32>,
)
    requires
        is_local_sort(orders, fetched, true, ids),
    ensures
        exists|numbers: Seq<u32>| #[trigger]
            is_local_sort(orders, fetched, false, numbers) && has_each(
                numbers,
                |number: u32| fetched[number].uid is Some,
                |number: u32| fetched[number].uid->0,
                ids,
            ),
{
    let (entries, places) = choose|entries: Seq<(u32, KeysView)>, places: Seq<usize>| #[trigger]
        is_sorted(orders, ranked(entries), places) && lists(entries, fetched) && ids == ids_of(
            entries,
            places,
            true,
        );
    let numbers = ids_of(entries, places, false);
    assert(is_local_sort(orders, fetched, false, numbers));
    lemma_uids_of(entries, places, fetched);
    each_is_found(
        numbers,
        |number: u32| fetched[number].uid,
        |number: u32| fetched[number].uid is Some,
        |number: u32| fetched[number].uid->0,
    );
}

proof fn lemma_uids_of(
    entries: Seq<(u32, KeysView)>,
    places: Seq<usize>,
    fetched: Map<u32, KeysView>,
)
    requires
        lists(entries, fetched),
        forall|k: int| 0 <= k < places.len() ==> #[trigger] places[k] < entries.len(),
    ensures
        ids_of(entries, places, true) == crate::outcome::each_of(
            ids_of(entries, places, false),
            |number: u32| fetched[number].uid,
        ),
    decreases places.len(),
{
    let numbers = ids_of(entries, places, false);
    if places.len() > 0 {
        let head = places.drop_last();
        lemma_uids_of(entries, head, fetched);
        assert(places.last() == places[places.len() - 1]);
        assert(numbers.drop_last() =~= ids_of(entries, head, false));
        assert(numbers.last() == entries[places.last() as int].0);
    }
}

proof fn lemma_first_found<B>(
    facts: Seq<FactView>,
    pick: spec_fn(FactView) -> Option<B>,
    wanted: spec_fn(FactView) -> bool,
    value: spec_fn(FactView) -> B,
)
    requires
        forall|fact: FactView| #[trigger] pick(fact) == if wanted(fact) {
            Some(value(fact))
        } else {
            None
        },
    ensures
        is_first(facts, wanted, value, first_of(facts, pick)),
    decreases facts.len(),
{
    if facts.len() > 0 {
        let head = facts.drop_last();
        let last = facts.last();
        lemma_first_found(head, pick, wanted, value);
        assert(pick(last) == if wanted(last) { Some(value(last)) } else { None });
        match first_of(head, pick) {
            Some(found) => {
                let i = choose|i: int|
                    0 <= i < head.len() && wanted(#[trigger] head[i]) && found == value(head[i])
                        && forall|j: int| 0 <= j < i ==> !wanted(#[trigger] head[j]);
                assert(facts[i] == head[i]);
                assert forall|j: int| 0 <= j < i implies !wanted(#[trigger] facts[j]) by {
                    assert(facts[j] == head[j]);
                }
            },
            None => {
                assert forall|j: int| 0 <= j < head.len() implies !wanted(#[trigger] facts[j]) by {
                    assert(facts[j] == head[j]);
                }
                assert(facts[facts.len() - 1] == last);
            },
        }
    }
}

/// A message is ranked by the first internal date and the first size that
/// its items tell, by the first date and the first subject that an
/// envelope among them holds, and has the first UID.
pub proof fn keys_are_what_is_told_first(facts: Seq<FactView>)
    ensures
        is_first(
            facts,
            |fact: FactView| fact is InternalDate,
            |fact: FactView| fact->InternalDate_0,
            keys_of_facts(facts).arrival,
        ),
        is_first(
            facts,
            |fact: FactView| fact is Rfc822Size,
            |fact: FactView| fact->Rfc822Size_0,
            keys_of_facts(facts).size,
        ),
        is_first(
            facts,
            |fact: FactView| fact is Envelope && fact->subject is Some,
            |fact: FactView| fact->subject->0,
            keys_of_facts(facts).subject,
        ),
        is_first(
            facts,
            |fact: FactView| fact is Uid,
            |fact: FactView| fact->Uid_0,
            keys_of_facts(facts).uid,
        ),
        exists|raw: Option<Seq<u8>>|
            keys_of_facts(facts).date == #[trigger] date_key(raw) && is_first(
                facts,
                |fact: FactView| fact is Envelope && fact->date is Some,
                |fact: FactView| fact->date->0,
                raw,
            ),
{
    lemma_first_found(
        facts,
        |fact: FactView|
            match fact {
                FactView::InternalDate(instant) => Some(instant),
                _ => None,
            },
        |fact: FactView| fact is InternalDate,
        |fact: FactView| fact->InternalDate_0,
    );
    lemma_first_found(
        facts,
        |fact: FactView|
            match fact {
                FactView::Rfc822Size(size) => Some(size),
                _ => None,
            },
        |fact: FactView| fact is Rfc822Size,
        |fact: FactView| fact->Rfc822Size_0,
    );
    lemma_first_found(
        facts,
        |fact: FactView|
            match fact {
                FactView::Envelope { date, .. } => date,
                _ => None,
            },
        |fact: FactView| fact is Envelope && fact->date is Some,
        |fact: FactView| fact->date->0,
    );
    lemma_first_found(
        facts,
        |fact: FactView|
            match fact {
                FactView::Envelope { subject, .. } => subject,
                _ => None,
            },
        |fact: FactView| fact is Envelope && fact->subject is Some,
        |fact: FactView| fact->subject->0,
    );
    lemma_first_found(
        facts,
        |fact: FactView|
            match fact {
                FactView::Uid(uid) => Some(uid),
                _ => None,
            },
        |fact: FactView| fact is Uid,
        |fact: FactView| fact->Uid_0,
    );
    assert(date_key(crate::rfc5256::order::date_of(facts)) == keys_of_facts(facts).date);
}

/// Whether the criteria have one of the given field.
pub open spec fn has_field(orders: Seq<SortOrder>, field: SortField) -> bool {
    exists|k: int| 0 <= k < orders.len() && (#[trigger] orders[k]).field == field
}

proof fn lemma_criteria(orders: Seq<SortOrder>)
    ensures
        criteria_items(orders).contains(ItemName::InternalDate) <==> has_field(
            orders,
            SortField::Arrival,
        ),
        criteria_items(orders).contains(ItemName::Rfc822Size) <==> has_field(
            orders,
            SortField::Size,
        ),
        forall|k: int|
            0 <= k < criteria_items(orders).len() ==> {
                let item = #[trigger] criteria_items(orders)[k];
                item == ItemName::InternalDate || item == ItemName::Rfc822Size || item
                    == ItemName::Envelope
            },
    decreases orders.len(),
{
    if orders.len() > 0 {
        let head = orders.drop_last();
        lemma_criteria(head);
        lemma_field_skip(orders, SortField::Arrival);
        lemma_field_skip(orders, SortField::Size);
        let before = criteria_items(head);
        lemma_with(before, ItemName::InternalDate);
        lemma_with(before, ItemName::Rfc822Size);
        lemma_with(before, ItemName::Envelope);
    }
}

proof fn lemma_field_skip(orders: Seq<SortOrder>, field: SortField)
    requires
        orders.len() > 0,
    ensures
        has_field(orders, field) <==> has_field(orders.drop_last(), field) || orders.last().field
            == field,
{
    let head = orders.drop_last();
    if has_field(orders, field) {
        let k = choose|k: int| 0 <= k < orders.len() && (#[trigger] orders[k]).field == field;
        if k < head.len() {
            assert(head[k] == orders[k]);
        }
    }
    if has_field(head, field) {
        let k = choose|k: int| 0 <= k < head.len() && (#[trigger] head[k]).field == field;
        assert(orders[k] == head[k]);
    }
    if orders.last().field == field {
        assert(orders[orders.len() - 1].field == field);
    }
}

proof fn lemma_with(items: Seq<ItemName>, item: ItemName)
    ensures
        forall|other: ItemName| #[trigger]
            with_item(items, item).contains(other) <==> other == item || items.contains(other),
{
    let after = with_item(items, item);
    assert forall|other: ItemName| #[trigger] after.contains(other) <==> other == item
        || items.contains(other) by {
        if !items.contains(item) {
            assert(after[items.len() as int] == item);
            if items.contains(other) {
                let k = choose|k: int| 0 <= k < items.len() && items[k] == other;
                assert(after[k] == other);
            }
        }
    }
}

/// What is fetched to sort by: the internal date for a sort by arrival,
/// the size for one by size, always an envelope, the UID where ids are
/// UIDs, and nothing else.
pub proof fn fetch_asks_for_what_is_needed(orders: Seq<SortOrder>, uid: bool, item: ItemName)
    ensures
        items_to_fetch(orders, uid).contains(ItemName::InternalDate) <==> has_field(
            orders,
            SortField::Arrival,
        ),
        items_to_fetch(orders, uid).contains(ItemName::Rfc822Size) <==> has_field(
            orders,
            SortField::Size,
        ),
        items_to_fetch(orders, uid).contains(ItemName::Envelope),
        items_to_fetch(orders, uid).contains(ItemName::Uid) <==> uid,
        items_to_fetch(orders, uid).contains(item) ==> item == ItemName::InternalDate || item
            == ItemName::Rfc822Size || item == ItemName::Envelope || item == ItemName::Uid,
{
    lemma_criteria(orders);
    let items = criteria_items(orders);
    lemma_with(items, ItemName::Envelope);
    lemma_with(with_item(items, ItemName::Envelope), ItemName::Uid);
}

/// Whether the next messages are asked for: the first of the ids, at most
/// 255 at once, in one FETCH of the items wanted; the other ids remain.
/// A zero among them is no id, and an error.
pub open spec fn asks_for_next(
    state: SortState,
    ids: Seq<u32>,
    fetched: Map<u32, KeysView>,
    after: SortState,
    result: SortResult,
) -> bool {
    let count = if ids.len() < 255 {
        ids.len() as int
    } else {
        255
    };
    let chunk = ids.take(count);
    &&& after.remaining == ids.skip(count)
    &&& after.fetched == fetched
    &&& after.uid == state.uid
    &&& after.orders == state.orders
    &&& after.items == state.items
    &&& if chunk.contains(0) {
        &&& result is Complete
        &&& result->Complete_0 is Err
        &&& result->Complete_0->Err_0 is InvalidSequenceSet
    } else {
        &&& after.phase is Fetch
        &&& result is Yielded
        &&& begins(
            after.phase->Fetch_0,
            result->Yielded_0,
            CommandView::Fetch {
                messages: sequence_set_of(chunk),
                items: item_set(state.items),
                uid: state.uid,
                modifiers: Seq::empty(),
            },
        )
    }
}

proof fn lemma_chunk(ids: Seq<u32>)
    requires
        ids.len() > 0,
    ensures
        ({
            let count = if ids.len() < 255 {
                ids.len() as int
            } else {
                255
            };
            &&& chunk_of(ids) == ids.take(count)
            &&& after_chunk(ids) == ids.skip(count)
            &&& are_ids(chunk_of(ids)) <==> !ids.take(count).contains(0)
        }),
{
    let count = if ids.len() < 255 {
        ids.len() as int
    } else {
        255
    };
    assert(chunk_of(ids) =~= ids.take(count));
}

/// Where the server cannot sort, the messages are searched first. What
/// the server refuses is an error of the search. Without a message found
/// the result is empty; otherwise what they are sorted by is asked for.
pub proof fn fallback_begins_with_a_search(
    state: SortState,
    send: SendState,
    before: Framing,
    arg: Option<Seq<u8>>,
    after: (SortState, Framing),
    result: SortResult,
)
    requires
        state.phase == SortPhase::Search(send),
        state.steps(before, arg, after, result),
    ensures
        ({
            let inner = send.resume(before, arg);
            &&& after.1 == inner.framing
            &&& match inner.result {
                ImapCoroutineState::Yielded(y) => {
                    &&& result is Yielded
                    &&& result->Yielded_0 == y
                    &&& after.0 == (SortState { phase: SortPhase::Search(inner.state), ..state })
                },
                ImapCoroutineState::Complete(Err(err)) => {
                    &&& result is Complete
                    &&& result->Complete_0 is Err
                    &&& result->Complete_0->Err_0 == FailureView::Search(
                        Box::new(FailureView::Send(err)),
                    )
                },
                ImapCoroutineState::Complete(Ok(output)) => match search_outcome(output) {
                    Err(err) => {
                        &&& result is Complete
                        &&& result->Complete_0 is Err
                        &&& result->Complete_0->Err_0 == FailureView::Search(Box::new(err))
                    },
                    Ok(ids) => if ids.len() == 0 {
                        &&& result is Complete
                        &&& result->Complete_0 is Ok
                        &&& result->Complete_0->Ok_0.len() == 0
                    } else {
                        asks_for_next(state, ids, state.fetched, after.0, result)
                    },
                },
            }
        }),
{
    if let ImapCoroutineState::Complete(Ok(output)) = send.resume(before, arg).result {
        if let Ok(ids) = search_outcome(output) {
            if ids.len() > 0 {
                lemma_chunk(ids);
            }
        }
    }
}

/// What each FETCH tells of a message is kept; what a later one tells of
/// it counts. Once no message remains, all of them are sorted.
pub proof fn fallback_sorts_what_is_fetched(
    state: SortState,
    send: SendState,
    before: Framing,
    arg: Option<Seq<u8>>,
    after: (SortState, Framing),
    result: SortResult,
)
    requires
        state.phase == SortPhase::Fetch(send),
        state.steps(before, arg, after, result),
    ensures
        ({
            let inner = send.resume(before, arg);
            &&& after.1 == inner.framing
            &&& match inner.result {
                ImapCoroutineState::Yielded(y) => {
                    &&& result is Yielded
                    &&& result->Yielded_0 == y
                    &&& after.0 == (SortState { phase: SortPhase::Fetch(inner.state), ..state })
                },
                ImapCoroutineState::Complete(Err(err)) => {
                    &&& result is Complete
                    &&& result->Complete_0 is Err
                    &&& result->Complete_0->Err_0 == FailureView::Fetch(
                        Box::new(FailureView::Send(err)),
                    )
                },
                ImapCoroutineState::Complete(Ok(output)) => match fetch_outcome(output) {
                    Err(err) => {
                        &&& result is Complete
                        &&& result->Complete_0 is Err
                        &&& result->Complete_0->Err_0 == FailureView::Fetch(Box::new(err))
                    },
                    Ok(items) => exists|fetched: Map<u32, KeysView>|
                        {
                            &&& #[trigger] tells(state.fetched, items, fetched)
                            &&& if state.remaining.len() == 0 {
                                &&& result is Complete
                                &&& result->Complete_0 is Ok
                                &&& is_local_sort(
                                    state.orders,
                                    fetched,
                                    state.uid,
                                    result->Complete_0->Ok_0,
                                )
                            } else {
                                asks_for_next(state, state.remaining, fetched, after.0, result)
                            }
                        },
                },
            }
        }),
{
    if let ImapCoroutineState::Complete(Ok(output)) = send.resume(before, arg).result {
        if let Ok(items) = fetch_outcome(output) {
            let fetched = state.fetched.union_prefer_right(item_keys(items));
            assert(tells(state.fetched, items, fetched));
            if state.remaining.len() > 0 {
                lemma_chunk(state.remaining);
            }
        }
    }
}

/// Whether `after` is what is known of the messages once a FETCH told the
/// given items.
pub open spec fn tells(
    before: Map<u32, KeysView>,
    items: Map<u32, Seq<MessageDataItem<'static>>>,
    after: Map<u32, KeysView>,
) -> bool {
    forall|number: u32|
        {
            &&& #[trigger] after.contains_key(number) <==> before.contains_key(number)
                || items.contains_key(number)
            &&& items.contains_key(number) ==> after[number] == keys_of(items[number])
            &&& before.contains_key(number) && !items.contains_key(number) ==> after[number]
                == before[number]
        }
}

/// What an item tells counts for the message that it is an item of.
pub proof fn items_tell_of_their_message(items: Seq<MessageDataItem<'static>>)
    ensures
        exists|facts: Seq<FactView>|
            facts.len() == items.len() && keys_of(items) == #[trigger] keys_of_facts(facts)
                && forall|k: int|
                0 <= k < items.len() ==> #[trigger] facts[k] == item_fact(items[k]),
{
    let facts = items.map_values(|item: MessageDataItem<'static>| item_fact(item));
    assert(keys_of(items) == keys_of_facts(facts));
}

/// A sort starts with the SORT command, or with a SEARCH where the server
/// is not to sort; in UTF-8 the one, without a charset the other.
pub proof fn sort_starts_with_its_command(
    state: SortState,
    criteria: imap_types::core::Vec1<SortCriterion>,
    search: imap_types::core::Vec1<SearchKey<'static>>,
    opts: ImapMessageSortOptions,
)
    requires
        state.starts(criteria, search, opts),
    ensures
        !opts.fallback ==> state.phase is Sort && starts(
            state.phase->Sort_0,
            CommandView::Sort {
                keys: criteria,
                charset: seq!['U', 'T', 'F', '-', '8'],
                criteria: search,
                uid: opts.uid,
            },
        ),
        opts.fallback ==> state.phase is Search && starts(
            state.phase->Search_0,
            CommandView::Search { charset: None, criteria: search, uid: opts.uid },
        ),
        state.uid == opts.uid,
        state.orders == sort_orders(criteria),
        state.items == items_to_fetch(sort_orders(criteria), opts.uid),
        state.remaining.len() == 0,
        forall|number: u32| !#[trigger] state.fetched.contains_key(number),
{
    assert(utf_8() =~= seq!['U', 'T', 'F', '-', '8']);
}

/// A server that sorts answers the SORT command with the result.
pub proof fn sort_follows_its_exchange(
    state: SortState,
    send: SendState,
    before: Framing,
    arg: Option<Seq<u8>>,
    after: (SortState, Framing),
    result: SortResult,
)
    requires
        state.phase == SortPhase::Sort(send),
        state.steps(before, arg, after, result),
    ensures
        ({
            let inner = send.resume(before, arg);
            &&& after.1 == inner.framing
            &&& after.0.phase == SortPhase::Sort(inner.state)
            &&& match inner.result {
                ImapCoroutineState::Yielded(y) => result is Yielded && result->Yielded_0 == y,
                ImapCoroutineState::Complete(Err(err)) => {
                    &&& result is Complete
                    &&& result->Complete_0 is Err
                    &&& result->Complete_0->Err_0 == FailureView::Send(err)
                },
                ImapCoroutineState::Complete(Ok(output)) => {
                    &&& result is Complete
                    &&& result->Complete_0 == sort_outcome(output)
                },
            }
        }),
{
}

/// Whether a criterion is read from the given item.
pub open spec fn is_read_from(field: SortField, item: ItemName) -> bool {
    match field {
        SortField::Arrival => item == ItemName::InternalDate,
        SortField::Size => item == ItemName::Rfc822Size,
        SortField::Cc => item == ItemName::Envelope,
        SortField::Date => item == ItemName::Envelope,
        SortField::From => item == ItemName::Envelope,
        SortField::Subject => item == ItemName::Envelope,
        SortField::To => item == ItemName::Envelope,
        SortField::DisplayFrom => false,
        SortField::DisplayTo => false,
    }
}

/// Whether the criterion at `place` is the first that is read from the
/// given item.
pub open spec fn is_first_read(orders: Seq<SortOrder>, place: int, item: ItemName) -> bool {
    &&& 0 <= place < orders.len()
    &&& is_read_from(orders[place].field, item)
    &&& forall|m: int| 0 <= m < place ==> !is_read_from((#[trigger] orders[m]).field, item)
}

/// Whether `items` are what the criteria are read from, each where the
/// first criterion stands that is read from it.
pub open spec fn are_in_turn(
    orders: Seq<SortOrder>,
    items: Seq<ItemName>,
    places: Seq<int>,
) -> bool {
    &&& places.len() == items.len()
    &&& forall|k: int, l: int| 0 <= k < l < places.len() ==> places[k] < places[l]
    &&& forall|k: int|
        0 <= k < items.len() ==> is_first_read(orders, places[k], #[trigger] items[k])
    &&& forall|m: int, item: ItemName|
        0 <= m < orders.len() && #[trigger] is_read_from(orders[m].field, item) ==> items.contains(
            item,
        )
}

proof fn lemma_in_turn(orders: Seq<SortOrder>)
    ensures
        exists|places: Seq<int>| #[trigger] are_in_turn(orders, criteria_items(orders), places),
    decreases orders.len(),
{
    let items = criteria_items(orders);
    if orders.len() == 0 {
        let none: Seq<int> = Seq::empty();
        assert(are_in_turn(orders, items, none));
    } else {
        let head = orders.drop_last();
        let last = orders.last();
        let before = criteria_items(head);
        lemma_in_turn(head);
        let places = choose|places: Seq<int>| #[trigger] are_in_turn(head, before, places);
        assert forall|k: int| 0 <= k < before.len() implies is_first_read(
            orders,
            places[k],
            #[trigger] before[k],
        ) by {
            assert(is_first_read(head, places[k], before[k]));
            assert(head[places[k]] == orders[places[k]]);
            assert forall|m: int| 0 <= m < places[k] implies !is_read_from(
                (#[trigger] orders[m]).field,
                before[k],
            ) by {
                assert(head[m] == orders[m]);
            }
        }
        assert forall|m: int, item: ItemName|
            0 <= m < head.len() && #[trigger] is_read_from(orders[m].field, item) implies
            before.contains(item) by {
            assert(head[m] == orders[m]);
            assert(is_read_from(head[m].field, item));
        }
        let fresh = match last.field {
            SortField::Arrival => Some(ItemName::InternalDate),
            SortField::Size => Some(ItemName::Rfc822Size),
            SortField::DisplayFrom => None,
            SortField::DisplayTo => None,
            _ => Some(ItemName::Envelope),
        };
        assert(items == match fresh {
            Some(item) => with_item(before, item),
            None => before,
        });
        match fresh {
            Some(item) => {
                lemma_with(before, item);
                if before.contains(item) {
                    assert(are_in_turn(orders, items, places));
                } else {
                    let after = places.push(orders.len() - 1);
                    assert(is_first_read(orders, orders.len() - 1, item)) by {
                        assert forall|m: int| 0 <= m < orders.len() - 1 implies !is_read_from(
                            (#[trigger] orders[m]).field,
                            item,
                        ) by {
                            if is_read_from(orders[m].field, item) {
                                assert(before.contains(item));
                            }
                        }
                    }
                    assert forall|k: int| 0 <= k < items.len() implies is_first_read(
                        orders,
                        after[k],
                        #[trigger] items[k],
                    ) by {
                        if k < before.len() {
                            assert(items[k] == before[k]);
                            assert(after[k] == places[k]);
                        }
                    }
                    assert forall|k: int, l: int| 0 <= k < l < after.len() implies after[k]
                        < after[l] by {
                        assert(is_first_read(head, places[k], before[k]));
                        if l < places.len() {
                            assert(places[k] < places[l]);
                        }
                    }
                    assert(are_in_turn(orders, items, after));
                }
            },
            None => {
                assert(are_in_turn(orders, items, places));
            },
        }
    }
}

/// The items that are fetched stand in the order in which the criteria
/// are first read from them; then the envelope, where none is; the UID is
/// last.
pub proof fn items_stand_in_turn(orders: Seq<SortOrder>, uid: bool)
    ensures
        exists|items: Seq<ItemName>, places: Seq<int>|
            {
                &&& #[trigger] are_in_turn(orders, items, places)
                &&& items_to_fetch(orders, uid) == items + (if items.contains(ItemName::Envelope) {
                    Seq::empty()
                } else {
                    seq![ItemName::Envelope]
                }) + (if uid {
                    seq![ItemName::Uid]
                } else {
                    Seq::empty()
                })
            },
{
    lemma_in_turn(orders);
    let items = criteria_items(orders);
    let places = choose|places: Seq<int>| #[trigger] are_in_turn(orders, items, places);
    lemma_criteria(orders);
    lemma_with(items, ItemName::Envelope);
    let all = with_item(items, ItemName::Envelope);
    assert(!items.contains(ItemName::Uid)) by {
        if items.contains(ItemName::Uid) {
            let k = choose|k: int| 0 <= k < items.len() && items[k] == ItemName::Uid;
            assert(items[k] != ItemName::Uid);
        }
    }
    assert(!all.contains(ItemName::Uid));
    assert(items_to_fetch(orders, uid) =~= items + (if items.contains(ItemName::Envelope) {
        Seq::empty()
    } else {
        seq![ItemName::Envelope]
    }) + (if uid {
        seq![ItemName::Uid]
    } else {
        Seq::empty()
    }));
}

} // verus!
