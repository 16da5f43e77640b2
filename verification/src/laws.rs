//! What the outcomes of commands are for, stated over the responses of
//! the server by their places.

use imap_codec::imap_types::extensions::thread::Thread;
use imap_codec::imap_types::fetch::MessageDataItem;
use imap_codec::imap_types::response::Capability;
use vstd::prelude::*;

use crate::outcome::{each_of, last_of, verdict, FailureView};
use crate::response::{CodeView, DataView, ParametersView, StatusKind, StatusView};
use crate::rfc2971::id::id_outcome;
use crate::rfc3501::append_stream::append_outcome;
use crate::rfc3501::capability::{capability_outcome, code_capabilities};
use crate::rfc3501::check::check_outcome;
use crate::rfc3501::close::close_outcome;
use crate::rfc3501::copy::{
    all_uids, ascending_uids, copy_outcome, element_uids, uid_elements, UidElement,
};
use crate::rfc3501::create::create_outcome;
use crate::rfc3501::delete::delete_outcome;
use crate::rfc3501::examine::examine_outcome;
use crate::rfc3501::expunge::expunge_outcome;
use crate::rfc3501::fetch::{fetch_first_outcome, fetch_outcome, grouped, items_of};
use crate::rfc3501::list::{list_outcome, listing_view, ImapMailboxListing};
use crate::rfc3501::login::login_capabilities;
use crate::rfc3501::logout::logout_outcome;
use crate::rfc3501::lsub::lsub_outcome;
use crate::rfc3501::mailbox::plain_form;
use crate::rfc3501::noop::noop_outcome;
use crate::rfc3501::rename::rename_outcome;
use crate::rfc3501::search::search_outcome;
use crate::rfc3501::select::{
    mailbox_data, members, select_outcome, set_elements, with_statuses, SelectData, SelectView,
};
use crate::rfc3501::status::{status_items, status_outcome};
use crate::rfc3501::store::{
    echoes, items_view, store_outcome, store_silent_outcome, MessageItems,
};
use crate::rfc3501::subscribe::subscribe_outcome;
use crate::rfc3501::unsubscribe::unsubscribe_outcome;
use crate::rfc3691::unselect::unselect_outcome;
use crate::rfc4315::appenduid::append_uid_outcome;
use crate::rfc4315::expunge_uid::expunge_uid_outcome;
use crate::rfc5161::enable::enable_outcome;
use crate::rfc5256::sort::sort_outcome;
use crate::rfc5256::thread::thread_outcome;
use crate::rfc6851::message_move::{move_outcome, untagged_copy_uid};
use crate::send::OutputView;

verus! {

/// The server completed the command and did not say BYE.
pub open spec fn accepts(output: OutputView) -> bool {
    &&& output.bye is None
    &&& output.tagged is Some
    &&& output.tagged->0.kind == StatusKind::Success
}

/// The server did not complete the command, for the given reason. A BYE
/// is the reason whatever else was answered.
pub open spec fn refuses(output: OutputView, err: FailureView) -> bool {
    match err {
        FailureView::Bye(text) => output.bye == Some(text),
        FailureView::MissingTagged => output.bye is None && output.tagged is None,
        FailureView::No(text) => output.bye is None && output.tagged is Some
            && output.tagged->0.kind == StatusKind::No && output.tagged->0.text == text,
        FailureView::Bad(text) => output.bye is None && output.tagged is Some
            && output.tagged->0.kind == StatusKind::Bad && output.tagged->0.text == text,
        _ => false,
    }
}

/// Whether a command fails for the given reason.
pub open spec fn fails<T>(result: Result<T, FailureView>, err: FailureView) -> bool {
    result is Err && result->Err_0 == err
}

/// Whether `places` are the places of the wanted items, in order.
pub open spec fn are_places<A>(
    items: Seq<A>,
    wanted: spec_fn(A) -> bool,
    places: Seq<int>,
) -> bool {
    &&& forall|k: int, l: int| 0 <= k < l < places.len() ==> places[k] < places[l]
    &&& forall|k: int|
        0 <= k < places.len() ==> 0 <= #[trigger] places[k] < items.len() && wanted(
            items[places[k]],
        )
    &&& forall|i: int|
        0 <= i < items.len() && wanted(#[trigger] items[i]) ==> places.contains(i)
}

/// Whether `results` holds one value for each wanted item, in order.
pub open spec fn has_each<A, B>(
    items: Seq<A>,
    wanted: spec_fn(A) -> bool,
    value: spec_fn(A) -> B,
    results: Seq<B>,
) -> bool {
    exists|places: Seq<int>| #[trigger]
        are_places(items, wanted, places) && results.len() == places.len() && forall|k: int|
            0 <= k < places.len() ==> #[trigger] results[k] == value(items[places[k]])
}

/// Whether `results` holds what each wanted item lists, in order.
pub open spec fn has_all<A, B>(
    items: Seq<A>,
    wanted: spec_fn(A) -> bool,
    value: spec_fn(A) -> Seq<B>,
    results: Seq<B>,
) -> bool {
    exists|places: Seq<int>| #[trigger]
        are_places(items, wanted, places) && results == Seq::new(
            places.len(),
            |k: int| value(items[places[k]]),
        ).flatten()
}

/// Whether `result` is the value of the last wanted item, if there is
/// any.
pub open spec fn is_last<A, B>(
    items: Seq<A>,
    wanted: spec_fn(A) -> bool,
    value: spec_fn(A) -> B,
    result: Option<B>,
) -> bool {
    match result {
        Some(found) => exists|i: int|
            0 <= i < items.len() && wanted(#[trigger] items[i]) && found == value(items[i])
                && forall|j: int| i < j < items.len() ==> !wanted(#[trigger] items[j]),
        None => forall|i: int| 0 <= i < items.len() ==> !wanted(#[trigger] items[i]),
    }
}

/// Whether `result` is the value of the first wanted item, if there is
/// any.
pub open spec fn is_first<A, B>(
    items: Seq<A>,
    wanted: spec_fn(A) -> bool,
    value: spec_fn(A) -> B,
    result: Option<B>,
) -> bool {
    match result {
        Some(found) => exists|i: int|
            0 <= i < items.len() && wanted(#[trigger] items[i]) && found == value(items[i])
                && forall|j: int| 0 <= j < i ==> !wanted(#[trigger] items[j]),
        None => forall|i: int| 0 <= i < items.len() ==> !wanted(#[trigger] items[i]),
    }
}

/// A command succeeds exactly when the server completed it and said no
/// BYE; each failure has its own reason.
pub proof fn verdict_is_the_servers(output: OutputView)
    ensures
        verdict(output) is Ok <==> accepts(output),
        verdict(output) is Ok ==> output.tagged == Some(verdict(output)->Ok_0),
        forall|err: FailureView| #[trigger]
            refuses(output, err) <==> fails(verdict(output), err),
{
}

proof fn lemma_places_skip<A>(
    items: Seq<A>,
    wanted: spec_fn(A) -> bool,
    places: Seq<int>,
)
    requires
        items.len() > 0,
        are_places(items.drop_last(), wanted, places),
        !wanted(items.last()),
    ensures
        are_places(items, wanted, places),
{
    let head = items.drop_last();
    assert forall|k: int| 0 <= k < places.len() implies 0 <= #[trigger] places[k] < items.len()
        && wanted(items[places[k]]) by {
        assert(head[places[k]] == items[places[k]]);
    }
    assert forall|i: int| 0 <= i < items.len() && wanted(#[trigger] items[i]) implies
        places.contains(i) by {
        assert(head[i] == items[i]);
    }
}

proof fn lemma_places_push<A>(
    items: Seq<A>,
    wanted: spec_fn(A) -> bool,
    places: Seq<int>,
)
    requires
        items.len() > 0,
        are_places(items.drop_last(), wanted, places),
        wanted(items.last()),
    ensures
        are_places(items, wanted, places.push(items.len() - 1)),
{
    let head = items.drop_last();
    let after = places.push(items.len() - 1);
    assert forall|k: int| 0 <= k < after.len() implies 0 <= #[trigger] after[k] < items.len()
        && wanted(items[after[k]]) by {
        if k < places.len() {
            assert(after[k] == places[k]);
            assert(head[places[k]] == items[places[k]]);
        }
    }
    assert forall|i: int| 0 <= i < items.len() && wanted(#[trigger] items[i]) implies
        after.contains(i) by {
        if i < items.len() - 1 {
            assert(head[i] == items[i]);
            assert(places.contains(i));
            let k = choose|k: int| 0 <= k < places.len() && places[k] == i;
            assert(after[k] == i);
        } else {
            assert(after[places.len() as int] == i);
        }
    }
}

/// What is picked of each item is found once for each item that has it,
/// in order.
pub proof fn each_is_found<A, B>(
    items: Seq<A>,
    pick: spec_fn(A) -> Option<B>,
    wanted: spec_fn(A) -> bool,
    value: spec_fn(A) -> B,
)
    requires
        forall|item: A| #[trigger] pick(item) == if wanted(item) {
            Some(value(item))
        } else {
            None
        },
    ensures
        has_each(items, wanted, value, each_of(items, pick)),
    decreases items.len(),
{
    if items.len() == 0 {
        let none: Seq<int> = Seq::empty();
        assert(are_places(items, wanted, none));
    } else {
        let head = items.drop_last();
        let last = items.last();
        each_is_found(head, pick, wanted, value);
        let found = each_of(head, pick);
        let places = choose|places: Seq<int>| #[trigger]
            are_places(head, wanted, places) && found.len() == places.len() && forall|k: int|
                0 <= k < places.len() ==> #[trigger] found[k] == value(head[places[k]]);
        assert(pick(last) == if wanted(last) { Some(value(last)) } else { None });
        if wanted(last) {
            lemma_places_push(items, wanted, places);
            let after = places.push(items.len() - 1);
            let results = each_of(items, pick);
            assert forall|k: int| 0 <= k < after.len() implies #[trigger] results[k] == value(
                items[after[k]],
            ) by {
                if k < places.len() {
                    assert(results[k] == found[k]);
                    assert(after[k] == places[k]);
                    assert(0 <= places[k] < head.len());
                    assert(head[places[k]] == items[places[k]]);
                }
            }
        } else {
            lemma_places_skip(items, wanted, places);
            assert forall|k: int| 0 <= k < places.len() implies #[trigger] found[k] == value(
                items[places[k]],
            ) by {
                assert(0 <= places[k] < head.len());
                assert(head[places[k]] == items[places[k]]);
            }
        }
    }
}

/// What is picked last is that of the last item that has it.
pub proof fn last_is_found<A, B>(
    items: Seq<A>,
    pick: spec_fn(A) -> Option<B>,
    wanted: spec_fn(A) -> bool,
    value: spec_fn(A) -> B,
)
    requires
        forall|item: A| #[trigger] pick(item) == if wanted(item) {
            Some(value(item))
        } else {
            None
        },
    ensures
        is_last(items, wanted, value, last_of(items, pick)),
    decreases items.len(),
{
    if items.len() > 0 {
        let head = items.drop_last();
        let last = items.last();
        last_is_found(head, pick, wanted, value);
        assert(pick(last) == if wanted(last) { Some(value(last)) } else { None });
        if !wanted(last) {
            lemma_last_skip(items, wanted, value, last_of(head, pick));
        } else {
            assert(items[items.len() - 1] == last);
        }
    }
}

proof fn lemma_last_skip<A, B>(
    items: Seq<A>,
    wanted: spec_fn(A) -> bool,
    value: spec_fn(A) -> B,
    result: Option<B>,
)
    requires
        items.len() > 0,
        is_last(items.drop_last(), wanted, value, result),
        !wanted(items.last()),
    ensures
        is_last(items, wanted, value, result),
{
    let head = items.drop_last();
    match result {
        Some(found) => {
            let i = choose|i: int|
                0 <= i < head.len() && wanted(#[trigger] head[i]) && found == value(head[i])
                    && forall|j: int| i < j < head.len() ==> !wanted(#[trigger] head[j]);
            assert(items[i] == head[i]);
            assert forall|j: int| i < j < items.len() implies !wanted(#[trigger] items[j]) by {
                if j < head.len() {
                    assert(items[j] == head[j]);
                }
            }
        },
        None => {
            assert forall|i: int| 0 <= i < items.len() implies !wanted(#[trigger] items[i]) by {
                if i < head.len() {
                    assert(items[i] == head[i]);
                }
            }
        },
    }
}

/// A listing has one row for each LIST response, in order, with the
/// delimiter and the attributes that the server sent and the decoded
/// name.
pub proof fn list_has_a_row_for_each_response(output: OutputView)
    ensures
        accepts(output) ==> list_outcome(output) is Ok && has_each(
            output.data,
            |data: DataView| data is List,
            |data: DataView|
                (plain_form(data->List_mailbox), data->List_delimiter, data->List_items),
            list_outcome(output)->Ok_0,
        ),
        forall|err: FailureView| #[trigger]
            refuses(output, err) <==> fails(list_outcome(output), err),
{
    verdict_is_the_servers(output);
    each_is_found(
        output.data,
        |item: DataView|
            match item {
                DataView::List { mailbox, delimiter, items } => Some(
                    (plain_form(mailbox), delimiter, items),
                ),
                _ => None,
            },
        |data: DataView| data is List,
        |data: DataView| (plain_form(data->List_mailbox), data->List_delimiter, data->List_items),
    );
}

/// The model of a listing keeps every row as it is.
pub proof fn listing_is_kept(listing: ImapMailboxListing)
    ensures
        listing_view(listing@).len() == listing@.len(),
        forall|k: int|
            0 <= k < listing@.len() ==> #[trigger] listing_view(listing@)[k] == (
                listing@[k].0,
                listing@[k].1,
                listing@[k].2@,
            ),
{
}

/// A listing has one row for each LSUB response, in order, with the
/// delimiter and the attributes that the server sent and the decoded
/// name.
pub proof fn lsub_has_a_row_for_each_response(output: OutputView)
    ensures
        accepts(output) ==> lsub_outcome(output) is Ok && has_each(
            output.data,
            |data: DataView| data is Lsub,
            |data: DataView|
                (plain_form(data->Lsub_mailbox), data->Lsub_delimiter, data->Lsub_items),
            lsub_outcome(output)->Ok_0,
        ),
        forall|err: FailureView| #[trigger]
            refuses(output, err) <==> fails(lsub_outcome(output), err),
{
    verdict_is_the_servers(output);
    each_is_found(
        output.data,
        |item: DataView|
            match item {
                DataView::Lsub { mailbox, delimiter, items } => Some(
                    (plain_form(mailbox), delimiter, items),
                ),
                _ => None,
            },
        |data: DataView| data is Lsub,
        |data: DataView| (plain_form(data->Lsub_mailbox), data->Lsub_delimiter, data->Lsub_items),
    );
}

proof fn lemma_all_skip<A, B>(
    items: Seq<A>,
    wanted: spec_fn(A) -> bool,
    value: spec_fn(A) -> Seq<B>,
    results: Seq<B>,
)
    requires
        items.len() > 0,
        has_all(items.drop_last(), wanted, value, results),
        !wanted(items.last()),
    ensures
        has_all(items, wanted, value, results),
{
    let head = items.drop_last();
    let places = choose|places: Seq<int>| #[trigger]
        are_places(head, wanted, places) && results == Seq::new(
            places.len(),
            |k: int| value(head[places[k]]),
        ).flatten();
    lemma_places_skip(items, wanted, places);
    assert(Seq::new(places.len(), |k: int| value(head[places[k]])) =~= Seq::new(
        places.len(),
        |k: int| value(items[places[k]]),
    ));
}

proof fn lemma_all_push<A, B>(
    items: Seq<A>,
    wanted: spec_fn(A) -> bool,
    value: spec_fn(A) -> Seq<B>,
    results: Seq<B>,
)
    requires
        items.len() > 0,
        has_all(items.drop_last(), wanted, value, results),
        wanted(items.last()),
    ensures
        has_all(items, wanted, value, results + value(items.last())),
{
    let head = items.drop_last();
    let places = choose|places: Seq<int>| #[trigger]
        are_places(head, wanted, places) && results == Seq::new(
            places.len(),
            |k: int| value(head[places[k]]),
        ).flatten();
    lemma_places_push(items, wanted, places);
    let after = places.push(items.len() - 1);
    let before = Seq::new(places.len(), |k: int| value(head[places[k]]));
    before.lemma_flatten_push(value(items.last()));
    assert(before.push(value(items.last())) =~= Seq::new(
        after.len(),
        |k: int| value(items[after[k]]),
    ));
}

proof fn lemma_all_none<A, B>(
    items: Seq<A>,
    wanted: spec_fn(A) -> bool,
    value: spec_fn(A) -> Seq<B>,
)
    requires
        items.len() == 0,
    ensures
        has_all(items, wanted, value, Seq::<B>::empty()),
{
    let none: Seq<int> = Seq::empty();
    assert(are_places(items, wanted, none));
    assert(Seq::new(none.len(), |k: int| value(items[none[k]])).flatten() =~= Seq::<B>::empty());
}

proof fn lemma_status_items(data: Seq<DataView>)
    ensures
        has_all(
            data,
            |data: DataView| data is Status,
            |data: DataView| data->Status_items,
            status_items(data),
        ),
    decreases data.len(),
{
    let wanted = |data: DataView| data is Status;
    let value = |data: DataView| data->Status_items;
    if data.len() == 0 {
        lemma_all_none(data, wanted, value);
    } else {
        lemma_status_items(data.drop_last());
        if data.last() is Status {
            lemma_all_push(data, wanted, value, status_items(data.drop_last()));
        } else {
            lemma_all_skip(data, wanted, value, status_items(data.drop_last()));
        }
    }
}

/// STATUS gives the items of every STATUS response, in order.
pub proof fn status_has_every_item(output: OutputView)
    ensures
        accepts(output) ==> status_outcome(output) is Ok && has_all(
            output.data,
            |data: DataView| data is Status,
            |data: DataView| data->Status_items,
            status_outcome(output)->Ok_0,
        ),
        forall|err: FailureView| #[trigger]
            refuses(output, err) <==> fails(status_outcome(output), err),
{
    verdict_is_the_servers(output);
    lemma_status_items(output.data);
}

/// SEARCH gives the ids of the last SEARCH response, in its order, and
/// none where there is none.
pub proof fn search_gives_the_last_ids(output: OutputView)
    ensures
        accepts(output) ==> search_outcome(output) is Ok && (is_last(
            output.data,
            |data: DataView| data is Search,
            |data: DataView| data->Search_0,
            Some(search_outcome(output)->Ok_0),
        ) || (search_outcome(output)->Ok_0.len() == 0 && is_last::<_, Seq<u32>>(
            output.data,
            |data: DataView| data is Search,
            |data: DataView| data->Search_0,
            None,
        ))),
        forall|err: FailureView| #[trigger]
            refuses(output, err) <==> fails(search_outcome(output), err),
{
    verdict_is_the_servers(output);
    last_is_found(
        output.data,
        |item: DataView|
            match item {
                DataView::Search(found) => Some(found),
                _ => None,
            },
        |data: DataView| data is Search,
        |data: DataView| data->Search_0,
    );
}

/// SORT gives the ids of the last SORT response, in its order; that there
/// is none is a failure.
pub proof fn sort_gives_the_last_ids(output: OutputView)
    ensures
        accepts(output) ==> match sort_outcome(output) {
            Ok(ids) => is_last(
                output.data,
                |data: DataView| data is Sort,
                |data: DataView| data->Sort_0,
                Some(ids),
            ),
            Err(err) => err == FailureView::MissingData && is_last::<_, Seq<u32>>(
                output.data,
                |data: DataView| data is Sort,
                |data: DataView| data->Sort_0,
                None,
            ),
        },
        forall|err: FailureView| #[trigger]
            refuses(output, err) ==> fails(sort_outcome(output), err),
{
    verdict_is_the_servers(output);
    last_is_found(
        output.data,
        |item: DataView|
            match item {
                DataView::Sort(found) => Some(found),
                _ => None,
            },
        |data: DataView| data is Sort,
        |data: DataView| data->Sort_0,
    );
}

/// THREAD gives the threads of the last THREAD response; that there is
/// none is a failure.
pub proof fn thread_gives_the_last_threads(output: OutputView)
    ensures
        accepts(output) ==> match thread_outcome(output) {
            Ok(threads) => is_last(
                output.data,
                |data: DataView| data is Thread,
                |data: DataView| data->Thread_0,
                Some(threads),
            ),
            Err(err) => err == FailureView::MissingData && is_last::<_, Seq<Thread>>(
                output.data,
                |data: DataView| data is Thread,
                |data: DataView| data->Thread_0,
                None,
            ),
        },
        forall|err: FailureView| #[trigger]
            refuses(output, err) ==> fails(thread_outcome(output), err),
{
    verdict_is_the_servers(output);
    last_is_found(
        output.data,
        |item: DataView|
            match item {
                DataView::Thread(found) => Some(found),
                _ => None,
            },
        |data: DataView| data is Thread,
        |data: DataView| data->Thread_0,
    );
}

/// ENABLE gives the capabilities of the last ENABLED response, if there is
/// any.
pub proof fn enable_gives_the_last_capabilities(output: OutputView)
    ensures
        accepts(output) ==> enable_outcome(output) is Ok && is_last(
            output.data,
            |data: DataView| data is Enabled,
            |data: DataView| data->Enabled_0,
            enable_outcome(output)->Ok_0,
        ),
        forall|err: FailureView| #[trigger]
            refuses(output, err) <==> fails(enable_outcome(output), err),
{
    verdict_is_the_servers(output);
    last_is_found(
        output.data,
        |item: DataView|
            match item {
                DataView::Enabled(found) => Some(found),
                _ => None,
            },
        |data: DataView| data is Enabled,
        |data: DataView| data->Enabled_0,
    );
}

/// ID gives the parameters of the last ID response; NIL, and no ID
/// response, give none.
pub proof fn id_gives_the_last_parameters(output: OutputView)
    ensures
        accepts(output) ==> id_outcome(output) is Ok && (is_last(
            output.data,
            |data: DataView| data is Id,
            |data: DataView| data->Id_0,
            Some(id_outcome(output)->Ok_0),
        ) || (id_outcome(output)->Ok_0 is None && is_last::<_, Option<ParametersView>>(
            output.data,
            |data: DataView| data is Id,
            |data: DataView| data->Id_0,
            None,
        ))),
        forall|err: FailureView| #[trigger]
            refuses(output, err) <==> fails(id_outcome(output), err),
{
    verdict_is_the_servers(output);
    let pick = |item: DataView|
        match item {
            DataView::Id(found) => Some(found),
            _ => None,
        };
    last_is_found(
        output.data,
        pick,
        |data: DataView| data is Id,
        |data: DataView| data->Id_0,
    );
}

/// EXPUNGE and UID EXPUNGE give the sequence number of each EXPUNGE
/// response, in order.
pub proof fn expunge_gives_each_number(output: OutputView)
    ensures
        accepts(output) ==> expunge_outcome(output) is Ok && has_each(
            output.data,
            |data: DataView| data is Expunge,
            |data: DataView| data->Expunge_0,
            expunge_outcome(output)->Ok_0,
        ),
        expunge_uid_outcome(output) == expunge_outcome(output),
        forall|err: FailureView| #[trigger]
            refuses(output, err) <==> fails(expunge_outcome(output), err),
{
    verdict_is_the_servers(output);
    each_is_found(
        output.data,
        |item: DataView|
            match item {
                DataView::Expunge(seq) => Some(seq),
                _ => None,
            },
        |data: DataView| data is Expunge,
        |data: DataView| data->Expunge_0,
    );
}

/// Whether a response tells of the given message.
pub open spec fn tells_of(seq: u32) -> spec_fn(DataView) -> bool {
    |data: DataView| data is Fetch && data->Fetch_seq == seq
}

/// What a response tells of a message.
pub open spec fn told() -> spec_fn(DataView) -> Seq<MessageDataItem<'static>> {
    |data: DataView| data->Fetch_items
}

/// What a map holds for a message, if anything.
pub open spec fn held(items: Map<u32, Seq<MessageDataItem<'static>>>, seq: u32) -> Option<
    Seq<MessageDataItem<'static>>,
> {
    if items.contains_key(seq) {
        Some(items[seq])
    } else {
        None
    }
}

proof fn lemma_echoes(data: Seq<DataView>, seq: u32)
    ensures
        is_last(data, tells_of(seq), told(), held(echoes(data), seq)),
    decreases data.len(),
{
    if data.len() > 0 {
        let last = data.last();
        lemma_echoes(data.drop_last(), seq);
        if last is Fetch && last->Fetch_seq == seq {
            assert(data[data.len() - 1] == last);
        } else {
            lemma_last_skip(data, tells_of(seq), told(), held(echoes(data.drop_last()), seq));
        }
    }
}

/// STORE reports exactly the messages that FETCH responses tell of, each
/// with the items of the last one.
pub proof fn store_reports_every_message(output: OutputView)
    ensures
        accepts(output) ==> store_outcome(output) is Ok && forall|seq: u32| #[trigger]
            is_last(output.data, tells_of(seq), told(), held(store_outcome(output)->Ok_0, seq)),
        forall|err: FailureView| #[trigger]
            refuses(output, err) <==> fails(store_outcome(output), err),
{
    verdict_is_the_servers(output);
    assert forall|seq: u32| #[trigger]
        is_last(output.data, tells_of(seq), told(), held(echoes(output.data), seq)) by {
        lemma_echoes(output.data, seq);
    }
}

proof fn lemma_grouped(data: Seq<DataView>, seq: u32)
    ensures
        has_all(data, tells_of(seq), told(), items_of(grouped(data), seq)),
        grouped(data).contains_key(seq) <==> exists|i: int|
            0 <= i < data.len() && tells_of(seq)(#[trigger] data[i]),
    decreases data.len(),
{
    if data.len() == 0 {
        lemma_all_none(data, tells_of(seq), told());
    } else {
        let head = data.drop_last();
        let last = data.last();
        lemma_grouped(head, seq);
        if last is Fetch && last->Fetch_seq == seq {
            lemma_all_push(data, tells_of(seq), told(), items_of(grouped(head), seq));
            assert(tells_of(seq)(data[data.len() - 1]));
        } else {
            lemma_all_skip(data, tells_of(seq), told(), items_of(grouped(head), seq));
            assert(items_of(grouped(data), seq) == items_of(grouped(head), seq));
            if grouped(head).contains_key(seq) {
                let i = choose|i: int| 0 <= i < head.len() && tells_of(seq)(#[trigger] head[i]);
                assert(data[i] == head[i]);
            }
            if exists|i: int| 0 <= i < data.len() && tells_of(seq)(#[trigger] data[i]) {
                let i = choose|i: int| 0 <= i < data.len() && tells_of(seq)(#[trigger] data[i]);
                assert(data[i] == head[i]);
            }
        }
    }
}

/// FETCH gives exactly the messages that FETCH responses tell of, each
/// with the items of all of them, in order.
pub proof fn fetch_gives_every_item(output: OutputView)
    ensures
        accepts(output) ==> fetch_outcome(output) is Ok && forall|seq: u32|
            {
                &&& #[trigger] fetch_outcome(output)->Ok_0.contains_key(seq) <==> exists|i: int|
                    0 <= i < output.data.len() && tells_of(seq)(#[trigger] output.data[i])
                &&& fetch_outcome(output)->Ok_0.contains_key(seq) ==> has_all(
                    output.data,
                    tells_of(seq),
                    told(),
                    fetch_outcome(output)->Ok_0[seq],
                )
            },
        forall|err: FailureView| #[trigger]
            refuses(output, err) <==> fails(fetch_outcome(output), err),
{
    verdict_is_the_servers(output);
    assert forall|seq: u32|
        {
            &&& #[trigger] grouped(output.data).contains_key(seq) <==> exists|i: int|
                0 <= i < output.data.len() && tells_of(seq)(#[trigger] output.data[i])
            &&& grouped(output.data).contains_key(seq) ==> has_all(
                output.data,
                tells_of(seq),
                told(),
                grouped(output.data)[seq],
            )
        } by {
        lemma_grouped(output.data, seq);
    }
}

/// FETCH of one message gives the items of the last FETCH response; that
/// there is none is a failure.
pub proof fn fetch_first_gives_the_last_items(output: OutputView)
    ensures
        accepts(output) ==> match fetch_first_outcome(output) {
            Ok(items) => is_last(
                output.data,
                |data: DataView| data is Fetch,
                |data: DataView| data->Fetch_items,
                Some(items),
            ),
            Err(err) => err == FailureView::MissingData && is_last::<
                _,
                Seq<MessageDataItem<'static>>,
            >(
                output.data,
                |data: DataView| data is Fetch,
                |data: DataView| data->Fetch_items,
                None,
            ),
        },
        forall|err: FailureView| #[trigger]
            refuses(output, err) ==> fails(fetch_first_outcome(output), err),
{
    verdict_is_the_servers(output);
    last_is_found(
        output.data,
        |item: DataView|
            match item {
                DataView::Fetch { items: found, .. } => Some(found),
                _ => None,
            },
        |data: DataView| data is Fetch,
        |data: DataView| data->Fetch_items,
    );
}

/// The model of items by message keeps every message with its items.
pub proof fn items_are_kept(items: MessageItems)
    ensures
        items_view(items@).dom() == items@.dom(),
        forall|seq: u32| #[trigger]
            items@.contains_key(seq) ==> items_view(items@)[seq] == items@[seq]@,
{
    assert(items_view(items@).dom() =~= items@.dom());
}

/// APPEND gives the count of the last EXISTS response and the UIDs of the
/// completion, as far as there are any.
pub proof fn append_gives_count_and_uid(output: OutputView)
    ensures
        accepts(output) ==> append_outcome(output) is Ok && is_last(
            output.data,
            |data: DataView| data is Exists,
            |data: DataView| data->Exists_0,
            append_outcome(output)->Ok_0.0,
        ) && append_outcome(output)->Ok_0.1 == match output.tagged->0.code {
            Some(CodeView::AppendUid { uid_validity, uid }) => Some((uid_validity, uid)),
            _ => None,
        },
        accepts(output) ==> append_uid_outcome(output) is Ok && append_uid_outcome(output)->Ok_0
            == append_outcome(output)->Ok_0.1,
        forall|err: FailureView| #[trigger]
            refuses(output, err) <==> fails(append_outcome(output), err),
        forall|err: FailureView| #[trigger]
            refuses(output, err) <==> fails(append_uid_outcome(output), err),
{
    verdict_is_the_servers(output);
    last_is_found(
        output.data,
        |item: DataView|
            match item {
                DataView::Exists(count) => Some(count),
                _ => None,
            },
        |data: DataView| data is Exists,
        |data: DataView| data->Exists_0,
    );
}

/// LOGOUT succeeds exactly when the server said BYE and completed the
/// command.
pub proof fn logout_needs_bye_and_completion(output: OutputView)
    ensures
        logout_outcome(output) is Ok <==> output.bye is Some && output.tagged is Some
            && output.tagged->0.kind == StatusKind::Success,
        fails(logout_outcome(output), FailureView::MissingBye) <==> output.bye is None,
        fails(logout_outcome(output), FailureView::MissingTagged) <==> output.bye is Some
            && output.tagged is None,
        forall|text: Seq<char>| #[trigger]
            fails(logout_outcome(output), FailureView::No(text)) <==> output.bye is Some
                && output.tagged is Some && output.tagged->0.kind == StatusKind::No
                && output.tagged->0.text == text,
        forall|text: Seq<char>| #[trigger]
            fails(logout_outcome(output), FailureView::Bad(text)) <==> output.bye is Some
                && output.tagged is Some && output.tagged->0.kind == StatusKind::Bad
                && output.tagged->0.text == text,
{
}

/// Commands that give nothing back succeed exactly when the server
/// accepts them, and fail for its reason.
pub proof fn plain_commands_follow_the_server(output: OutputView)
    ensures
        noop_outcome(output) is Ok <==> accepts(output),
        check_outcome(output) is Ok <==> accepts(output),
        close_outcome(output) is Ok <==> accepts(output),
        create_outcome(output) is Ok <==> accepts(output),
        delete_outcome(output) is Ok <==> accepts(output),
        subscribe_outcome(output) is Ok <==> accepts(output),
        unsubscribe_outcome(output) is Ok <==> accepts(output),
        rename_outcome(output) is Ok <==> accepts(output),
        unselect_outcome(output) is Ok <==> accepts(output),
        store_silent_outcome(output) is Ok <==> accepts(output),
        forall|err: FailureView| #[trigger]
            refuses(output, err) ==> {
                &&& fails(noop_outcome(output), err)
                &&& fails(check_outcome(output), err)
                &&& fails(close_outcome(output), err)
                &&& fails(create_outcome(output), err)
                &&& fails(delete_outcome(output), err)
                &&& fails(subscribe_outcome(output), err)
                &&& fails(unsubscribe_outcome(output), err)
                &&& fails(rename_outcome(output), err)
                &&& fails(unselect_outcome(output), err)
                &&& fails(store_silent_outcome(output), err)
            },
{
    verdict_is_the_servers(output);
}

proof fn lemma_last_step<A, B>(
    items: Seq<A>,
    wanted: spec_fn(A) -> bool,
    value: spec_fn(A) -> B,
    before: Option<B>,
    after: Option<B>,
)
    requires
        items.len() > 0,
        is_last(items.drop_last(), wanted, value, before),
        after == if wanted(items.last()) {
            Some(value(items.last()))
        } else {
            before
        },
    ensures
        is_last(items, wanted, value, after),
{
    if wanted(items.last()) {
        assert(items[items.len() - 1] == items.last());
    } else {
        lemma_last_skip(items, wanted, value, before);
    }
}

proof fn lemma_all_step<A, B>(
    items: Seq<A>,
    wanted: spec_fn(A) -> bool,
    value: spec_fn(A) -> Seq<B>,
    before: Seq<B>,
    after: Seq<B>,
)
    requires
        items.len() > 0,
        has_all(items.drop_last(), wanted, value, before),
        after == if wanted(items.last()) {
            before + value(items.last())
        } else {
            before
        },
    ensures
        has_all(items, wanted, value, after),
{
    if wanted(items.last()) {
        lemma_all_push(items, wanted, value, before);
    } else {
        lemma_all_skip(items, wanted, value, before);
    }
}

proof fn lemma_each_step<A, B>(
    items: Seq<A>,
    wanted: spec_fn(A) -> bool,
    value: spec_fn(A) -> B,
    before: Seq<B>,
    after: Seq<B>,
)
    requires
        items.len() > 0,
        has_each(items.drop_last(), wanted, value, before),
        after == if wanted(items.last()) {
            before.push(value(items.last()))
        } else {
            before
        },
    ensures
        has_each(items, wanted, value, after),
{
    let head = items.drop_last();
    let places = choose|places: Seq<int>| #[trigger]
        are_places(head, wanted, places) && before.len() == places.len() && forall|k: int|
            0 <= k < places.len() ==> #[trigger] before[k] == value(head[places[k]]);
    if wanted(items.last()) {
        lemma_places_push(items, wanted, places);
        let all = places.push(items.len() - 1);
        assert forall|k: int| 0 <= k < all.len() implies #[trigger] after[k] == value(
            items[all[k]],
        ) by {
            if k < places.len() {
                assert(after[k] == before[k]);
                assert(all[k] == places[k]);
                assert(0 <= places[k] < head.len());
                assert(head[places[k]] == items[places[k]]);
            }
        }
    } else {
        lemma_places_skip(items, wanted, places);
        assert forall|k: int| 0 <= k < places.len() implies #[trigger] after[k] == value(
            items[places[k]],
        ) by {
            assert(0 <= places[k] < head.len());
            assert(head[places[k]] == items[places[k]]);
        }
    }
}

/// Whether data reports messages that vanished before.
pub open spec fn reports_vanished() -> spec_fn(DataView) -> bool {
    |data: DataView| data is Vanished && data->earlier
}

/// The UIDs that such data covers.
pub open spec fn vanished_uids() -> spec_fn(DataView) -> Seq<u32> {
    |data: DataView| members(set_elements(data->known_uids))
}

/// A message and what data tells of it.
pub open spec fn told_with_number() -> spec_fn(DataView) -> (u32, Seq<MessageDataItem<'static>>) {
    |data: DataView| (data->Fetch_seq, data->Fetch_items)
}

/// What untagged data says about a mailbox that is opened.
pub open spec fn data_is_collected(view: SelectView, data: Seq<DataView>) -> bool {
    &&& is_last(data, |d: DataView| d is Flags, |d: DataView| d->Flags_0, view.flags)
    &&& is_last(data, |d: DataView| d is Exists, |d: DataView| d->Exists_0, view.exists)
    &&& is_last(data, |d: DataView| d is Recent, |d: DataView| d->Recent_0, view.recent)
    &&& has_each(data, |d: DataView| d is Fetch, told_with_number(), view.changed)
    &&& has_all(data, reports_vanished(), vanished_uids(), view.vanished_earlier)
}

/// An untagged OK with the given kind of code.
pub open spec fn says(code: spec_fn(CodeView) -> bool) -> spec_fn(StatusView) -> bool {
    |status: StatusView|
        status.kind == StatusKind::Success && status.code is Some && code(status.code->0)
}

/// What untagged statuses say about a mailbox that is opened.
pub open spec fn statuses_are_collected(view: SelectView, untagged: Seq<StatusView>) -> bool {
    &&& is_last(
        untagged,
        says(|code: CodeView| code is Unseen),
        |status: StatusView| status.code->0->Unseen_0,
        view.unseen,
    )
    &&& is_last(
        untagged,
        says(|code: CodeView| code is PermanentFlags),
        |status: StatusView| status.code->0->PermanentFlags_0,
        view.permanent_flags,
    )
    &&& is_last(
        untagged,
        says(|code: CodeView| code is UidNext),
        |status: StatusView| status.code->0->UidNext_0,
        view.uid_next,
    )
    &&& is_last(
        untagged,
        says(|code: CodeView| code is UidValidity),
        |status: StatusView| status.code->0->UidValidity_0,
        view.uid_validity,
    )
    &&& is_last(
        untagged,
        says(|code: CodeView| code is HighestModSeq),
        |status: StatusView| status.code->0->HighestModSeq_0,
        view.highest_mod_seq,
    )
}

proof fn lemma_mailbox_data(data: Seq<DataView>)
    ensures
        data_is_collected(mailbox_data(data), data),
        statuses_are_collected(mailbox_data(data), Seq::empty()),
    decreases data.len(),
{
    let view = mailbox_data(data);
    if data.len() == 0 {
        lemma_all_none(data, reports_vanished(), vanished_uids());
        let none: Seq<int> = Seq::empty();
        assert(are_places(data, |d: DataView| d is Fetch, none));
    } else {
        let before = mailbox_data(data.drop_last());
        lemma_mailbox_data(data.drop_last());
        lemma_last_step(
            data,
            |d: DataView| d is Flags,
            |d: DataView| d->Flags_0,
            before.flags,
            view.flags,
        );
        lemma_last_step(
            data,
            |d: DataView| d is Exists,
            |d: DataView| d->Exists_0,
            before.exists,
            view.exists,
        );
        lemma_last_step(
            data,
            |d: DataView| d is Recent,
            |d: DataView| d->Recent_0,
            before.recent,
            view.recent,
        );
        lemma_each_step(
            data,
            |d: DataView| d is Fetch,
            told_with_number(),
            before.changed,
            view.changed,
        );
        lemma_all_step(
            data,
            reports_vanished(),
            vanished_uids(),
            before.vanished_earlier,
            view.vanished_earlier,
        );
    }
}

proof fn lemma_with_statuses(start: SelectView, untagged: Seq<StatusView>)
    requires
        statuses_are_collected(start, Seq::empty()),
    ensures
        statuses_are_collected(with_statuses(start, untagged), untagged),
        with_statuses(start, untagged).flags == start.flags,
        with_statuses(start, untagged).exists == start.exists,
        with_statuses(start, untagged).recent == start.recent,
        with_statuses(start, untagged).changed == start.changed,
        with_statuses(start, untagged).vanished_earlier == start.vanished_earlier,
    decreases untagged.len(),
{
    let view = with_statuses(start, untagged);
    if untagged.len() == 0 {
        assert(untagged =~= Seq::empty());
    } else {
        let before = with_statuses(start, untagged.drop_last());
        lemma_with_statuses(start, untagged.drop_last());
        lemma_last_step(
            untagged,
            says(|code: CodeView| code is Unseen),
            |status: StatusView| status.code->0->Unseen_0,
            before.unseen,
            view.unseen,
        );
        lemma_last_step(
            untagged,
            says(|code: CodeView| code is PermanentFlags),
            |status: StatusView| status.code->0->PermanentFlags_0,
            before.permanent_flags,
            view.permanent_flags,
        );
        lemma_last_step(
            untagged,
            says(|code: CodeView| code is UidNext),
            |status: StatusView| status.code->0->UidNext_0,
            before.uid_next,
            view.uid_next,
        );
        lemma_last_step(
            untagged,
            says(|code: CodeView| code is UidValidity),
            |status: StatusView| status.code->0->UidValidity_0,
            before.uid_validity,
            view.uid_validity,
        );
        lemma_last_step(
            untagged,
            says(|code: CodeView| code is HighestModSeq),
            |status: StatusView| status.code->0->HighestModSeq_0,
            before.highest_mod_seq,
            view.highest_mod_seq,
        );
    }
}

/// SELECT and EXAMINE collect the whole state of the mailbox: the last
/// flags, counts and codes, every message that changed, in order, and
/// every UID that vanished before, in order.
pub proof fn open_collects_the_state(output: OutputView)
    ensures
        accepts(output) ==> select_outcome(output) is Ok && data_is_collected(
            select_outcome(output)->Ok_0,
            output.data,
        ) && statuses_are_collected(select_outcome(output)->Ok_0, output.untagged),
        examine_outcome(output) == select_outcome(output),
        forall|err: FailureView| #[trigger]
            refuses(output, err) <==> fails(select_outcome(output), err),
{
    verdict_is_the_servers(output);
    lemma_mailbox_data(output.data);
    lemma_with_statuses(mailbox_data(output.data), output.untagged);
}

/// The model of the state of a mailbox keeps every field.
pub proof fn state_is_kept(data: SelectData)
    ensures
        data@.exists == data.exists,
        data@.recent == data.recent,
        data@.unseen == data.unseen,
        data@.uid_next == data.uid_next,
        data@.uid_validity == data.uid_validity,
        data@.highest_mod_seq == data.highest_mod_seq,
        data@.vanished_earlier == data.vanished_earlier@,
        data@.flags is Some <==> data.flags is Some,
        data.flags matches Some(flags) ==> data@.flags == Some(flags@),
        data@.permanent_flags is Some <==> data.permanent_flags is Some,
        data.permanent_flags matches Some(flags) ==> data@.permanent_flags == Some(flags@),
        data@.changed.len() == data.changed@.len(),
        forall|k: int|
            0 <= k < data.changed@.len() ==> #[trigger] data@.changed[k] == (
                data.changed@[k].seq,
                data.changed@[k].items@,
            ),
{
}

/// Whether a status carries capabilities in its code.
pub open spec fn carries_capabilities() -> spec_fn(StatusView) -> bool {
    |status: StatusView| status.code is Some && status.code->0 is Capability
}

/// The capabilities that a status carries.
pub open spec fn carried() -> spec_fn(StatusView) -> Seq<Capability<'static>> {
    |status: StatusView| status.code->0->Capability_0
}

/// CAPABILITY gives the capabilities of the last untagged code, or else
/// of the last CAPABILITY response, or else of the completion; that there
/// are none is a failure.
pub proof fn capability_gives_what_is_advertised(output: OutputView)
    ensures
        accepts(output) ==> ({
            let none_carried = is_last::<_, Seq<Capability<'static>>>(
                output.untagged,
                carries_capabilities(),
                carried(),
                None,
            );
            let none_listed = is_last::<_, Seq<Capability<'static>>>(
                output.data,
                |d: DataView| d is Capability,
                |d: DataView| d->Capability_0,
                None,
            );
            let tagged = output.tagged->0;
            match capability_outcome(output) {
                Ok(found) => {
                    ||| is_last(output.untagged, carries_capabilities(), carried(), Some(found))
                    ||| none_carried && is_last(
                        output.data,
                        |d: DataView| d is Capability,
                        |d: DataView| d->Capability_0,
                        Some(found),
                    )
                    ||| none_carried && none_listed && carries_capabilities()(tagged)
                        && carried()(tagged) == found
                },
                Err(err) => err == FailureView::MissingCapability && none_carried && none_listed
                    && !carries_capabilities()(tagged),
            }
        }),
        forall|err: FailureView| #[trigger]
            refuses(output, err) ==> fails(capability_outcome(output), err),
{
    verdict_is_the_servers(output);
    last_is_found(
        output.untagged,
        |status: StatusView| code_capabilities(status.code),
        carries_capabilities(),
        carried(),
    );
    last_is_found(
        output.data,
        |item: DataView|
            match item {
                DataView::Capability(found) => Some(found),
                _ => None,
            },
        |d: DataView| d is Capability,
        |d: DataView| d->Capability_0,
    );
}

/// What LOGIN advertises are the capabilities of the last CAPABILITY
/// response, or else of the completion.
pub proof fn login_observes_what_is_advertised(code: Option<CodeView>, output: OutputView)
    ensures
        is_last(
            output.data,
            |d: DataView| d is Capability,
            |d: DataView| d->Capability_0,
            login_capabilities(code, output),
        ) || (is_last::<_, Seq<Capability<'static>>>(
            output.data,
            |d: DataView| d is Capability,
            |d: DataView| d->Capability_0,
            None,
        ) && login_capabilities(code, output) == match code {
            Some(CodeView::Capability(found)) => Some(found),
            _ => None,
        }),
{
    last_is_found(
        output.data,
        |item: DataView|
            match item {
                DataView::Capability(found) => Some(found),
                _ => None,
            },
        |d: DataView| d is Capability,
        |d: DataView| d->Capability_0,
    );
}

/// Whether an element of a UID set covers a UID; the ends of a range may
/// come in any order.
pub open spec fn uid_is_covered(uid: u32) -> spec_fn(UidElement) -> bool {
    |element: UidElement|
        match element {
            UidElement::Single(single) => uid == single,
            UidElement::Range(start, end) => (start <= uid && uid <= end) || (end <= uid && uid
                <= start),
        }
}

proof fn lemma_element_uids(element: UidElement, uid: u32)
    ensures
        element_uids(element).to_multiset().count(uid) == if uid_is_covered(uid)(element) {
            1nat
        } else {
            0nat
        },
{
    let uids = element_uids(element);
    assert(uids.no_duplicates());
    uids.lemma_multiset_has_no_duplicates();
    uids.to_multiset_ensures();
    if uid_is_covered(uid)(element) {
        match element {
            UidElement::Single(single) => {
                assert(uids[0] == uid);
            },
            UidElement::Range(start, end) => {
                let low = if start <= end {
                    start
                } else {
                    end
                };
                assert(uids[uid - low] == uid);
            },
        }
        assert(uids.contains(uid));
    } else {
        assert(!uids.contains(uid));
    }
}

/// Whether so many elements cover a UID.
pub open spec fn is_covered_times(elements: Seq<UidElement>, uid: u32, times: nat) -> bool {
    exists|places: Seq<int>| #[trigger]
        are_places(elements, uid_is_covered(uid), places) && times == places.len()
}

proof fn lemma_all_uids(elements: Seq<UidElement>, uid: u32)
    ensures
        is_covered_times(elements, uid, all_uids(elements).to_multiset().count(uid)),
    decreases elements.len(),
{
    broadcast use vstd::multiset::group_multiset_axioms;

    if elements.len() == 0 {
        let none: Seq<int> = Seq::empty();
        assert(are_places(elements, uid_is_covered(uid), none));
        all_uids(elements).to_multiset_ensures();
        assert(!all_uids(elements).contains(uid));
    } else {
        let head = elements.drop_last();
        let last = elements.last();
        lemma_all_uids(head, uid);
        let places = choose|places: Seq<int>| #[trigger]
            are_places(head, uid_is_covered(uid), places) && all_uids(head).to_multiset().count(uid)
                == places.len();
        lemma_element_uids(last, uid);
        vstd::seq_lib::lemma_multiset_commutative(all_uids(head), element_uids(last));
        if uid_is_covered(uid)(last) {
            lemma_places_push(elements, uid_is_covered(uid), places);
        } else {
            lemma_places_skip(elements, uid_is_covered(uid), places);
        }
    }
}

/// A UID set is expanded in ascending order, with every UID as often as
/// elements cover it.
pub proof fn uid_set_is_expanded(elements: Seq<UidElement>)
    ensures
        forall|i: int, j: int|
            0 <= i < j < ascending_uids(elements).len() ==> ascending_uids(elements)[i]
                <= ascending_uids(elements)[j],
        forall|uid: u32|
            is_covered_times(
                elements,
                uid,
                #[trigger] ascending_uids(elements).to_multiset().count(uid),
            ),
{
    let leq = |a: u32, b: u32| a <= b;
    let uids = ascending_uids(elements);
    all_uids(elements).lemma_sort_by_ensures(leq);
    assert forall|i: int, j: int| 0 <= i < j < uids.len() implies uids[i] <= uids[j] by {
        assert(leq(uids[i], uids[j]));
    }
    assert forall|uid: u32|
        is_covered_times(elements, uid, #[trigger] uids.to_multiset().count(uid)) by {
        lemma_all_uids(elements, uid);
    }
}

/// Whether a status carries COPYUID in its code.
pub open spec fn carries_copyuid() -> spec_fn(StatusView) -> bool {
    |status: StatusView| status.code is Some && status.code->0 is CopyUid
}

/// The COPYUID triple that a status carries, its sets expanded.
pub open spec fn carried_copyuid() -> spec_fn(StatusView) -> (u32, Seq<u32>, Seq<u32>) {
    |status: StatusView|
        (
            status.code->0->CopyUid_uid_validity,
            ascending_uids(uid_elements(status.code->0->CopyUid_source)),
            ascending_uids(uid_elements(status.code->0->CopyUid_destination)),
        )
}

/// COPY gives the COPYUID triple of the completion, if it carries one.
pub proof fn copy_gives_the_uids(output: OutputView)
    ensures
        accepts(output) ==> copy_outcome(output) is Ok && copy_outcome(output)->Ok_0
            == if carries_copyuid()(output.tagged->0) {
            Some(carried_copyuid()(output.tagged->0))
        } else {
            None
        },
        forall|err: FailureView| #[trigger]
            refuses(output, err) <==> fails(copy_outcome(output), err),
{
    verdict_is_the_servers(output);
}

proof fn lemma_untagged_copy_uid(untagged: Seq<StatusView>)
    ensures
        is_first(untagged, carries_copyuid(), carried_copyuid(), untagged_copy_uid(untagged)),
    decreases untagged.len(),
{
    if untagged.len() > 0 {
        let head = untagged.drop_last();
        let last = untagged.last();
        lemma_untagged_copy_uid(head);
        match untagged_copy_uid(head) {
            Some(found) => {
                let i = choose|i: int|
                    0 <= i < head.len() && carries_copyuid()(#[trigger] head[i]) && found
                        == carried_copyuid()(head[i]) && forall|j: int|
                        0 <= j < i ==> !carries_copyuid()(#[trigger] head[j]);
                assert(untagged[i] == head[i]);
                assert forall|j: int| 0 <= j < i implies !carries_copyuid()(
                    #[trigger] untagged[j],
                ) by {
                    assert(untagged[j] == head[j]);
                }
            },
            None => {
                assert forall|j: int| 0 <= j < head.len() implies !carries_copyuid()(
                    #[trigger] untagged[j],
                ) by {
                    assert(untagged[j] == head[j]);
                }
                assert(untagged[untagged.len() - 1] == last);
            },
        }
    }
}

/// MOVE gives the COPYUID triple of the completion, or else of the first
/// untagged status that carries one.
pub proof fn move_gives_the_uids(output: OutputView)
    ensures
        accepts(output) ==> move_outcome(output) is Ok && if carries_copyuid()(output.tagged->0) {
            move_outcome(output)->Ok_0 == Some(carried_copyuid()(output.tagged->0))
        } else {
            is_first(
                output.untagged,
                carries_copyuid(),
                carried_copyuid(),
                move_outcome(output)->Ok_0,
            )
        },
        forall|err: FailureView| #[trigger]
            refuses(output, err) <==> fails(move_outcome(output), err),
{
    verdict_is_the_servers(output);
    lemma_untagged_copy_uid(output.untagged);
}

} // verus!
