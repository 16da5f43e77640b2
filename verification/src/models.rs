//! What the models of steps, answers and errors show.

use imap_codec::imap_types::extensions::enable::CapabilityEnable;
use imap_codec::imap_types::response::Capability;
use vstd::prelude::*;
use vstd::std_specs::convert::FromSpec;

use crate::command::{CommandFragment, FragmentView};
use crate::coroutine::{arg_view, ImapCoroutineState, ImapYield, YieldView};
use crate::framing::Framing;
use crate::outcome::{result_view, result_view_by, step_view, step_view_by, FailureView, Refusal};
use crate::response::{
    decoded_response, parameters_view, CodeView, DataView, DecodeError, ResponseView, ServerCode,
    ServerData, ServerResponse, StatusBody,
};
use crate::rfc2177::idle::{idle_result_view, IdleYieldView, ImapIdleError, ImapIdleYield};
use crate::rfc2971::id::ImapServerIdError;
use crate::rfc3501::append::{
    append_step_view, ImapMessageAppendError, ImapMessageAppendOutput, ImapMessageAppendYield,
};
use crate::rfc3501::append_stream::{
    append_result_view, AppendYieldView, ImapMessageAppendStreamError, ImapMessageAppendStreamYield,
};
use crate::rfc3501::capability::{capabilities_view, ImapCapabilityGetError};
use crate::rfc3501::check::ImapMailboxCheckError;
use crate::rfc3501::close::ImapMailboxCloseError;
use crate::rfc3501::copy::{copy_uid_view, ImapCopyUid, ImapMessageCopyError};
use crate::rfc3501::create::ImapMailboxCreateError;
use crate::rfc3501::delete::ImapMailboxDeleteError;
use crate::rfc3501::examine::ImapMailboxExamineError;
use crate::rfc3501::expunge::ImapMailboxExpungeError;
use crate::rfc3501::fetch::ImapMessageFetchError;
use crate::rfc3501::fetch_stream::{
    fetch_stream_result_view, FetchStreamYieldView, ImapMessageFetchStreamError,
    ImapMessageFetchStreamYield,
};
use crate::rfc3501::fetch_stream_batch::{
    batch_result_view, BatchYieldView, ImapMessageFetchStreamBatchError,
    ImapMessageFetchStreamBatchYield,
};
use crate::rfc3501::greeting::{decoded_greeting, Greeting, ImapGreetingGetError, ImapGreetingOk};
use crate::rfc3501::greeting_with_capability::ImapGreetingWithCapabilityGetError;
use crate::rfc3501::lines::{ending_view, LineEvent, LineEventView};
use crate::rfc3501::list::ImapMailboxListError;
use crate::rfc3501::login::ImapLoginError;
use crate::rfc3501::logout::ImapLogoutError;
use crate::rfc3501::lsub::ImapMailboxLsubError;
use crate::rfc3501::mailbox::bytes_view;
use crate::rfc3501::noop::ImapNoopError;
use crate::rfc3501::raw::ImapRawError;
use crate::rfc3501::rename::ImapMailboxRenameError;
use crate::rfc3501::search::ImapMessageSearchError;
use crate::rfc3501::select::{ImapMailboxSelectError, SelectData};
use crate::rfc3501::status::ImapMailboxStatusError;
use crate::rfc3501::store::ImapMessageStoreError;
use crate::rfc3501::subscribe::ImapMailboxSubscribeError;
use crate::rfc3501::unsubscribe::ImapMailboxUnsubscribeError;
use crate::rfc3691::unselect::ImapMailboxUnselectError;
use crate::rfc4315::appenduid::ImapAppendUidError;
use crate::rfc4315::expunge_uid::ImapMessageExpungeUidError;
use crate::rfc5161::enable::{enabled_view, ImapExtensionEnableError};
use crate::rfc5256::order::{FactView, ItemFact, SortKeys};
use crate::rfc5256::sort::ImapMessageSortError;
use crate::rfc5256::thread::ImapMessageThreadError;
use crate::rfc6851::message_move::ImapMessageMoveError;
use crate::send::{
    concealed, data_views, send_result_view, status_views, ImapSendError, ImapSendOutput,
    SendErrorView,
};

verus! {

/// What an [`ImapYield`] says is what is asked for.
pub proof fn yield_is_what_is_asked(y: ImapYield)
    ensures
        y is WantsRead ==> y@ == YieldView::WantsRead,
        y matches ImapYield::WantsWrite(bytes) ==> y@ == YieldView::WantsWrite(bytes@),
{
}

/// What an [`Refusal`] says is why it failed.
pub proof fn refusal_is_its_reason(err: Refusal)
    ensures
        err matches Refusal::No(text) ==> err@ == FailureView::No(text@),
        err matches Refusal::Bad(text) ==> err@ == FailureView::Bad(text@),
        err matches Refusal::Bye(text) ==> err@ == FailureView::Bye(text@),
        err is MissingTagged ==> err@ == FailureView::MissingTagged,
{
}

/// What an [`ImapIdleError`] says is why it failed.
pub proof fn idle_error_is_its_reason(err: ImapIdleError)
    ensures
        err matches ImapIdleError::No(text) ==> err@ == FailureView::No(text@),
        err matches ImapIdleError::Bad(text) ==> err@ == FailureView::Bad(text@),
        err matches ImapIdleError::Bye(text) ==> err@ == FailureView::Bye(text@),
        err is UnexpectedTagged ==> err@ == FailureView::UnexpectedTagged,
        err is ExpectedContinuationRequest ==> err@ == FailureView::ExpectedContinuationRequest,
        err is MissingTagged ==> err@ == FailureView::MissingTagged,
        err is Eof ==> err@ == FailureView::Eof,
        err matches ImapIdleError::DecodingFailure(bytes) ==> err@
            == FailureView::DecodingFailure(concealed(bytes)),
        err matches ImapIdleError::MessageIsPoisoned(bytes) ==> err@
            == FailureView::MessageIsPoisoned(concealed(bytes)),
        err matches ImapIdleError::MessageTooLong(bytes) ==> err@
            == FailureView::MessageTooLong(concealed(bytes)),
        err matches ImapIdleError::Send(inner) ==> err@ == FailureView::Send(inner@),
{
}

/// What an [`ImapIdleYield`] says is what is asked for.
pub proof fn idle_yield_is_what_is_asked(y: ImapIdleYield)
    ensures
        y is WantsRead ==> y@ == IdleYieldView::WantsRead,
        y matches ImapIdleYield::WantsWrite(bytes) ==> y@ == IdleYieldView::WantsWrite(bytes@),
        y matches ImapIdleYield::Event(event) ==> y@
            == (IdleYieldView::Event {
            untagged: status_views(event.untagged@),
            data: data_views(event.data@),
        }),
{
}

/// What an [`ImapServerIdError`] says is why it failed.
pub proof fn server_id_error_is_its_reason(err: ImapServerIdError)
    ensures
        err matches ImapServerIdError::No(text) ==> err@ == FailureView::No(text@),
        err matches ImapServerIdError::Bad(text) ==> err@ == FailureView::Bad(text@),
        err matches ImapServerIdError::Bye(text) ==> err@ == FailureView::Bye(text@),
        err is MissingTagged ==> err@ == FailureView::MissingTagged,
        err matches ImapServerIdError::Send(inner) ==> err@ == FailureView::Send(inner@),
{
}

/// What an [`ImapMessageAppendError`] says is why it failed.
pub proof fn message_append_error_is_its_reason(err: ImapMessageAppendError)
    ensures
        err matches ImapMessageAppendError::No(text) ==> err@ == FailureView::No(text@),
        err matches ImapMessageAppendError::Bad(text) ==> err@ == FailureView::Bad(text@),
        err matches ImapMessageAppendError::Bye(text) ==> err@ == FailureView::Bye(text@),
        err is MissingTagged ==> err@ == FailureView::MissingTagged,
        err is ShortMessage ==> err@ == FailureView::ShortMessage,
        err matches ImapMessageAppendError::Send(inner) ==> err@ == FailureView::Send(inner@),
{
}

/// What an [`ImapMessageAppendYield`] says is what is asked for.
pub proof fn message_append_yield_is_what_is_asked(y: ImapMessageAppendYield)
    ensures
        y is WantsRead ==> y@ == AppendYieldView::WantsRead,
        y matches ImapMessageAppendYield::WantsWrite(bytes) ==> y@
            == AppendYieldView::WantsWrite(bytes@),
        y is WantsStream ==> y@ == AppendYieldView::WantsStream,
{
}

/// What an [`ImapMessageAppendStreamError`] says is why it failed.
pub proof fn message_append_stream_error_is_its_reason(err: ImapMessageAppendStreamError)
    ensures
        err matches ImapMessageAppendStreamError::No(text) ==> err@ == FailureView::No(text@),
        err matches ImapMessageAppendStreamError::Bad(text) ==> err@ == FailureView::Bad(text@),
        err matches ImapMessageAppendStreamError::Bye(text) ==> err@ == FailureView::Bye(text@),
        err is MissingTagged ==> err@ == FailureView::MissingTagged,
        err is ShortMessage ==> err@ == FailureView::ShortMessage,
        err matches ImapMessageAppendStreamError::Send(inner) ==> err@ == FailureView::Send(inner@),
{
}

/// What an [`ImapMessageAppendStreamYield`] says is what is asked for.
pub proof fn message_append_stream_yield_is_what_is_asked(y: ImapMessageAppendStreamYield)
    ensures
        y is WantsRead ==> y@ == AppendYieldView::WantsRead,
        y matches ImapMessageAppendStreamYield::WantsWrite(bytes) ==> y@
            == AppendYieldView::WantsWrite(bytes@),
        y is WantsStream ==> y@ == AppendYieldView::WantsStream,
{
}

/// What an [`ImapCapabilityGetError`] says is why it failed.
pub proof fn capability_get_error_is_its_reason(err: ImapCapabilityGetError)
    ensures
        err matches ImapCapabilityGetError::No(text) ==> err@ == FailureView::No(text@),
        err matches ImapCapabilityGetError::Bad(text) ==> err@ == FailureView::Bad(text@),
        err matches ImapCapabilityGetError::Bye(text) ==> err@ == FailureView::Bye(text@),
        err is MissingTagged ==> err@ == FailureView::MissingTagged,
        err is MissingCapability ==> err@ == FailureView::MissingCapability,
        err matches ImapCapabilityGetError::Send(inner) ==> err@ == FailureView::Send(inner@),
{
}

/// What an [`ImapMailboxCheckError`] says is why it failed.
pub proof fn mailbox_check_error_is_its_reason(err: ImapMailboxCheckError)
    ensures
        err matches ImapMailboxCheckError::No(text) ==> err@ == FailureView::No(text@),
        err matches ImapMailboxCheckError::Bad(text) ==> err@ == FailureView::Bad(text@),
        err matches ImapMailboxCheckError::Bye(text) ==> err@ == FailureView::Bye(text@),
        err is MissingTagged ==> err@ == FailureView::MissingTagged,
        err matches ImapMailboxCheckError::Send(inner) ==> err@ == FailureView::Send(inner@),
{
}

/// What an [`ImapMailboxCloseError`] says is why it failed.
pub proof fn mailbox_close_error_is_its_reason(err: ImapMailboxCloseError)
    ensures
        err matches ImapMailboxCloseError::No(text) ==> err@ == FailureView::No(text@),
        err matches ImapMailboxCloseError::Bad(text) ==> err@ == FailureView::Bad(text@),
        err matches ImapMailboxCloseError::Bye(text) ==> err@ == FailureView::Bye(text@),
        err is MissingTagged ==> err@ == FailureView::MissingTagged,
        err matches ImapMailboxCloseError::Send(inner) ==> err@ == FailureView::Send(inner@),
{
}

/// What an [`ImapMessageCopyError`] says is why it failed.
pub proof fn message_copy_error_is_its_reason(err: ImapMessageCopyError)
    ensures
        err matches ImapMessageCopyError::No(text) ==> err@ == FailureView::No(text@),
        err matches ImapMessageCopyError::Bad(text) ==> err@ == FailureView::Bad(text@),
        err matches ImapMessageCopyError::Bye(text) ==> err@ == FailureView::Bye(text@),
        err is MissingTagged ==> err@ == FailureView::MissingTagged,
        err matches ImapMessageCopyError::Send(inner) ==> err@ == FailureView::Send(inner@),
{
}

/// What an [`ImapMailboxCreateError`] says is why it failed.
pub proof fn mailbox_create_error_is_its_reason(err: ImapMailboxCreateError)
    ensures
        err matches ImapMailboxCreateError::No(text) ==> err@ == FailureView::No(text@),
        err matches ImapMailboxCreateError::Bad(text) ==> err@ == FailureView::Bad(text@),
        err matches ImapMailboxCreateError::Bye(text) ==> err@ == FailureView::Bye(text@),
        err is MissingTagged ==> err@ == FailureView::MissingTagged,
        err matches ImapMailboxCreateError::Send(inner) ==> err@ == FailureView::Send(inner@),
{
}

/// What an [`ImapMailboxDeleteError`] says is why it failed.
pub proof fn mailbox_delete_error_is_its_reason(err: ImapMailboxDeleteError)
    ensures
        err matches ImapMailboxDeleteError::No(text) ==> err@ == FailureView::No(text@),
        err matches ImapMailboxDeleteError::Bad(text) ==> err@ == FailureView::Bad(text@),
        err matches ImapMailboxDeleteError::Bye(text) ==> err@ == FailureView::Bye(text@),
        err is MissingTagged ==> err@ == FailureView::MissingTagged,
        err matches ImapMailboxDeleteError::Send(inner) ==> err@ == FailureView::Send(inner@),
{
}

/// What an [`ImapMailboxExamineError`] says is why it failed.
pub proof fn mailbox_examine_error_is_its_reason(err: ImapMailboxExamineError)
    ensures
        err matches ImapMailboxExamineError::No(text) ==> err@ == FailureView::No(text@),
        err matches ImapMailboxExamineError::Bad(text) ==> err@ == FailureView::Bad(text@),
        err matches ImapMailboxExamineError::Bye(text) ==> err@ == FailureView::Bye(text@),
        err is MissingTagged ==> err@ == FailureView::MissingTagged,
        err matches ImapMailboxExamineError::Send(inner) ==> err@ == FailureView::Send(inner@),
{
}

/// What an [`ImapMailboxExpungeError`] says is why it failed.
pub proof fn mailbox_expunge_error_is_its_reason(err: ImapMailboxExpungeError)
    ensures
        err matches ImapMailboxExpungeError::No(text) ==> err@ == FailureView::No(text@),
        err matches ImapMailboxExpungeError::Bad(text) ==> err@ == FailureView::Bad(text@),
        err matches ImapMailboxExpungeError::Bye(text) ==> err@ == FailureView::Bye(text@),
        err is MissingTagged ==> err@ == FailureView::MissingTagged,
        err matches ImapMailboxExpungeError::Send(inner) ==> err@ == FailureView::Send(inner@),
{
}

/// What an [`ImapMessageFetchError`] says is why it failed.
pub proof fn message_fetch_error_is_its_reason(err: ImapMessageFetchError)
    ensures
        err matches ImapMessageFetchError::No(text) ==> err@ == FailureView::No(text@),
        err matches ImapMessageFetchError::Bad(text) ==> err@ == FailureView::Bad(text@),
        err matches ImapMessageFetchError::Bye(text) ==> err@ == FailureView::Bye(text@),
        err is MissingTagged ==> err@ == FailureView::MissingTagged,
        err is MissingData ==> err@ == FailureView::MissingData,
        err matches ImapMessageFetchError::Send(inner) ==> err@ == FailureView::Send(inner@),
{
}

/// What an [`ImapMessageFetchStreamError`] says is why it failed.
pub proof fn message_fetch_stream_error_is_its_reason(err: ImapMessageFetchStreamError)
    ensures
        err matches ImapMessageFetchStreamError::No(text) ==> err@ == FailureView::No(text@),
        err matches ImapMessageFetchStreamError::Bad(text) ==> err@ == FailureView::Bad(text@),
        err matches ImapMessageFetchStreamError::Bye(text) ==> err@ == FailureView::Bye(text@),
        err is MissingTagged ==> err@ == FailureView::MissingTagged,
        err is ShortBody ==> err@ == FailureView::ShortBody,
        err is UnexpectedLiteral ==> err@ == FailureView::UnexpectedLiteral,
{
}

/// What an [`ImapMessageFetchStreamYield`] says is what is asked for.
pub proof fn message_fetch_stream_yield_is_what_is_asked(y: ImapMessageFetchStreamYield)
    ensures
        y is WantsRead ==> y@ == FetchStreamYieldView::WantsRead,
        y matches ImapMessageFetchStreamYield::WantsWrite(bytes) ==> y@
            == FetchStreamYieldView::WantsWrite(bytes@),
        y matches ImapMessageFetchStreamYield::BodyChunk(bytes) ==> y@
            == FetchStreamYieldView::BodyChunk(bytes@),
        y matches ImapMessageFetchStreamYield::WantsStream { len } ==> y@
            == (FetchStreamYieldView::WantsStream { len, }),
{
}

/// What an [`ImapMessageFetchStreamBatchError`] says is why it failed.
pub proof fn message_fetch_stream_batch_error_is_its_reason(err: ImapMessageFetchStreamBatchError)
    ensures
        err matches ImapMessageFetchStreamBatchError::No(text) ==> err@ == FailureView::No(text@),
        err matches ImapMessageFetchStreamBatchError::Bad(text) ==> err@ == FailureView::Bad(text@),
        err matches ImapMessageFetchStreamBatchError::Bye(text) ==> err@ == FailureView::Bye(text@),
        err is MissingTagged ==> err@ == FailureView::MissingTagged,
        err is ShortBody ==> err@ == FailureView::ShortBody,
        err is UidMissing ==> err@ == FailureView::UidMissing,
{
}

/// What an [`ImapMessageFetchStreamBatchYield`] says is what is asked for.
pub proof fn message_fetch_stream_batch_yield_is_what_is_asked(y: ImapMessageFetchStreamBatchYield)
    ensures
        y is WantsRead ==> y@ == BatchYieldView::WantsRead,
        y matches ImapMessageFetchStreamBatchYield::WantsWrite(bytes) ==> y@
            == BatchYieldView::WantsWrite(bytes@),
        y matches ImapMessageFetchStreamBatchYield::MessageStart { uid } ==> y@
            == (BatchYieldView::MessageStart { uid, }),
        y matches ImapMessageFetchStreamBatchYield::BodyChunk(bytes) ==> y@
            == BatchYieldView::BodyChunk(bytes@),
        y matches ImapMessageFetchStreamBatchYield::WantsStream { len } ==> y@
            == (BatchYieldView::WantsStream { len, }),
        y is MessageEnd ==> y@ == BatchYieldView::MessageEnd,
{
}

/// What an [`ImapGreetingGetError`] says is why it failed.
pub proof fn greeting_get_error_is_its_reason(err: ImapGreetingGetError)
    ensures
        err matches ImapGreetingGetError::Bye(text) ==> err@ == FailureView::Bye(text@),
        err is Eof ==> err@ == FailureView::Eof,
        err matches ImapGreetingGetError::DecodingFailure(bytes) ==> err@
            == FailureView::DecodingFailure(concealed(bytes)),
        err matches ImapGreetingGetError::MessageIsPoisoned(bytes) ==> err@
            == FailureView::MessageIsPoisoned(concealed(bytes)),
        err matches ImapGreetingGetError::MessageTooLong(bytes) ==> err@
            == FailureView::MessageTooLong(concealed(bytes)),
        err matches ImapGreetingGetError::Capability(inner) ==> err@
            == FailureView::Capability(Box::new(inner@)),
{
}

/// What an [`ImapGreetingWithCapabilityGetError`] says is why it failed.
pub proof fn greeting_with_capability_get_error_is_its_reason(
    err: ImapGreetingWithCapabilityGetError,
)
    ensures
        err matches ImapGreetingWithCapabilityGetError::Greeting(inner) ==> err@
            == FailureView::Greeting(Box::new(inner@)),
        err matches ImapGreetingWithCapabilityGetError::Capability(inner) ==> err@
            == FailureView::Capability(Box::new(inner@)),
{
}

/// What an [`ImapMailboxListError`] says is why it failed.
pub proof fn mailbox_list_error_is_its_reason(err: ImapMailboxListError)
    ensures
        err matches ImapMailboxListError::No(text) ==> err@ == FailureView::No(text@),
        err matches ImapMailboxListError::Bad(text) ==> err@ == FailureView::Bad(text@),
        err matches ImapMailboxListError::Bye(text) ==> err@ == FailureView::Bye(text@),
        err is MissingTagged ==> err@ == FailureView::MissingTagged,
        err matches ImapMailboxListError::Send(inner) ==> err@ == FailureView::Send(inner@),
{
}

/// What an [`ImapLoginError`] says is why it failed.
pub proof fn login_error_is_its_reason(err: ImapLoginError)
    ensures
        err matches ImapLoginError::No(text) ==> err@ == FailureView::No(text@),
        err matches ImapLoginError::Bad(text) ==> err@ == FailureView::Bad(text@),
        err matches ImapLoginError::Bye(text) ==> err@ == FailureView::Bye(text@),
        err is MissingTagged ==> err@ == FailureView::MissingTagged,
        err matches ImapLoginError::Send(inner) ==> err@ == FailureView::Send(inner@),
        err matches ImapLoginError::Capability(inner) ==> err@
            == FailureView::Capability(Box::new(inner@)),
        err matches ImapLoginError::ServerId(inner) ==> err@
            == FailureView::ServerId(Box::new(inner@)),
{
}

/// What an [`ImapLogoutError`] says is why it failed.
pub proof fn logout_error_is_its_reason(err: ImapLogoutError)
    ensures
        err matches ImapLogoutError::No(text) ==> err@ == FailureView::No(text@),
        err matches ImapLogoutError::Bad(text) ==> err@ == FailureView::Bad(text@),
        err is MissingTagged ==> err@ == FailureView::MissingTagged,
        err is MissingBye ==> err@ == FailureView::MissingBye,
        err matches ImapLogoutError::Send(inner) ==> err@ == FailureView::Send(inner@),
{
}

/// What an [`ImapMailboxLsubError`] says is why it failed.
pub proof fn mailbox_lsub_error_is_its_reason(err: ImapMailboxLsubError)
    ensures
        err matches ImapMailboxLsubError::No(text) ==> err@ == FailureView::No(text@),
        err matches ImapMailboxLsubError::Bad(text) ==> err@ == FailureView::Bad(text@),
        err matches ImapMailboxLsubError::Bye(text) ==> err@ == FailureView::Bye(text@),
        err is MissingTagged ==> err@ == FailureView::MissingTagged,
        err matches ImapMailboxLsubError::Send(inner) ==> err@ == FailureView::Send(inner@),
{
}

/// What an [`ImapNoopError`] says is why it failed.
pub proof fn noop_error_is_its_reason(err: ImapNoopError)
    ensures
        err matches ImapNoopError::No(text) ==> err@ == FailureView::No(text@),
        err matches ImapNoopError::Bad(text) ==> err@ == FailureView::Bad(text@),
        err matches ImapNoopError::Bye(text) ==> err@ == FailureView::Bye(text@),
        err is MissingTagged ==> err@ == FailureView::MissingTagged,
        err matches ImapNoopError::Send(inner) ==> err@ == FailureView::Send(inner@),
{
}

/// What an [`ImapRawError`] says is why it failed.
pub proof fn raw_error_is_its_reason(err: ImapRawError)
    ensures
        err is NoCommand ==> err@ == FailureView::NoCommand,
        err is MissingTag ==> err@ == FailureView::MissingTag,
        err matches ImapRawError::DuplicateTag(tag) ==> err@ == FailureView::DuplicateTag(tag@),
        err is IncompleteCommand ==> err@ == FailureView::IncompleteCommand,
        err is Eof ==> err@ == FailureView::Eof,
{
}

/// What an [`ImapMailboxRenameError`] says is why it failed.
pub proof fn mailbox_rename_error_is_its_reason(err: ImapMailboxRenameError)
    ensures
        err matches ImapMailboxRenameError::No(text) ==> err@ == FailureView::No(text@),
        err matches ImapMailboxRenameError::Bad(text) ==> err@ == FailureView::Bad(text@),
        err matches ImapMailboxRenameError::Bye(text) ==> err@ == FailureView::Bye(text@),
        err is MissingTagged ==> err@ == FailureView::MissingTagged,
        err matches ImapMailboxRenameError::Send(inner) ==> err@ == FailureView::Send(inner@),
{
}

/// What an [`ImapMessageSearchError`] says is why it failed.
pub proof fn message_search_error_is_its_reason(err: ImapMessageSearchError)
    ensures
        err matches ImapMessageSearchError::No(text) ==> err@ == FailureView::No(text@),
        err matches ImapMessageSearchError::Bad(text) ==> err@ == FailureView::Bad(text@),
        err matches ImapMessageSearchError::Bye(text) ==> err@ == FailureView::Bye(text@),
        err is MissingTagged ==> err@ == FailureView::MissingTagged,
        err matches ImapMessageSearchError::Send(inner) ==> err@ == FailureView::Send(inner@),
{
}

/// What an [`ImapMailboxSelectError`] says is why it failed.
pub proof fn mailbox_select_error_is_its_reason(err: ImapMailboxSelectError)
    ensures
        err matches ImapMailboxSelectError::No(text) ==> err@ == FailureView::No(text@),
        err matches ImapMailboxSelectError::Bad(text) ==> err@ == FailureView::Bad(text@),
        err matches ImapMailboxSelectError::Bye(text) ==> err@ == FailureView::Bye(text@),
        err is MissingTagged ==> err@ == FailureView::MissingTagged,
        err matches ImapMailboxSelectError::Send(inner) ==> err@ == FailureView::Send(inner@),
{
}

/// What an [`ImapMailboxStatusError`] says is why it failed.
pub proof fn mailbox_status_error_is_its_reason(err: ImapMailboxStatusError)
    ensures
        err matches ImapMailboxStatusError::No(text) ==> err@ == FailureView::No(text@),
        err matches ImapMailboxStatusError::Bad(text) ==> err@ == FailureView::Bad(text@),
        err matches ImapMailboxStatusError::Bye(text) ==> err@ == FailureView::Bye(text@),
        err is MissingTagged ==> err@ == FailureView::MissingTagged,
        err matches ImapMailboxStatusError::Send(inner) ==> err@ == FailureView::Send(inner@),
{
}

/// What an [`ImapMessageStoreError`] says is why it failed.
pub proof fn message_store_error_is_its_reason(err: ImapMessageStoreError)
    ensures
        err matches ImapMessageStoreError::No(text) ==> err@ == FailureView::No(text@),
        err matches ImapMessageStoreError::Bad(text) ==> err@ == FailureView::Bad(text@),
        err matches ImapMessageStoreError::Bye(text) ==> err@ == FailureView::Bye(text@),
        err is MissingTagged ==> err@ == FailureView::MissingTagged,
        err matches ImapMessageStoreError::Send(inner) ==> err@ == FailureView::Send(inner@),
{
}

/// What an [`ImapMailboxSubscribeError`] says is why it failed.
pub proof fn mailbox_subscribe_error_is_its_reason(err: ImapMailboxSubscribeError)
    ensures
        err matches ImapMailboxSubscribeError::No(text) ==> err@ == FailureView::No(text@),
        err matches ImapMailboxSubscribeError::Bad(text) ==> err@ == FailureView::Bad(text@),
        err matches ImapMailboxSubscribeError::Bye(text) ==> err@ == FailureView::Bye(text@),
        err is MissingTagged ==> err@ == FailureView::MissingTagged,
        err matches ImapMailboxSubscribeError::Send(inner) ==> err@ == FailureView::Send(inner@),
{
}

/// What an [`ImapMailboxUnsubscribeError`] says is why it failed.
pub proof fn mailbox_unsubscribe_error_is_its_reason(err: ImapMailboxUnsubscribeError)
    ensures
        err matches ImapMailboxUnsubscribeError::No(text) ==> err@ == FailureView::No(text@),
        err matches ImapMailboxUnsubscribeError::Bad(text) ==> err@ == FailureView::Bad(text@),
        err matches ImapMailboxUnsubscribeError::Bye(text) ==> err@ == FailureView::Bye(text@),
        err is MissingTagged ==> err@ == FailureView::MissingTagged,
        err matches ImapMailboxUnsubscribeError::Send(inner) ==> err@ == FailureView::Send(inner@),
{
}

/// What an [`ImapMailboxUnselectError`] says is why it failed.
pub proof fn mailbox_unselect_error_is_its_reason(err: ImapMailboxUnselectError)
    ensures
        err matches ImapMailboxUnselectError::No(text) ==> err@ == FailureView::No(text@),
        err matches ImapMailboxUnselectError::Bad(text) ==> err@ == FailureView::Bad(text@),
        err matches ImapMailboxUnselectError::Bye(text) ==> err@ == FailureView::Bye(text@),
        err is MissingTagged ==> err@ == FailureView::MissingTagged,
        err matches ImapMailboxUnselectError::Send(inner) ==> err@ == FailureView::Send(inner@),
{
}

/// What an [`ImapAppendUidError`] says is why it failed.
pub proof fn append_uid_error_is_its_reason(err: ImapAppendUidError)
    ensures
        err matches ImapAppendUidError::No(text) ==> err@ == FailureView::No(text@),
        err matches ImapAppendUidError::Bad(text) ==> err@ == FailureView::Bad(text@),
        err matches ImapAppendUidError::Bye(text) ==> err@ == FailureView::Bye(text@),
        err is MissingTagged ==> err@ == FailureView::MissingTagged,
        err matches ImapAppendUidError::Send(inner) ==> err@ == FailureView::Send(inner@),
{
}

/// What an [`ImapMessageExpungeUidError`] says is why it failed.
pub proof fn message_expunge_uid_error_is_its_reason(err: ImapMessageExpungeUidError)
    ensures
        err matches ImapMessageExpungeUidError::No(text) ==> err@ == FailureView::No(text@),
        err matches ImapMessageExpungeUidError::Bad(text) ==> err@ == FailureView::Bad(text@),
        err matches ImapMessageExpungeUidError::Bye(text) ==> err@ == FailureView::Bye(text@),
        err is MissingTagged ==> err@ == FailureView::MissingTagged,
        err matches ImapMessageExpungeUidError::Send(inner) ==> err@ == FailureView::Send(inner@),
{
}

/// What an [`ImapExtensionEnableError`] says is why it failed.
pub proof fn extension_enable_error_is_its_reason(err: ImapExtensionEnableError)
    ensures
        err matches ImapExtensionEnableError::No(text) ==> err@ == FailureView::No(text@),
        err matches ImapExtensionEnableError::Bad(text) ==> err@ == FailureView::Bad(text@),
        err matches ImapExtensionEnableError::Bye(text) ==> err@ == FailureView::Bye(text@),
        err is MissingTagged ==> err@ == FailureView::MissingTagged,
        err matches ImapExtensionEnableError::Send(inner) ==> err@ == FailureView::Send(inner@),
{
}

/// What an [`ImapMessageSortError`] says is why it failed.
pub proof fn message_sort_error_is_its_reason(err: ImapMessageSortError)
    ensures
        err matches ImapMessageSortError::No(text) ==> err@ == FailureView::No(text@),
        err matches ImapMessageSortError::Bad(text) ==> err@ == FailureView::Bad(text@),
        err matches ImapMessageSortError::Bye(text) ==> err@ == FailureView::Bye(text@),
        err is MissingTagged ==> err@ == FailureView::MissingTagged,
        err is MissingData ==> err@ == FailureView::MissingData,
        err is InvalidSequenceSet ==> err@ == FailureView::InvalidSequenceSet,
        err matches ImapMessageSortError::Send(inner) ==> err@ == FailureView::Send(inner@),
        err matches ImapMessageSortError::Search(inner) ==> err@
            == FailureView::Search(Box::new(inner@)),
        err matches ImapMessageSortError::Fetch(inner) ==> err@
            == FailureView::Fetch(Box::new(inner@)),
{
}

/// What an [`ImapMessageThreadError`] says is why it failed.
pub proof fn message_thread_error_is_its_reason(err: ImapMessageThreadError)
    ensures
        err matches ImapMessageThreadError::No(text) ==> err@ == FailureView::No(text@),
        err matches ImapMessageThreadError::Bad(text) ==> err@ == FailureView::Bad(text@),
        err matches ImapMessageThreadError::Bye(text) ==> err@ == FailureView::Bye(text@),
        err is MissingTagged ==> err@ == FailureView::MissingTagged,
        err is MissingData ==> err@ == FailureView::MissingData,
        err matches ImapMessageThreadError::Send(inner) ==> err@ == FailureView::Send(inner@),
{
}

/// What an [`ImapMessageMoveError`] says is why it failed.
pub proof fn message_move_error_is_its_reason(err: ImapMessageMoveError)
    ensures
        err matches ImapMessageMoveError::No(text) ==> err@ == FailureView::No(text@),
        err matches ImapMessageMoveError::Bad(text) ==> err@ == FailureView::Bad(text@),
        err matches ImapMessageMoveError::Bye(text) ==> err@ == FailureView::Bye(text@),
        err is MissingTagged ==> err@ == FailureView::MissingTagged,
        err matches ImapMessageMoveError::Send(inner) ==> err@ == FailureView::Send(inner@),
{
}

/// What an [`ImapSendError`] says is why it failed.
pub proof fn send_error_is_its_reason(err: ImapSendError)
    ensures
        err is Eof ==> err@ == SendErrorView::Eof,
        err matches ImapSendError::DecodingFailure(secret) ==> err@
            == SendErrorView::DecodingFailure(concealed(secret)),
        err matches ImapSendError::MessageIsPoisoned(secret) ==> err@
            == SendErrorView::MessageIsPoisoned(concealed(secret)),
        err matches ImapSendError::MessageTooLong(secret) ==> err@
            == SendErrorView::MessageTooLong(concealed(secret)),
{
}

/// What the server answered is shown whole: its completion, its BYE, its
/// data and its untagged statuses, each in its place.
pub proof fn send_output_is_what_was_answered(output: ImapSendOutput)
    ensures
        output@.tagged is Some <==> output.tagged is Some,
        output.tagged matches Some(status) ==> output@.tagged->0 == status@,
        output@.bye is Some <==> output.bye is Some,
        output.bye matches Some(text) ==> output@.bye->0 == text@,
        output@.continuation_request == output.continuation_request,
        output@.data.len() == output.data@.len(),
        forall|k: int|
            0 <= k < output.data@.len() ==> #[trigger] output@.data[k] == output.data@[k]@,
        output@.untagged.len() == output.untagged@.len(),
        forall|k: int|
            0 <= k < output.untagged@.len() ==> #[trigger] output@.untagged[k]
                == output.untagged@[k]@,
{
}

/// A status line is shown with its kind, its code and its text.
pub proof fn status_is_what_was_said(status: StatusBody)
    ensures
        status@.kind == status.kind,
        status@.text == status.text@,
        status@.code is Some <==> status.code is Some,
        status.code matches Some(code) ==> status@.code->0 == code@,
{
}

/// The state of a mailbox is shown field by field.
pub proof fn select_data_is_what_was_told(data: SelectData)
    ensures
        data@.flags is Some <==> data.flags is Some,
        data.flags matches Some(flags) ==> data@.flags->0 == flags@,
        data@.permanent_flags is Some <==> data.permanent_flags is Some,
        data.permanent_flags matches Some(flags) ==> data@.permanent_flags->0 == flags@,
        data@.exists == data.exists,
        data@.recent == data.recent,
        data@.unseen == data.unseen,
        data@.uid_next == data.uid_next,
        data@.uid_validity == data.uid_validity,
        data@.highest_mod_seq == data.highest_mod_seq,
        data@.vanished_earlier == data.vanished_earlier@,
        data@.changed.len() == data.changed@.len(),
        forall|k: int|
            0 <= k < data.changed@.len() ==> #[trigger] data@.changed[k] == (
                data.changed@[k].seq,
                data.changed@[k].items@,
            ),
{
}

/// What a greeting opened is shown with its capabilities.
pub proof fn greeting_ok_is_what_was_opened(ok: ImapGreetingOk)
    ensures
        ok@.capability == ok.capability@,
        ok@.pre_authenticated == ok.pre_authenticated,
{
}

/// What a message is ranked by is shown field by field.
pub proof fn sort_keys_are_what_was_read(keys: SortKeys)
    ensures
        keys@.arrival == keys.arrival,
        keys@.size == keys.size,
        keys@.date == keys.date,
        keys@.uid == keys.uid,
        keys@.subject is Some <==> keys.subject is Some,
        keys.subject matches Some(subject) ==> keys@.subject->0 == subject@,
{
}

/// A step is shown as it is: what it asks for, its success with the value
/// shown, or its failure with the reason.
pub proof fn step_is_what_it_returns<T, V, E: View<V = FailureView>>(
    step: ImapCoroutineState<ImapYield, Result<T, E>>,
    view: spec_fn(T) -> V,
)
    ensures
        step matches ImapCoroutineState::Yielded(y) ==> step_view_by(step, view) is Yielded
            && step_view_by(step, view)->Yielded_0 == y@,
        step matches ImapCoroutineState::Complete(result) ==> step_view_by(step, view) is Complete
            && step_view_by(step, view)->Complete_0 == result_view_by(result, view),
        step matches ImapCoroutineState::Complete(Ok(value)) ==> step_view_by(
            step,
            view,
        )->Complete_0 is Ok && step_view_by(step, view)->Complete_0->Ok_0 == view(value),
        step matches ImapCoroutineState::Complete(Err(err)) ==> step_view_by(
            step,
            view,
        )->Complete_0 is Err && step_view_by(step, view)->Complete_0->Err_0 == err@,
{
}

/// A step whose value has a model of its own is shown with that.
pub proof fn step_shows_the_model<T: View, E: View<V = FailureView>>(
    step: ImapCoroutineState<ImapYield, Result<T, E>>,
)
    ensures
        step matches ImapCoroutineState::Yielded(y) ==> step_view(step) is Yielded && step_view(
            step,
        )->Yielded_0 == y@,
        step matches ImapCoroutineState::Complete(result) ==> step_view(step) is Complete
            && step_view(step)->Complete_0 == result_view(result),
        step matches ImapCoroutineState::Complete(Ok(value)) ==> step_view(step)->Complete_0 is Ok
            && step_view(step)->Complete_0->Ok_0 == value@,
        step matches ImapCoroutineState::Complete(Err(err)) ==> step_view(step)->Complete_0 is Err
            && step_view(step)->Complete_0->Err_0 == err@,
{
}

/// Whether a step is shown as it is: what it asks for, its success with
/// the value, or its failure with the reason.
pub open spec fn shows<Y: View, T, E: View<V = FailureView>>(
    step: ImapCoroutineState<Y, Result<T, E>>,
    shown: ImapCoroutineState<Y::V, Result<T, FailureView>>,
) -> bool {
    match step {
        ImapCoroutineState::Yielded(y) => shown is Yielded && shown->Yielded_0 == y@,
        ImapCoroutineState::Complete(Ok(value)) => {
            &&& shown is Complete
            &&& shown->Complete_0 is Ok
            &&& shown->Complete_0->Ok_0 == value
        },
        ImapCoroutineState::Complete(Err(err)) => {
            &&& shown is Complete
            &&& shown->Complete_0 is Err
            &&& shown->Complete_0->Err_0 == err@
        },
    }
}

/// An IDLE is shown step by step.
pub proof fn idle_step_is_what_it_returns(
    step: ImapCoroutineState<ImapIdleYield, Result<(), ImapIdleError>>,
)
    ensures
        shows(step, idle_result_view(step)),
{
}

/// An APPEND is shown step by step.
pub proof fn append_step_is_what_it_returns(
    step: ImapCoroutineState<
        ImapMessageAppendYield,
        Result<ImapMessageAppendOutput, ImapMessageAppendError>,
    >,
)
    ensures
        shows(step, append_step_view(step)),
{
}

/// A streamed APPEND is shown step by step.
pub proof fn append_stream_step_is_what_it_returns(
    step: ImapCoroutineState<
        ImapMessageAppendStreamYield,
        Result<ImapMessageAppendOutput, ImapMessageAppendStreamError>,
    >,
)
    ensures
        shows(step, append_result_view(step)),
{
}

/// A streamed FETCH is shown step by step.
pub proof fn fetch_stream_step_is_what_it_returns(
    step: ImapCoroutineState<ImapMessageFetchStreamYield, Result<(), ImapMessageFetchStreamError>>,
)
    ensures
        shows(step, fetch_stream_result_view(step)),
{
}

/// A streamed FETCH of several messages is shown step by step.
pub proof fn batch_step_is_what_it_returns(
    step: ImapCoroutineState<
        ImapMessageFetchStreamBatchYield,
        Result<(), ImapMessageFetchStreamBatchError>,
    >,
)
    ensures
        shows(step, batch_result_view(step)),
{
}

/// An exchange is shown as it is: what a step asks for, the answer of the
/// server, or the failure.
pub proof fn send_step_is_what_it_returns(
    step: ImapCoroutineState<ImapYield, Result<ImapSendOutput, ImapSendError>>,
)
    ensures
        step matches ImapCoroutineState::Yielded(y) ==> send_result_view(step) is Yielded
            && send_result_view(step)->Yielded_0 == y@,
        step matches ImapCoroutineState::Complete(Ok(output)) ==> send_result_view(step) is Complete
            && send_result_view(step)->Complete_0 is Ok && send_result_view(step)->Complete_0->Ok_0
            == output@,
        step matches ImapCoroutineState::Complete(Err(err)) ==> send_result_view(step) is Complete
            && send_result_view(step)->Complete_0 is Err
            && send_result_view(step)->Complete_0->Err_0 == err@,
{
}

/// A list of capabilities, where there is one, is shown whole.
pub proof fn lists_are_shown_whole(
    advertised: Option<Vec<Capability<'static>>>,
    enabled: Option<Vec<CapabilityEnable<'static>>>,
)
    ensures
        capabilities_view(advertised) is Some <==> advertised is Some,
        advertised matches Some(list) ==> capabilities_view(advertised)->0 == list@,
        enabled_view(enabled) is Some <==> enabled is Some,
        enabled matches Some(list) ==> enabled_view(enabled)->0 == list@,
{
}

/// Where messages went is shown with the UID validity, the UIDs they had
/// and the UIDs they got.
pub proof fn copy_uid_is_what_was_told(copy_uid: ImapCopyUid)
    ensures
        copy_uid_view(copy_uid) is Some <==> copy_uid is Some,
        copy_uid matches Some((uid_validity, source, destination)) ==> copy_uid_view(copy_uid)
            == Some((uid_validity, source@, destination@)),
{
}

/// A message that is too long, or poisoned, is never read. Any other is
/// read as what the codec makes of it, or cannot be read where that is
/// nothing.
pub proof fn message_is_what_the_codec_reads(framing: Framing)
    ensures
        framing.too_long ==> framing.decode() is Err && framing.decode()->Err_0
            == DecodeError::TooLong,
        framing.too_long ==> framing.greet() is Err && framing.greet()->Err_0
            == DecodeError::TooLong,
        !framing.too_long && framing.poisoned ==> framing.decode() is Err
            && framing.decode()->Err_0 == DecodeError::Poisoned,
        !framing.too_long && framing.poisoned ==> framing.greet() is Err && framing.greet()->Err_0
            == DecodeError::Poisoned,
        !framing.too_long && !framing.poisoned ==> {
            &&& decoded_response(framing.message) is Some ==> framing.decode() is Ok
                && framing.decode()->Ok_0 == decoded_response(framing.message)->0
            &&& decoded_response(framing.message) is None ==> framing.decode() is Err
                && framing.decode()->Err_0 == DecodeError::Undecodable
            &&& decoded_greeting(framing.message) is Some ==> framing.greet() is Ok
                && framing.greet()->Ok_0 == decoded_greeting(framing.message)->0
            &&& decoded_greeting(framing.message) is None ==> framing.greet() is Err
                && framing.greet()->Err_0 == DecodeError::Undecodable
        },
{
}

/// A coroutine is resumed with the bytes that it is given.
pub proof fn argument_is_what_is_given(bytes: &[u8])
    ensures
        arg_view(Some(bytes)) == Some(bytes@),
        arg_view(None) is None,
{
}

/// A part of a command is shown with its bytes.
pub proof fn command_fragment_is_what_it_holds(fragment: CommandFragment)
    ensures
        fragment matches CommandFragment::Line(data) ==> fragment@ == FragmentView::Line(data@),
        fragment matches CommandFragment::Literal { data, sync } ==> fragment@
            == (FragmentView::Literal { data: data@, sync }),
{
}

/// A response code is shown with what it holds.
pub proof fn server_code_is_what_it_holds(code: ServerCode)
    ensures
        code matches ServerCode::Capability(capabilities) ==> code@
            == CodeView::Capability(capabilities@),
        code matches ServerCode::PermanentFlags(flags) ==> code@
            == CodeView::PermanentFlags(flags@),
        code matches ServerCode::UidNext(uid) ==> code@ == CodeView::UidNext(uid),
        code matches ServerCode::UidValidity(uid_validity) ==> code@
            == CodeView::UidValidity(uid_validity),
        code matches ServerCode::Unseen(seq) ==> code@ == CodeView::Unseen(seq),
        code matches ServerCode::AppendUid { uid_validity, uid } ==> code@
            == (CodeView::AppendUid { uid_validity, uid }),
        code matches ServerCode::CopyUid { uid_validity, source, destination } ==> code@
            == (CodeView::CopyUid { uid_validity, source, destination }),
        code matches ServerCode::HighestModSeq(mod_seq) ==> code@
            == CodeView::HighestModSeq(mod_seq),
        code matches ServerCode::Other(held) ==> code@ == CodeView::Other(held),
{
}

/// Data are shown with what they hold.
pub proof fn server_data_is_what_it_holds(data: ServerData)
    ensures
        data matches ServerData::Capability(capabilities) ==> data@
            == DataView::Capability(capabilities@),
        data matches ServerData::List { mailbox, delimiter, items } ==> data@
            == (DataView::List { mailbox, delimiter, items: items@ }),
        data matches ServerData::Lsub { mailbox, delimiter, items } ==> data@
            == (DataView::Lsub { mailbox, delimiter, items: items@ }),
        data matches ServerData::Status { mailbox, items } ==> data@
            == (DataView::Status { mailbox, items: items@ }),
        data matches ServerData::Search(ids) ==> data@ == DataView::Search(ids@),
        data matches ServerData::Sort(ids) ==> data@ == DataView::Sort(ids@),
        data matches ServerData::Thread(threads) ==> data@ == DataView::Thread(threads@),
        data matches ServerData::Flags(flags) ==> data@ == DataView::Flags(flags@),
        data matches ServerData::Exists(count) ==> data@ == DataView::Exists(count),
        data matches ServerData::Recent(count) ==> data@ == DataView::Recent(count),
        data matches ServerData::Expunge(seq) ==> data@ == DataView::Expunge(seq),
        data matches ServerData::Fetch { seq, items } ==> data@
            == (DataView::Fetch { seq, items: items@ }),
        data matches ServerData::Enabled(capabilities) ==> data@
            == DataView::Enabled(capabilities@),
        data matches ServerData::Id(parameters) ==> data@
            == DataView::Id(parameters_view(parameters)),
        data matches ServerData::Vanished { earlier, known_uids } ==> data@
            == (DataView::Vanished { earlier, known_uids }),
        data matches ServerData::Other(held) ==> data@ == DataView::Other(held),
{
}

/// A response is shown with what it holds.
pub proof fn server_response_is_what_it_holds(response: ServerResponse)
    ensures
        response matches ServerResponse::Tagged(status) ==> response@
            == ResponseView::Tagged(status@),
        response matches ServerResponse::Untagged(status) ==> response@
            == ResponseView::Untagged(status@),
        response matches ServerResponse::Bye(text) ==> response@ == ResponseView::Bye(text@),
        response is Continuation ==> response@ == ResponseView::Continuation,
        response matches ServerResponse::Data(data) ==> response@ == ResponseView::Data(data@),
{
}

/// What reading lines leads to is shown with what it holds.
pub proof fn line_event_is_what_it_holds(event: LineEvent)
    ensures
        event is Starved ==> event@ == LineEventView::Starved,
        event matches LineEvent::Announced { line, length } ==> event@
            == (LineEventView::Announced { line: line@, length }),
        event matches LineEvent::Ended(result) ==> event@
            == LineEventView::Ended(ending_view(result)),
{
}

/// What an item tells is shown with what it holds.
pub proof fn item_fact_is_what_it_holds(fact: ItemFact)
    ensures
        fact matches ItemFact::InternalDate(instant) ==> fact@ == FactView::InternalDate(instant),
        fact matches ItemFact::Rfc822Size(size) ==> fact@ == FactView::Rfc822Size(size),
        fact matches ItemFact::Envelope { date, subject } ==> fact@
            == (FactView::Envelope { date: bytes_view(date), subject: bytes_view(subject) }),
        fact matches ItemFact::Uid(uid) ==> fact@ == FactView::Uid(uid),
        fact is Other ==> fact@ == FactView::Other,
{
}

/// How a command ended is shown as a success, or with the reason.
pub proof fn ending_is_what_was_said(result: Result<(), Refusal>)
    ensures
        result is Ok <==> ending_view(result) is Ok,
        result matches Err(refusal) ==> ending_view(result)->Err_0 == refusal@,
{
}

/// A greeting is shown with its kind, its capabilities and its text.
pub proof fn greeting_is_what_was_said(greeting: Greeting)
    ensures
        greeting@.kind == greeting.kind,
        greeting@.capability == greeting.capability@,
        greeting@.text == greeting.text@,
{
}

/// What an exchange asks for, taken over by a coroutine around it, is
/// still that.
pub proof fn yield_is_taken_over(y: ImapYield)
    ensures
        <ImapIdleYield as FromSpec<ImapYield>>::obeys_from_spec(),
        <ImapMessageAppendYield as FromSpec<ImapYield>>::obeys_from_spec(),
        <ImapMessageAppendStreamYield as FromSpec<ImapYield>>::obeys_from_spec(),
        y is WantsRead ==> {
            &&& <ImapIdleYield as FromSpec<ImapYield>>::from_spec(y) is WantsRead
            &&& <ImapMessageAppendYield as FromSpec<ImapYield>>::from_spec(y) is WantsRead
            &&& <ImapMessageAppendStreamYield as FromSpec<ImapYield>>::from_spec(y) is WantsRead
        },
        y matches ImapYield::WantsWrite(bytes) ==> {
            &&& <ImapIdleYield as FromSpec<ImapYield>>::from_spec(y) == ImapIdleYield::WantsWrite(
                bytes,
            )
            &&& <ImapMessageAppendYield as FromSpec<ImapYield>>::from_spec(y)
                == ImapMessageAppendYield::WantsWrite(bytes)
            &&& <ImapMessageAppendStreamYield as FromSpec<ImapYield>>::from_spec(y)
                == ImapMessageAppendStreamYield::WantsWrite(bytes)
        },
{
}

} // verus!
