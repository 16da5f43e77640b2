//! Server responses as the coroutines see them.
//!
//! The types of this module hold as plain values what the coroutines
//! read in a response. Everything else stays in the imap-types value it
//! came in. Decoding itself is imap-codec's work.

use imap_codec::fragmentizer::{DecodeMessageError, Fragmentizer};
use imap_codec::imap_types;
use imap_codec::imap_types::error::ValidationError;
use imap_codec::imap_types::extensions::enable::CapabilityEnable;
use imap_codec::imap_types::extensions::thread::Thread;
use imap_codec::imap_types::extensions::uidplus::UidSet;
use imap_codec::imap_types::fetch::MessageDataItem;
use imap_codec::imap_types::flag::{Flag, FlagNameAttribute, FlagPerm};
use imap_codec::imap_types::mailbox::Mailbox;
use imap_codec::imap_types::response as wire;
use imap_codec::imap_types::response::{Capability, Code, Data};
use imap_codec::imap_types::secret::Secret;
use imap_codec::imap_types::sequence::SequenceSet;
use imap_codec::imap_types::status::StatusDataItem;
use imap_codec::imap_types::IntoStatic;
use imap_codec::ResponseCodec;
use vstd::prelude::*;

use crate::framing::{framing, Framing};

verus! {

/// Declares imap-types' `ValidationError`.
#[verifier::external_type_specification]
#[verifier::external_body]
pub struct ExValidationError(ValidationError);

/// Declares imap-types' `Capability`.
#[verifier::external_type_specification]
#[verifier::external_body]
pub struct ExCapability<'a>(Capability<'a>);

/// Declares imap-types' `CapabilityEnable`.
#[verifier::external_type_specification]
#[verifier::external_body]
pub struct ExCapabilityEnable<'a>(CapabilityEnable<'a>);

/// Declares imap-types' `Thread`.
#[verifier::external_type_specification]
#[verifier::external_body]
pub struct ExThread(Thread);

/// Declares imap-types' `MessageDataItem`.
#[verifier::external_type_specification]
#[verifier::external_body]
pub struct ExMessageDataItem<'a>(MessageDataItem<'a>);

/// Declares imap-types' `Flag`.
#[verifier::external_type_specification]
#[verifier::external_body]
pub struct ExFlag<'a>(Flag<'a>);

/// Declares imap-types' `FlagPerm`.
#[verifier::external_type_specification]
#[verifier::external_body]
pub struct ExFlagPerm<'a>(FlagPerm<'a>);

/// Declares imap-types' `FlagNameAttribute`.
#[verifier::external_type_specification]
#[verifier::external_body]
pub struct ExFlagNameAttribute<'a>(FlagNameAttribute<'a>);

/// Declares imap-types' `Mailbox`.
#[verifier::external_type_specification]
#[verifier::external_body]
pub struct ExMailbox<'a>(Mailbox<'a>);

/// Declares imap-types' `SequenceSet`.
#[verifier::external_type_specification]
#[verifier::external_body]
pub struct ExSequenceSet(SequenceSet);

/// Declares imap-types' `StatusDataItem`.
#[verifier::external_type_specification]
#[verifier::external_body]
pub struct ExStatusDataItem(StatusDataItem);

/// Declares imap-types' `QuotedChar`.
#[verifier::external_type_specification]
#[verifier::external_body]
pub struct ExQuotedChar(imap_types::core::QuotedChar);

/// Declares imap-types' `IString`.
#[verifier::external_type_specification]
#[verifier::external_body]
pub struct ExIString<'a>(imap_types::core::IString<'a>);

/// Declares imap-types' `NString`.
#[verifier::external_type_specification]
#[verifier::external_body]
pub struct ExNString<'a>(imap_types::core::NString<'a>);

/// Declares imap-types' `UidSet`.
#[verifier::external_type_specification]
#[verifier::external_body]
pub struct ExUidSet(UidSet);

/// Declares imap-types' `Secret`.
#[verifier::external_type_specification]
#[verifier::external_body]
#[verifier::reject_recursive_types(T)]
pub struct ExSecret<T>(Secret<T>);

/// Declares imap-types' `Response`.
#[verifier::external_type_specification]
#[verifier::external_body]
pub struct ExResponse<'a>(wire::Response<'a>);

/// Declares imap-types' `Data`, for the data no coroutine reads.
#[verifier::external_type_specification]
#[verifier::external_body]
pub struct ExData<'a>(imap_types::response::Data<'a>);

/// Declares imap-types' `Code`, for the codes no coroutine reads.
#[verifier::external_type_specification]
#[verifier::external_body]
pub struct ExCode<'a>(imap_types::response::Code<'a>);

/// Condition reported by a status response.
#[derive(Clone, Copy, Debug, PartialEq, Eq, Structural)]
pub enum StatusKind {
    Success,
    No,
    Bad,
}

/// Response code of a status response.
#[derive(Debug)]
pub enum ServerCode {
    Capability(Vec<Capability<'static>>),
    PermanentFlags(Vec<FlagPerm<'static>>),
    UidNext(u32),
    UidValidity(u32),
    Unseen(u32),
    AppendUid { uid_validity: u32, uid: u32 },
    CopyUid { uid_validity: u32, source: UidSet, destination: UidSet },
    HighestModSeq(u64),
    Other(Code<'static>),
}

/// A status response, tagged or not.
#[derive(Debug)]
pub struct StatusBody {
    pub kind: StatusKind,
    pub code: Option<ServerCode>,
    pub text: String,
}

/// Identification parameters: names and values.
pub type Parameters = Vec<(imap_types::core::IString<'static>, imap_types::core::NString<'static>)>;

/// Untagged data.
#[derive(Debug)]
pub enum ServerData {
    Capability(Vec<Capability<'static>>),
    List {
        mailbox: Mailbox<'static>,
        delimiter: Option<imap_types::core::QuotedChar>,
        items: Vec<FlagNameAttribute<'static>>,
    },
    Lsub {
        mailbox: Mailbox<'static>,
        delimiter: Option<imap_types::core::QuotedChar>,
        items: Vec<FlagNameAttribute<'static>>,
    },
    Status { mailbox: Mailbox<'static>, items: Vec<StatusDataItem> },
    Search(Vec<u32>),
    Sort(Vec<u32>),
    Thread(Vec<Thread>),
    Flags(Vec<Flag<'static>>),
    Exists(u32),
    Recent(u32),
    Expunge(u32),
    Fetch { seq: u32, items: Vec<MessageDataItem<'static>> },
    Enabled(Vec<CapabilityEnable<'static>>),
    Id(Option<Parameters>),
    Vanished { earlier: bool, known_uids: SequenceSet },
    Other(Data<'static>),
}

/// A server response.
#[derive(Debug)]
pub enum ServerResponse {
    /// Completion of a command.
    Tagged(StatusBody),
    /// Status outside of any completion.
    Untagged(StatusBody),
    /// The server closes the connection.
    Bye(String),
    /// The server asks for the rest of a command.
    Continuation,
    /// Untagged data.
    Data(ServerData),
}

/// Model of [`ServerCode`].
pub enum CodeView {
    Capability(Seq<Capability<'static>>),
    PermanentFlags(Seq<FlagPerm<'static>>),
    UidNext(u32),
    UidValidity(u32),
    Unseen(u32),
    AppendUid { uid_validity: u32, uid: u32 },
    CopyUid { uid_validity: u32, source: UidSet, destination: UidSet },
    HighestModSeq(u64),
    Other(Code<'static>),
}

impl View for ServerCode {
    type V = CodeView;

    open spec fn view(&self) -> CodeView {
        match *self {
            ServerCode::Capability(capabilities) => CodeView::Capability(capabilities@),
            ServerCode::PermanentFlags(flags) => CodeView::PermanentFlags(flags@),
            ServerCode::UidNext(uid) => CodeView::UidNext(uid),
            ServerCode::UidValidity(uid_validity) => CodeView::UidValidity(uid_validity),
            ServerCode::Unseen(seq) => CodeView::Unseen(seq),
            ServerCode::AppendUid { uid_validity, uid } => CodeView::AppendUid {
                uid_validity,
                uid,
            },
            ServerCode::CopyUid { uid_validity, source, destination } => CodeView::CopyUid {
                uid_validity,
                source,
                destination,
            },
            ServerCode::HighestModSeq(mod_seq) => CodeView::HighestModSeq(mod_seq),
            ServerCode::Other(code) => CodeView::Other(code),
        }
    }
}

/// Model of [`StatusBody`].
pub struct StatusView {
    pub kind: StatusKind,
    pub code: Option<CodeView>,
    pub text: Seq<char>,
}

pub open spec fn code_view(code: Option<ServerCode>) -> Option<CodeView> {
    match code {
        Some(code) => Some(code@),
        None => None,
    }
}

impl View for StatusBody {
    type V = StatusView;

    open spec fn view(&self) -> StatusView {
        StatusView { kind: self.kind, code: code_view(self.code), text: self.text@ }
    }
}

/// Model of [`Parameters`].
pub type ParametersView = Seq<
    (imap_types::core::IString<'static>, imap_types::core::NString<'static>),
>;

/// Model of [`ServerData`].
pub enum DataView {
    Capability(Seq<Capability<'static>>),
    List {
        mailbox: Mailbox<'static>,
        delimiter: Option<imap_types::core::QuotedChar>,
        items: Seq<FlagNameAttribute<'static>>,
    },
    Lsub {
        mailbox: Mailbox<'static>,
        delimiter: Option<imap_types::core::QuotedChar>,
        items: Seq<FlagNameAttribute<'static>>,
    },
    Status { mailbox: Mailbox<'static>, items: Seq<StatusDataItem> },
    Search(Seq<u32>),
    Sort(Seq<u32>),
    Thread(Seq<Thread>),
    Flags(Seq<Flag<'static>>),
    Exists(u32),
    Recent(u32),
    Expunge(u32),
    Fetch { seq: u32, items: Seq<MessageDataItem<'static>> },
    Enabled(Seq<CapabilityEnable<'static>>),
    Id(Option<ParametersView>),
    Vanished { earlier: bool, known_uids: SequenceSet },
    Other(Data<'static>),
}

pub open spec fn parameters_view(parameters: Option<Parameters>) -> Option<ParametersView> {
    match parameters {
        Some(parameters) => Some(parameters@),
        None => None,
    }
}

impl View for ServerData {
    type V = DataView;

    open spec fn view(&self) -> DataView {
        match *self {
            ServerData::Capability(capabilities) => DataView::Capability(capabilities@),
            ServerData::List { mailbox, delimiter, items } => DataView::List {
                mailbox,
                delimiter,
                items: items@,
            },
            ServerData::Lsub { mailbox, delimiter, items } => DataView::Lsub {
                mailbox,
                delimiter,
                items: items@,
            },
            ServerData::Status { mailbox, items } => DataView::Status { mailbox, items: items@ },
            ServerData::Search(ids) => DataView::Search(ids@),
            ServerData::Sort(ids) => DataView::Sort(ids@),
            ServerData::Thread(threads) => DataView::Thread(threads@),
            ServerData::Flags(flags) => DataView::Flags(flags@),
            ServerData::Exists(count) => DataView::Exists(count),
            ServerData::Recent(count) => DataView::Recent(count),
            ServerData::Expunge(seq) => DataView::Expunge(seq),
            ServerData::Fetch { seq, items } => DataView::Fetch { seq, items: items@ },
            ServerData::Enabled(capabilities) => DataView::Enabled(capabilities@),
            ServerData::Id(parameters) => DataView::Id(parameters_view(parameters)),
            ServerData::Vanished { earlier, known_uids } => DataView::Vanished {
                earlier,
                known_uids,
            },
            ServerData::Other(data) => DataView::Other(data),
        }
    }
}

/// Model of [`ServerResponse`].
pub enum ResponseView {
    Tagged(StatusView),
    Untagged(StatusView),
    Bye(Seq<char>),
    Continuation,
    Data(DataView),
}

impl View for ServerResponse {
    type V = ResponseView;

    open spec fn view(&self) -> ResponseView {
        match *self {
            ServerResponse::Tagged(status) => ResponseView::Tagged(status@),
            ServerResponse::Untagged(status) => ResponseView::Untagged(status@),
            ServerResponse::Bye(text) => ResponseView::Bye(text@),
            ServerResponse::Continuation => ResponseView::Continuation,
            ServerResponse::Data(data) => ResponseView::Data(data@),
        }
    }
}

/// Why a message could not be decoded.
#[derive(Clone, Copy, Debug, PartialEq, Eq, Structural)]
pub enum DecodeError {
    /// The message is not a response, or only begins with one.
    Undecodable,
    /// The message exceeds the size limit.
    TooLong,
    /// The message was poisoned.
    Poisoned,
}

/// The response that the bytes of a message stand for, as imap-codec's
/// `ResponseCodec` decodes them with nothing left over.
pub uninterp spec fn decoded_response(message: Seq<u8>) -> Option<ResponseView>;

impl Framing {
    /// What decoding the current message gives, when the codec makes
    /// `decoded` of its bytes.
    pub open spec fn judge(self, decoded: Option<ResponseView>) -> Result<
        ResponseView,
        DecodeError,
    > {
        if self.too_long {
            Err(DecodeError::TooLong)
        } else if self.poisoned {
            Err(DecodeError::Poisoned)
        } else {
            match decoded {
                Some(response) => Ok(response),
                None => Err(DecodeError::Undecodable),
            }
        }
    }

    /// What decoding the current message gives.
    pub open spec fn decode(self) -> Result<ResponseView, DecodeError> {
        self.judge(decoded_response(self.message))
    }
}

/// Outline of a response.
#[derive(Clone, Copy, PartialEq, Eq, Structural)]
pub(crate) enum Outline {
    Tagged,
    Untagged,
    Bye,
    Continuation,
    Data,
}

pub(crate) open spec fn outline(response: ResponseView) -> Outline {
    match response {
        ResponseView::Tagged(_) => Outline::Tagged,
        ResponseView::Untagged(_) => Outline::Untagged,
        ResponseView::Bye(_) => Outline::Bye,
        ResponseView::Continuation => Outline::Continuation,
        ResponseView::Data(_) => Outline::Data,
    }
}

/// What a decoded response holds.
pub uninterp spec fn modelled(response: wire::Response<'static>) -> ResponseView;

/// `Fragmentizer::decode_message` with `ResponseCodec`: the response that
/// the current message is, or why it cannot be decoded.
#[verifier::external_body]
fn decode_message(fragmentizer: &Fragmentizer) -> (outcome: Result<
    wire::Response<'static>,
    DecodeError,
>)
    ensures
        framing(*fragmentizer).judge(decoded_response(framing(*fragmentizer).message))
            == match outcome {
            Ok(response) => Ok(modelled(response)),
            Err(err) => Err(err),
        },
{
    match fragmentizer.decode_message(&ResponseCodec::new()) {
        Ok(response) => Ok(response.into_static()),
        Err(DecodeMessageError::MessageTooLong { .. }) => Err(DecodeError::TooLong),
        Err(DecodeMessageError::MessagePoisoned { .. }) => Err(DecodeError::Poisoned),
        Err(DecodeMessageError::DecodingFailure(_)) => Err(DecodeError::Undecodable),
        Err(DecodeMessageError::DecodingRemainder { .. }) => Err(DecodeError::Undecodable),
    }
}

/// Matches on imap-types' `Response`: which kind of response it is.
#[verifier::external_body]
fn read_outline(response: &wire::Response<'static>) -> (kind: Outline)
    ensures
        kind == outline(modelled(*response)),
{
    match response {
        wire::Response::Status(wire::Status::Tagged(_)) => Outline::Tagged,
        wire::Response::Status(wire::Status::Untagged(_)) => Outline::Untagged,
        wire::Response::Status(wire::Status::Bye(_)) => Outline::Bye,
        wire::Response::CommandContinuationRequest(_) => Outline::Continuation,
        wire::Response::Data(_) => Outline::Data,
    }
}

/// Matches on imap-types' `Response`: the condition of a status response.
#[verifier::external_body]
fn read_kind(response: &wire::Response<'static>) -> (kind: Option<StatusKind>)
    ensures
        kind == match modelled(*response) {
            ResponseView::Tagged(status) => Some(status.kind),
            ResponseView::Untagged(status) => Some(status.kind),
            _ => None,
        },
{
    let kind = match response {
        wire::Response::Status(wire::Status::Tagged(line)) => &line.body.kind,
        wire::Response::Status(wire::Status::Untagged(line)) => &line.kind,
        _ => return None,
    };
    Some(match kind {
        wire::StatusKind::Ok => StatusKind::Success,
        wire::StatusKind::No => StatusKind::No,
        wire::StatusKind::Bad => StatusKind::Bad,
    })
}

/// `Status::text`: the text of a status response.
#[verifier::external_body]
fn read_text(response: &wire::Response<'static>) -> (text: Option<String>)
    ensures
        match modelled(*response) {
            ResponseView::Tagged(status) => text is Some && text->0@ == status.text,
            ResponseView::Untagged(status) => text is Some && text->0@ == status.text,
            ResponseView::Bye(line) => text is Some && text->0@ == line,
            _ => text is None,
        },
{
    match response {
        wire::Response::Status(status) => Some(status.text().to_string()),
        _ => None,
    }
}

/// The code of a response that has one.
pub(crate) open spec fn code_of(response: ResponseView) -> Option<CodeView> {
    match response {
        ResponseView::Tagged(status) => status.code,
        ResponseView::Untagged(status) => status.code,
        _ => None,
    }
}

/// Codes that hold UIDs assigned by the server.
pub(crate) open spec fn is_uid_code(code: Option<CodeView>) -> bool {
    match code {
        Some(CodeView::AppendUid { .. }) => true,
        Some(CodeView::CopyUid { .. }) => true,
        _ => false,
    }
}

/// Matches on imap-types' `Response` and `Code`: the code of a status
/// response, when that code is neither APPENDUID nor COPYUID.
#[verifier::external_body]
fn read_code(response: &wire::Response<'static>) -> (code: Option<ServerCode>)
    ensures
        !is_uid_code(code_of(modelled(*response))) ==> code_view(code) == code_of(
            modelled(*response),
        ),
{
    let code = match response {
        wire::Response::Status(wire::Status::Tagged(line)) => line.body.code.clone()?,
        wire::Response::Status(wire::Status::Untagged(line)) => line.code.clone()?,
        _ => return None,
    };
    Some(match code {
        Code::Capability(capabilities) => ServerCode::Capability(capabilities.into_inner()),
        Code::PermanentFlags(flags) => ServerCode::PermanentFlags(flags),
        Code::UidNext(uid) => ServerCode::UidNext(uid.get()),
        Code::UidValidity(value) => ServerCode::UidValidity(value.get()),
        Code::Unseen(seq) => ServerCode::Unseen(seq.get()),
        Code::HighestModSeq(value) => ServerCode::HighestModSeq(value.get()),
        code => ServerCode::Other(code),
    })
}

/// Matches on imap-types' `Response` and `Code`: the APPENDUID or COPYUID
/// code of a status response.
#[verifier::external_body]
fn read_uid_code(response: &wire::Response<'static>) -> (code: Option<ServerCode>)
    ensures
        code_view(code) == if is_uid_code(code_of(modelled(*response))) {
            code_of(modelled(*response))
        } else {
            None
        },
{
    let code = match response {
        wire::Response::Status(wire::Status::Tagged(line)) => line.body.code.clone()?,
        wire::Response::Status(wire::Status::Untagged(line)) => line.code.clone()?,
        _ => return None,
    };
    match code {
        Code::AppendUid { uid_validity, uid } => {
            Some(ServerCode::AppendUid { uid_validity: uid_validity.get(), uid: uid.get() })
        },
        Code::CopyUid { uid_validity, source, destination } => {
            Some(ServerCode::CopyUid { uid_validity: uid_validity.get(), source, destination })
        },
        _ => None,
    }
}

/// Data that is a number or a list of numbers.
pub(crate) open spec fn is_numeric(data: DataView) -> bool {
    match data {
        DataView::Search(_) => true,
        DataView::Sort(_) => true,
        DataView::Exists(_) => true,
        DataView::Recent(_) => true,
        DataView::Expunge(_) => true,
        _ => false,
    }
}

/// Data about one mailbox name.
pub(crate) open spec fn is_mailbox_data(data: DataView) -> bool {
    match data {
        DataView::List { .. } => true,
        DataView::Lsub { .. } => true,
        DataView::Status { .. } => true,
        _ => false,
    }
}

/// Data about one message.
pub(crate) open spec fn is_fetch(data: DataView) -> bool {
    data is Fetch
}

/// Whether `response` is data of the wanted kind, and `result` that data;
/// or else the response itself.
pub(crate) open spec fn picks(
    response: wire::Response<'static>,
    view: ResponseView,
    wanted: spec_fn(DataView) -> bool,
    result: Result<ServerData, wire::Response<'static>>,
) -> bool {
    match result {
        Ok(data) => wanted(data@) && view == ResponseView::Data(data@),
        Err(back) => back == response && !(view is Data && wanted(view->Data_0)),
    }
}

/// Matches on imap-types' `Response`: the data about one message.
#[verifier::external_body]
fn read_fetch(response: wire::Response<'static>) -> (result: Result<
    ServerData,
    wire::Response<'static>,
>)
    ensures
        picks(response, modelled(response), |view: DataView| is_fetch(view), result),
{
    match response {
        wire::Response::Data(Data::Fetch { seq, items }) => {
            Ok(ServerData::Fetch { seq: seq.get(), items: items.into_inner() })
        },
        other => Err(other),
    }
}

/// Matches on imap-types' `Response`: the number, or the list of numbers,
/// that it is.
#[verifier::external_body]
fn read_numeric(response: wire::Response<'static>) -> (result: Result<
    ServerData,
    wire::Response<'static>,
>)
    ensures
        picks(response, modelled(response), |view: DataView| is_numeric(view), result),
{
    Ok(match response {
        wire::Response::Data(Data::Search(ids, _)) => {
            ServerData::Search(ids.into_iter().map(u32::from).collect())
        },
        wire::Response::Data(Data::Sort(ids, _)) => {
            ServerData::Sort(ids.into_iter().map(u32::from).collect())
        },
        wire::Response::Data(Data::Exists(count)) => ServerData::Exists(count),
        wire::Response::Data(Data::Recent(count)) => ServerData::Recent(count),
        wire::Response::Data(Data::Expunge(seq)) => ServerData::Expunge(seq.get()),
        other => return Err(other),
    })
}

/// Matches on imap-types' `Response`: the data about one mailbox name.
#[verifier::external_body]
fn read_mailbox_data(response: wire::Response<'static>) -> (result: Result<
    ServerData,
    wire::Response<'static>,
>)
    ensures
        picks(response, modelled(response), |view: DataView| is_mailbox_data(view), result),
{
    Ok(match response {
        wire::Response::Data(Data::List { items, delimiter, mailbox }) => {
            ServerData::List { mailbox, delimiter, items }
        },
        wire::Response::Data(Data::Lsub { items, delimiter, mailbox }) => {
            ServerData::Lsub { mailbox, delimiter, items }
        },
        wire::Response::Data(Data::Status { mailbox, items }) => {
            ServerData::Status { mailbox, items: items.into_owned() }
        },
        other => return Err(other),
    })
}

/// Matches on imap-types' `Response`: the data that is neither numeric nor
/// about one mailbox name or message.
#[verifier::external_body]
fn read_data(response: wire::Response<'static>) -> (data: Option<ServerData>)
    ensures
        match modelled(response) {
            ResponseView::Data(view) => is_fetch(view) || is_numeric(view) || is_mailbox_data(view)
                || (data is Some && data->0@ == view),
            _ => data is None,
        },
{
    let wire::Response::Data(data) = response else { return None };
    Some(match data {
        Data::Capability(capabilities) => ServerData::Capability(capabilities.into_inner()),
        Data::Thread(threads) => ServerData::Thread(threads),
        Data::Flags(flags) => ServerData::Flags(flags),
        Data::Enabled { capabilities } => ServerData::Enabled(capabilities),
        Data::Id { parameters } => ServerData::Id(parameters),
        Data::Vanished { earlier, known_uids } => ServerData::Vanished { earlier, known_uids },
        data => ServerData::Other(data),
    })
}

/// The untagged data that a response is.
fn data_in(response: wire::Response<'static>) -> (data: ServerData)
    requires
        modelled(response) is Data,
    ensures
        modelled(response) == ResponseView::Data(data@),
{
    let response = match read_fetch(response) {
        Ok(data) => {
            return data;
        },
        Err(response) => response,
    };
    let response = match read_numeric(response) {
        Ok(data) => {
            return data;
        },
        Err(response) => response,
    };
    let response = match read_mailbox_data(response) {
        Ok(data) => {
            return data;
        },
        Err(response) => response,
    };
    read_data(response).unwrap()
}

/// The status that a response is.
fn status_in(response: &wire::Response<'static>) -> (status: StatusBody)
    requires
        modelled(*response) is Tagged || modelled(*response) is Untagged,
    ensures
        match modelled(*response) {
            ResponseView::Tagged(view) => status@ == view,
            ResponseView::Untagged(view) => status@ == view,
            _ => false,
        },
{
    let code = match read_uid_code(response) {
        Some(code) => Some(code),
        None => read_code(response),
    };
    StatusBody {
        kind: read_kind(response).unwrap(),
        code,
        text: read_text(response).unwrap(),
    }
}

pub open spec fn response_view(
    outcome: Result<ServerResponse, DecodeError>,
) -> Result<ResponseView, DecodeError> {
    match outcome {
        Ok(response) => Ok(response@),
        Err(err) => Err(err),
    }
}

/// Decodes the current message of `fragmentizer` as a response.
pub fn decode_response(fragmentizer: &Fragmentizer) -> (outcome: Result<
    ServerResponse,
    DecodeError,
>)
    ensures
        response_view(outcome) == framing(*fragmentizer).decode(),
{
    let response = match decode_message(fragmentizer) {
        Ok(response) => response,
        Err(err) => {
            return Err(err);
        },
    };
    Ok(
        match read_outline(&response) {
            Outline::Tagged => ServerResponse::Tagged(status_in(&response)),
            Outline::Untagged => ServerResponse::Untagged(status_in(&response)),
            Outline::Bye => ServerResponse::Bye(read_text(&response).unwrap()),
            Outline::Continuation => ServerResponse::Continuation,
            Outline::Data => ServerResponse::Data(data_in(response)),
        },
    )
}

} // verus!
