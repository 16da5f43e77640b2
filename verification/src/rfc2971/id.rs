//! IMAP ID coroutine exchanging client and server identification.

use imap_codec::fragmentizer::Fragmentizer;
use vstd::prelude::*;

use crate::command::{encode_id, fresh_tag, CommandView};
use crate::coroutine::{arg_view, ImapCoroutine, ImapCoroutineState, ImapYield};
use crate::framing::framing;
use crate::outcome::{
    is_step, judge, last_of, result_view_by, step_view_by, verdict, FailureView, Refusal,
};
use crate::response::{parameters_view, DataView, Parameters, ParametersView, ServerData};
use crate::send::{
    data_views, starts, ImapSend, ImapSendError, ImapSendOutput, OutputView, SendState,
};

verus! {

/// Failure causes during the IMAP ID flow.
#[derive(Clone, Debug)]
pub enum ImapServerIdError {
    /// The server rejected the command with a NO response.
    No(String),
    /// The server rejected the command with a BAD response.
    Bad(String),
    /// The server closed the connection with a BYE response.
    Bye(String),
    /// The server never answered with a tagged response.
    MissingTagged,
    /// The underlying exchange failed.
    Send(ImapSendError),
}

impl View for ImapServerIdError {
    type V = FailureView;

    open spec fn view(&self) -> FailureView {
        match *self {
            ImapServerIdError::No(text) => FailureView::No(text@),
            ImapServerIdError::Bad(text) => FailureView::Bad(text@),
            ImapServerIdError::Bye(text) => FailureView::Bye(text@),
            ImapServerIdError::MissingTagged => FailureView::MissingTagged,
            ImapServerIdError::Send(err) => FailureView::Send(err@),
        }
    }
}

impl ImapServerIdError {
    fn refused(refusal: Refusal) -> (err: Self)
        ensures
            err@ == refusal@,
    {
        match refusal {
            Refusal::No(text) => ImapServerIdError::No(text),
            Refusal::Bad(text) => ImapServerIdError::Bad(text),
            Refusal::Bye(text) => ImapServerIdError::Bye(text),
            Refusal::MissingTagged => ImapServerIdError::MissingTagged,
        }
    }
}

/// Options for [`ImapServerId::new`].
#[derive(Debug)]
pub struct ImapServerIdOptions {
    /// Parameter list sent on the wire. When `None`, the coroutine sends
    /// `ID NIL` (RFC 2971 §3.1, anonymous identification). When
    /// `Some(_)`, the coroutine sends `ID (key val ...)` with the
    /// caller-supplied pairs.
    pub parameters: Option<Parameters>,
}

impl Default for ImapServerIdOptions {
    fn default() -> (opts: Self)
        ensures
            opts.parameters is None,
    {
        ImapServerIdOptions { parameters: None }
    }
}

/// The parameters of the last ID response.
pub open spec fn server_id(data: Seq<DataView>) -> Option<ParametersView> {
    match last_of(
        data,
        |item: DataView|
            match item {
                DataView::Id(found) => Some(found),
                _ => None,
            },
    ) {
        Some(parameters) => parameters,
        None => None,
    }
}

/// What the answer to ID amounts to.
pub open spec fn id_outcome(output: OutputView) -> Result<Option<ParametersView>, FailureView> {
    match verdict(output) {
        Ok(_) => Ok(server_id(output.data)),
        Err(err) => Err(err),
    }
}

/// I/O-free IMAP ID coroutine.
pub struct ImapServerId {
    send: ImapSend,
}

impl View for ImapServerId {
    type V = SendState;

    closed spec fn view(&self) -> SendState {
        self.send@
    }
}

impl ImapServerId {
    /// Creates a coroutine that exchanges identifications, under a fresh
    /// tag.
    pub fn new(opts: ImapServerIdOptions) -> (id: Self)
        ensures
            starts(id@, CommandView::Id { parameters: parameters_view(opts.parameters) }),
    {
        ImapServerId { send: ImapSend::new(encode_id(fresh_tag(), opts.parameters)) }
    }

    /// What the answer to ID amounts to.
    pub fn finish(output: ImapSendOutput) -> (result: Result<Option<Parameters>, ImapServerIdError>)
        ensures
            result_view_by(result, |parameters: Option<Parameters>| parameters_view(parameters))
                == id_outcome(output@),
    {
        match judge(output.bye, output.tagged) {
            Ok(_) => {},
            Err(refusal) => {
                return Err(ImapServerIdError::refused(refusal));
            },
        }
        let ghost views = data_views(output.data@);
        let mut parameters: Option<Parameters> = None;
        for data in it: output.data
            invariant
                it.seq() == output.data@,
                views == data_views(output.data@),
                parameters_view(parameters) == server_id(views.take(it.index())),
        {
            proof {
                let seen = views.take(it.index() + 1);
                assert(seen.drop_last() =~= views.take(it.index()));
                assert(seen.last() == data@);
            }
            if let ServerData::Id(found) = data {
                parameters = found;
            }
        }
        assert(views.take(views.len() as int) =~= views);
        Ok(parameters)
    }
}

impl ImapCoroutine for ImapServerId {
    type Yield = ImapYield;

    type Return = Result<Option<Parameters>, ImapServerIdError>;

    fn resume(&mut self, fragmentizer: &mut Fragmentizer, arg: Option<&[u8]>) -> (step:
        ImapCoroutineState<ImapYield, Result<Option<Parameters>, ImapServerIdError>>)
        ensures
            is_step(
                (old(self)@, framing(*old(fragmentizer))),
                arg_view(arg),
                (final(self)@, framing(*final(fragmentizer))),
                step_view_by(
                    step,
                    |parameters: Option<Parameters>| parameters_view(parameters),
                ),
                |output: OutputView| id_outcome(output),
            ),
    {
        match self.send.resume(fragmentizer, arg) {
            ImapCoroutineState::Yielded(y) => ImapCoroutineState::Yielded(y),
            ImapCoroutineState::Complete(Ok(output)) => ImapCoroutineState::Complete(
                Self::finish(output),
            ),
            ImapCoroutineState::Complete(Err(err)) => ImapCoroutineState::Complete(
                Err(ImapServerIdError::Send(err)),
            ),
        }
    }
}

} // verus!
