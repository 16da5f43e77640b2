//! IMAP CAPABILITY coroutine returning the advertised capabilities.

use imap_codec::fragmentizer::Fragmentizer;
use imap_codec::imap_types::response::Capability;
use vstd::prelude::*;

use crate::command::{encode_bare, fresh_tag, BareCommand};
use crate::coroutine::{arg_view, ImapCoroutine, ImapCoroutineState, ImapYield};
use crate::framing::framing;
use crate::outcome::{
    is_step, judge, last_of, result_view, step_view, verdict, FailureView, Refusal,
};
use crate::response::{CodeView, DataView, ServerCode, ServerData, StatusView};
use crate::send::{
    data_views, starts_bare, status_views, ImapSend, ImapSendError, ImapSendOutput, OutputView,
    SendState,
};

verus! {

/// Failure causes during the IMAP CAPABILITY flow.
#[derive(Clone, Debug)]
pub enum ImapCapabilityGetError {
    /// The server rejected the command with a NO response.
    No(String),
    /// The server rejected the command with a BAD response.
    Bad(String),
    /// The server closed the connection with a BYE response.
    Bye(String),
    /// The server never answered with a tagged response.
    MissingTagged,
    /// The server did not advertise any capability.
    MissingCapability,
    /// The underlying exchange failed.
    Send(ImapSendError),
}

impl View for ImapCapabilityGetError {
    type V = FailureView;

    open spec fn view(&self) -> FailureView {
        match *self {
            ImapCapabilityGetError::No(text) => FailureView::No(text@),
            ImapCapabilityGetError::Bad(text) => FailureView::Bad(text@),
            ImapCapabilityGetError::Bye(text) => FailureView::Bye(text@),
            ImapCapabilityGetError::MissingTagged => FailureView::MissingTagged,
            ImapCapabilityGetError::MissingCapability => FailureView::MissingCapability,
            ImapCapabilityGetError::Send(err) => FailureView::Send(err@),
        }
    }
}

impl ImapCapabilityGetError {
    fn refused(refusal: Refusal) -> (err: Self)
        ensures
            err@ == refusal@,
    {
        match refusal {
            Refusal::No(text) => ImapCapabilityGetError::No(text),
            Refusal::Bad(text) => ImapCapabilityGetError::Bad(text),
            Refusal::Bye(text) => ImapCapabilityGetError::Bye(text),
            Refusal::MissingTagged => ImapCapabilityGetError::MissingTagged,
        }
    }
}

/// The capabilities of the last CAPABILITY response.
pub open spec fn data_capabilities(data: Seq<DataView>) -> Option<Seq<Capability<'static>>> {
    last_of(
        data,
        |item: DataView|
            match item {
                DataView::Capability(found) => Some(found),
                _ => None,
            },
    )
}

/// The capabilities that a response code lists.
pub open spec fn code_capabilities(code: Option<CodeView>) -> Option<Seq<Capability<'static>>> {
    match code {
        Some(CodeView::Capability(found)) => Some(found),
        _ => None,
    }
}

/// The capabilities of the last untagged status that lists any.
pub open spec fn untagged_capabilities(untagged: Seq<StatusView>) -> Option<
    Seq<Capability<'static>>,
> {
    last_of(untagged, |status: StatusView| code_capabilities(status.code))
}

/// The capabilities that the server advertised last: untagged statuses
/// before CAPABILITY responses, and those before the completion.
pub open spec fn advertised(code: Option<CodeView>, output: OutputView) -> Option<
    Seq<Capability<'static>>,
> {
    match untagged_capabilities(output.untagged) {
        Some(capabilities) => Some(capabilities),
        None => match data_capabilities(output.data) {
            Some(capabilities) => Some(capabilities),
            None => code_capabilities(code),
        },
    }
}

pub open spec fn capabilities_view(capabilities: Option<Vec<Capability<'static>>>) -> Option<
    Seq<Capability<'static>>,
> {
    match capabilities {
        Some(capabilities) => Some(capabilities@),
        None => None,
    }
}

/// What the answer to CAPABILITY amounts to.
pub open spec fn capability_outcome(output: OutputView) -> Result<
    Seq<Capability<'static>>,
    FailureView,
> {
    match verdict(output) {
        Ok(status) => match advertised(status.code, output) {
            Some(capabilities) => Ok(capabilities),
            None => Err(FailureView::MissingCapability),
        },
        Err(err) => Err(err),
    }
}

/// I/O-free IMAP CAPABILITY coroutine.
pub struct ImapCapabilityGet {
    send: ImapSend,
}

impl View for ImapCapabilityGet {
    type V = SendState;

    closed spec fn view(&self) -> SendState {
        self.send@
    }
}

impl ImapCapabilityGet {
    /// Creates a coroutine that sends CAPABILITY under a fresh tag.
    pub fn new() -> (capability: Self)
        ensures
            starts_bare(capability@, BareCommand::Capability),
    {
        ImapCapabilityGet { send: ImapSend::new(encode_bare(fresh_tag(), BareCommand::Capability)) }
    }

    /// What the answer to CAPABILITY amounts to.
    pub fn finish(output: ImapSendOutput) -> (result: Result<
        Vec<Capability<'static>>,
        ImapCapabilityGetError,
    >)
        ensures
            result_view(result) == capability_outcome(output@),
    {
        let status = match judge(output.bye, output.tagged) {
            Ok(status) => status,
            Err(refusal) => {
                return Err(ImapCapabilityGetError::refused(refusal));
            },
        };
        let mut found: Option<Vec<Capability<'static>>> = None;
        let ghost listed = code_capabilities(status@.code);
        if let Some(ServerCode::Capability(capabilities)) = status.code {
            found = Some(capabilities);
        }
        let ghost views = data_views(output.data@);
        for data in it: output.data
            invariant
                it.seq() == output.data@,
                views == data_views(output.data@),
                capabilities_view(found) == match data_capabilities(views.take(it.index())) {
                    Some(capabilities) => Some(capabilities),
                    None => listed,
                },
        {
            proof {
                let seen = views.take(it.index() + 1);
                assert(seen.drop_last() =~= views.take(it.index()));
                assert(seen.last() == data@);
            }
            if let ServerData::Capability(capabilities) = data {
                found = Some(capabilities);
            }
        }
        assert(views.take(views.len() as int) =~= views);
        let ghost reported = capabilities_view(found);
        let ghost statuses = status_views(output.untagged@);
        for status in it: output.untagged
            invariant
                it.seq() == output.untagged@,
                statuses == status_views(output.untagged@),
                capabilities_view(found) == match untagged_capabilities(
                    statuses.take(it.index()),
                ) {
                    Some(capabilities) => Some(capabilities),
                    None => reported,
                },
        {
            proof {
                let seen = statuses.take(it.index() + 1);
                assert(seen.drop_last() =~= statuses.take(it.index()));
                assert(seen.last() == status@);
            }
            if let Some(ServerCode::Capability(capabilities)) = status.code {
                found = Some(capabilities);
            }
        }
        assert(statuses.take(statuses.len() as int) =~= statuses);
        match found {
            Some(capabilities) => Ok(capabilities),
            None => Err(ImapCapabilityGetError::MissingCapability),
        }
    }
}

impl Default for ImapCapabilityGet {
    fn default() -> (capability: Self)
        ensures
            starts_bare(capability@, BareCommand::Capability),
    {
        Self::new()
    }
}

impl ImapCoroutine for ImapCapabilityGet {
    type Yield = ImapYield;

    type Return = Result<Vec<Capability<'static>>, ImapCapabilityGetError>;

    fn resume(&mut self, fragmentizer: &mut Fragmentizer, arg: Option<&[u8]>) -> (step:
        ImapCoroutineState<ImapYield, Result<Vec<Capability<'static>>, ImapCapabilityGetError>>)
        ensures
            is_step(
                (old(self)@, framing(*old(fragmentizer))),
                arg_view(arg),
                (final(self)@, framing(*final(fragmentizer))),
                step_view(step),
                |output: OutputView| capability_outcome(output),
            ),
    {
        match self.send.resume(fragmentizer, arg) {
            ImapCoroutineState::Yielded(y) => ImapCoroutineState::Yielded(y),
            ImapCoroutineState::Complete(Ok(output)) => ImapCoroutineState::Complete(
                Self::finish(output),
            ),
            ImapCoroutineState::Complete(Err(err)) => ImapCoroutineState::Complete(
                Err(ImapCapabilityGetError::Send(err)),
            ),
        }
    }
}

} // verus!
