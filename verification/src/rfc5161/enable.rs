//! IMAP ENABLE coroutine returning the capabilities the server confirmed.

use imap_codec::fragmentizer::Fragmentizer;
use imap_codec::imap_types;
use imap_codec::imap_types::extensions::enable::CapabilityEnable;
use vstd::prelude::*;

use crate::command::{encode_enable, fresh_tag, CommandView};
use crate::coroutine::{arg_view, ImapCoroutine, ImapCoroutineState, ImapYield};
use crate::framing::framing;
use crate::outcome::{
    is_step, judge, last_of, result_view_by, step_view_by, verdict, FailureView, Refusal,
};
use crate::response::{DataView, ServerData};
use crate::send::{
    data_views, starts, ImapSend, ImapSendError, ImapSendOutput, OutputView, SendState,
};

verus! {

/// Failure causes during the IMAP ENABLE flow.
#[derive(Clone, Debug)]
pub enum ImapExtensionEnableError {
    /// The server rejected the command with a NO response.
    No(String),
    /// The server rejected the command with a BAD response.
    Bad(String),
    /// The server closed the connection with a BYE response.
    Bye(String),
    /// The server never answered with a tagged response.
    MissingTagged,
    /// The underlying exchange failed.
    Send(ImapSendError),
}

impl View for ImapExtensionEnableError {
    type V = FailureView;

    open spec fn view(&self) -> FailureView {
        match *self {
            ImapExtensionEnableError::No(text) => FailureView::No(text@),
            ImapExtensionEnableError::Bad(text) => FailureView::Bad(text@),
            ImapExtensionEnableError::Bye(text) => FailureView::Bye(text@),
            ImapExtensionEnableError::MissingTagged => FailureView::MissingTagged,
            ImapExtensionEnableError::Send(err) => FailureView::Send(err@),
        }
    }
}

impl ImapExtensionEnableError {
    fn refused(refusal: Refusal) -> (err: Self)
        ensures
            err@ == refusal@,
    {
        match refusal {
            Refusal::No(text) => ImapExtensionEnableError::No(text),
            Refusal::Bad(text) => ImapExtensionEnableError::Bad(text),
            Refusal::Bye(text) => ImapExtensionEnableError::Bye(text),
            Refusal::MissingTagged => ImapExtensionEnableError::MissingTagged,
        }
    }
}

/// The capabilities of the last ENABLED response.
pub open spec fn enabled(data: Seq<DataView>) -> Option<Seq<CapabilityEnable<'static>>> {
    last_of(
        data,
        |item: DataView|
            match item {
                DataView::Enabled(found) => Some(found),
                _ => None,
            },
    )
}

/// Model of what the coroutine returns.
pub open spec fn enabled_view(capabilities: Option<Vec<CapabilityEnable<'static>>>) -> Option<
    Seq<CapabilityEnable<'static>>,
> {
    match capabilities {
        Some(capabilities) => Some(capabilities@),
        None => None,
    }
}

/// What the answer to ENABLE amounts to.
pub open spec fn enable_outcome(output: OutputView) -> Result<
    Option<Seq<CapabilityEnable<'static>>>,
    FailureView,
> {
    match verdict(output) {
        Ok(_) => Ok(enabled(output.data)),
        Err(err) => Err(err),
    }
}

/// I/O-free IMAP ENABLE coroutine.
pub struct ImapExtensionEnable {
    send: ImapSend,
}

impl View for ImapExtensionEnable {
    type V = SendState;

    closed spec fn view(&self) -> SendState {
        self.send@
    }
}

impl ImapExtensionEnable {
    /// Creates a coroutine that enables `capabilities`, under a fresh tag.
    pub fn new(capabilities: imap_types::core::Vec1<CapabilityEnable<'static>>) -> (enable: Self)
        ensures
            starts(enable@, CommandView::Enable { capabilities }),
    {
        ImapExtensionEnable { send: ImapSend::new(encode_enable(fresh_tag(), capabilities)) }
    }

    /// What the answer to ENABLE amounts to.
    pub fn finish(output: ImapSendOutput) -> (result: Result<
        Option<Vec<CapabilityEnable<'static>>>,
        ImapExtensionEnableError,
    >)
        ensures
            result_view_by(
                result,
                |capabilities: Option<Vec<CapabilityEnable<'static>>>| enabled_view(capabilities),
            ) == enable_outcome(output@),
    {
        match judge(output.bye, output.tagged) {
            Ok(_) => {},
            Err(refusal) => {
                return Err(ImapExtensionEnableError::refused(refusal));
            },
        }
        let ghost views = data_views(output.data@);
        let mut capabilities: Option<Vec<CapabilityEnable<'static>>> = None;
        for data in it: output.data
            invariant
                it.seq() == output.data@,
                views == data_views(output.data@),
                enabled_view(capabilities) == enabled(views.take(it.index())),
        {
            proof {
                let seen = views.take(it.index() + 1);
                assert(seen.drop_last() =~= views.take(it.index()));
                assert(seen.last() == data@);
            }
            if let ServerData::Enabled(found) = data {
                capabilities = Some(found);
            }
        }
        assert(views.take(views.len() as int) =~= views);
        Ok(capabilities)
    }
}

impl ImapCoroutine for ImapExtensionEnable {
    type Yield = ImapYield;

    type Return = Result<Option<Vec<CapabilityEnable<'static>>>, ImapExtensionEnableError>;

    fn resume(&mut self, fragmentizer: &mut Fragmentizer, arg: Option<&[u8]>) -> (step:
        ImapCoroutineState<
            ImapYield,
            Result<Option<Vec<CapabilityEnable<'static>>>, ImapExtensionEnableError>,
        >)
        ensures
            is_step(
                (old(self)@, framing(*old(fragmentizer))),
                arg_view(arg),
                (final(self)@, framing(*final(fragmentizer))),
                step_view_by(
                    step,
                    |capabilities: Option<Vec<CapabilityEnable<'static>>>|
                        enabled_view(capabilities),
                ),
                |output: OutputView| enable_outcome(output),
            ),
    {
        match self.send.resume(fragmentizer, arg) {
            ImapCoroutineState::Yielded(y) => ImapCoroutineState::Yielded(y),
            ImapCoroutineState::Complete(Ok(output)) => ImapCoroutineState::Complete(
                Self::finish(output),
            ),
            ImapCoroutineState::Complete(Err(err)) => ImapCoroutineState::Complete(
                Err(ImapExtensionEnableError::Send(err)),
            ),
        }
    }
}

} // verus!
