//! IMAP LOGOUT coroutine terminating the session.

use imap_codec::fragmentizer::Fragmentizer;
use vstd::prelude::*;

use crate::command::{encode_bare, fresh_tag, BareCommand};
use crate::coroutine::{arg_view, ImapCoroutine, ImapCoroutineState, ImapYield};
use crate::framing::framing;
use crate::outcome::{complete, completion, is_step, result_view, step_view, FailureView, Refusal};
use crate::send::{starts_bare, ImapSend, ImapSendError, ImapSendOutput, OutputView, SendState};

verus! {

/// Failure causes during the IMAP LOGOUT flow.
#[derive(Clone, Debug)]
pub enum ImapLogoutError {
    /// The server rejected the command with a NO response.
    No(String),
    /// The server rejected the command with a BAD response.
    Bad(String),
    /// The server never answered with a tagged response.
    MissingTagged,
    /// The server did not send the expected BYE.
    MissingBye,
    /// The underlying exchange failed.
    Send(ImapSendError),
}

impl View for ImapLogoutError {
    type V = FailureView;

    open spec fn view(&self) -> FailureView {
        match *self {
            ImapLogoutError::No(text) => FailureView::No(text@),
            ImapLogoutError::Bad(text) => FailureView::Bad(text@),
            ImapLogoutError::MissingTagged => FailureView::MissingTagged,
            ImapLogoutError::MissingBye => FailureView::MissingBye,
            ImapLogoutError::Send(err) => FailureView::Send(err@),
        }
    }
}

/// What the answer to LOGOUT amounts to: the server has to say BYE.
pub open spec fn logout_outcome(output: OutputView) -> Result<(), FailureView> {
    if output.bye is None {
        Err(FailureView::MissingBye)
    } else {
        match completion(output.tagged) {
            Ok(_) => Ok(()),
            Err(err) => Err(err),
        }
    }
}

/// I/O-free IMAP LOGOUT coroutine.
pub struct ImapLogout {
    send: ImapSend,
}

impl View for ImapLogout {
    type V = SendState;

    closed spec fn view(&self) -> SendState {
        self.send@
    }
}

impl ImapLogout {
    /// Creates a coroutine that sends LOGOUT under a fresh tag.
    pub fn new() -> (logout: Self)
        ensures
            starts_bare(logout@, BareCommand::Logout),
    {
        ImapLogout { send: ImapSend::new(encode_bare(fresh_tag(), BareCommand::Logout)) }
    }

    /// What the answer to LOGOUT amounts to.
    pub fn finish(output: ImapSendOutput) -> (result: Result<(), ImapLogoutError>)
        ensures
            result_view(result) == logout_outcome(output@),
    {
        if output.bye.is_none() {
            return Err(ImapLogoutError::MissingBye);
        }
        match complete(output.tagged) {
            Ok(_) => Ok(()),
            Err(Refusal::No(text)) => Err(ImapLogoutError::No(text)),
            Err(Refusal::Bad(text)) => Err(ImapLogoutError::Bad(text)),
            Err(_) => Err(ImapLogoutError::MissingTagged),
        }
    }
}

impl Default for ImapLogout {
    fn default() -> (logout: Self)
        ensures
            starts_bare(logout@, BareCommand::Logout),
    {
        Self::new()
    }
}

impl ImapCoroutine for ImapLogout {
    type Yield = ImapYield;

    type Return = Result<(), ImapLogoutError>;

    fn resume(&mut self, fragmentizer: &mut Fragmentizer, arg: Option<&[u8]>) -> (step:
        ImapCoroutineState<ImapYield, Result<(), ImapLogoutError>>)
        ensures
            is_step(
                (old(self)@, framing(*old(fragmentizer))),
                arg_view(arg),
                (final(self)@, framing(*final(fragmentizer))),
                step_view(step),
                |output: OutputView| logout_outcome(output),
            ),
    {
        match self.send.resume(fragmentizer, arg) {
            ImapCoroutineState::Yielded(y) => ImapCoroutineState::Yielded(y),
            ImapCoroutineState::Complete(Ok(output)) => ImapCoroutineState::Complete(
                Self::finish(output),
            ),
            ImapCoroutineState::Complete(Err(err)) => ImapCoroutineState::Complete(
                Err(ImapLogoutError::Send(err)),
            ),
        }
    }
}

} // verus!
