//! IMAP APPEND coroutine streaming the message body and returning the
//! EXISTS count and APPENDUID pair.
//!
//! The body is never held whole: [`ImapMessageAppend::new`] takes only
//! the octet count (IMAP declares it up front in the literal), and the
//! coroutine yields [`ImapMessageAppendYield::WantsStream`] so the driver
//! pumps the bytes straight from its own source to the socket.

use imap_codec::fragmentizer::Fragmentizer;
use imap_codec::imap_types::datetime::DateTime;
use imap_codec::imap_types::flag::Flag;
use imap_codec::imap_types::mailbox::Mailbox;
use vstd::prelude::*;

use crate::coroutine::{arg_view, ImapCoroutine, ImapCoroutineState, ImapYield};
use crate::framing::framing;
use crate::outcome::FailureView;
use crate::rfc3501::append_stream::{
    is_append_header, AppendPhase, AppendResult, AppendState, AppendStep, AppendYieldView,
    ImapMessageAppendStream, ImapMessageAppendStreamError, ImapMessageAppendStreamYield,
};
use crate::send::ImapSendError;

verus! {

/// `(EXISTS count, APPENDUID (uid_validity, uid))`.
pub type ImapMessageAppendOutput = (Option<u32>, Option<(u32, u32)>);

/// Failure causes during the IMAP APPEND flow.
#[derive(Clone, Debug)]
pub enum ImapMessageAppendError {
    /// The server rejected the command with a NO response.
    No(String),
    /// The server rejected the command with a BAD response.
    Bad(String),
    /// The server closed the connection with a BYE response.
    Bye(String),
    /// The server never answered with a tagged response.
    MissingTagged,
    /// The message source delivered fewer octets than declared.
    ShortMessage,
    /// The underlying exchange failed.
    Send(ImapSendError),
}

impl View for ImapMessageAppendError {
    type V = FailureView;

    open spec fn view(&self) -> FailureView {
        match *self {
            ImapMessageAppendError::No(text) => FailureView::No(text@),
            ImapMessageAppendError::Bad(text) => FailureView::Bad(text@),
            ImapMessageAppendError::Bye(text) => FailureView::Bye(text@),
            ImapMessageAppendError::MissingTagged => FailureView::MissingTagged,
            ImapMessageAppendError::ShortMessage => FailureView::ShortMessage,
            ImapMessageAppendError::Send(err) => FailureView::Send(err@),
        }
    }
}

/// Options for [`ImapMessageAppend::new`].
#[derive(Debug)]
pub struct ImapMessageAppendOptions {
    /// Flags set on the appended message; defaults to none.
    pub flags: Vec<Flag<'static>>,
    /// Internal date of the appended message; defaults to the moment the
    /// server receives it.
    pub date: Option<DateTime>,
    /// Send a non-synchronising literal (`{N+}`) and stream the body
    /// without waiting for the server continuation. Requires LITERAL+ /
    /// LITERAL-, and forfeits early rejection, so it is best kept for
    /// small messages. Defaults to a synchronising `{N}` literal.
    pub non_sync: bool,
}

impl Default for ImapMessageAppendOptions {
    fn default() -> (opts: Self)
        ensures
            opts.flags@.len() == 0,
            opts.date is None,
            opts.non_sync == false,
    {
        ImapMessageAppendOptions { flags: Vec::new(), date: None, non_sync: false }
    }
}

/// Yield variants from the APPEND coroutine.
#[derive(Debug)]
pub enum ImapMessageAppendYield {
    /// The caller reads from its stream and resumes with the bytes.
    WantsRead,
    /// The caller writes the given bytes to its stream and resumes.
    WantsWrite(Vec<u8>),
    /// Stream exactly the declared message octets to the server, then
    /// resume with `None` on success or `Some(&[])` if the source ran
    /// short.
    WantsStream,
}

impl View for ImapMessageAppendYield {
    type V = AppendYieldView;

    open spec fn view(&self) -> AppendYieldView {
        match *self {
            ImapMessageAppendYield::WantsRead => AppendYieldView::WantsRead,
            ImapMessageAppendYield::WantsWrite(bytes) => AppendYieldView::WantsWrite(bytes@),
            ImapMessageAppendYield::WantsStream => AppendYieldView::WantsStream,
        }
    }
}

impl vstd::std_specs::convert::FromSpecImpl<ImapYield> for ImapMessageAppendYield {
    open spec fn obeys_from_spec() -> bool {
        true
    }

    open spec fn from_spec(y: ImapYield) -> Self {
        match y {
            ImapYield::WantsRead => ImapMessageAppendYield::WantsRead,
            ImapYield::WantsWrite(bytes) => ImapMessageAppendYield::WantsWrite(bytes),
        }
    }
}

impl From<ImapYield> for ImapMessageAppendYield {
    fn from(y: ImapYield) -> Self {
        match y {
            ImapYield::WantsRead => ImapMessageAppendYield::WantsRead,
            ImapYield::WantsWrite(bytes) => ImapMessageAppendYield::WantsWrite(bytes),
        }
    }
}

pub open spec fn append_step_view(
    result: ImapCoroutineState<
        ImapMessageAppendYield,
        Result<ImapMessageAppendOutput, ImapMessageAppendError>,
    >,
) -> AppendResult {
    match result {
        ImapCoroutineState::Yielded(y) => ImapCoroutineState::Yielded(y@),
        ImapCoroutineState::Complete(Ok(output)) => ImapCoroutineState::Complete(Ok(output)),
        ImapCoroutineState::Complete(Err(err)) => ImapCoroutineState::Complete(Err(err@)),
    }
}

/// I/O-free IMAP APPEND coroutine streaming the message body.
pub struct ImapMessageAppend {
    append: ImapMessageAppendStream,
}

impl View for ImapMessageAppend {
    type V = AppendState;

    closed spec fn view(&self) -> AppendState {
        self.append@
    }
}

impl ImapMessageAppend {
    /// Creates a coroutine appending a `len`-octet message to `mailbox`,
    /// under a fresh tag.
    pub fn new(mailbox: Mailbox<'static>, len: u32, opts: ImapMessageAppendOptions) -> (append:
        Self)
        ensures
            append@.phase matches AppendPhase::WriteHeader(header) && is_append_header(
                header,
                mailbox,
                len,
                opts,
            ) && append@ == AppendState::start(header, opts.non_sync),
    {
        ImapMessageAppend { append: ImapMessageAppendStream::new(mailbox, len, opts) }
    }

    fn failed(err: ImapMessageAppendStreamError) -> (failure: ImapMessageAppendError)
        ensures
            failure@ == err@,
    {
        match err {
            ImapMessageAppendStreamError::No(text) => ImapMessageAppendError::No(text),
            ImapMessageAppendStreamError::Bad(text) => ImapMessageAppendError::Bad(text),
            ImapMessageAppendStreamError::Bye(text) => ImapMessageAppendError::Bye(text),
            ImapMessageAppendStreamError::MissingTagged => ImapMessageAppendError::MissingTagged,
            ImapMessageAppendStreamError::ShortMessage => ImapMessageAppendError::ShortMessage,
            ImapMessageAppendStreamError::Send(err) => ImapMessageAppendError::Send(err),
        }
    }
}

impl ImapCoroutine for ImapMessageAppend {
    type Yield = ImapMessageAppendYield;

    type Return = Result<ImapMessageAppendOutput, ImapMessageAppendError>;

    fn resume(&mut self, fragmentizer: &mut Fragmentizer, arg: Option<&[u8]>) -> (result:
        ImapCoroutineState<
            ImapMessageAppendYield,
            Result<ImapMessageAppendOutput, ImapMessageAppendError>,
        >)
        ensures
            old(self)@.resume(framing(*old(fragmentizer)), arg_view(arg)) == (AppendStep {
                state: final(self)@,
                framing: framing(*final(fragmentizer)),
                result: append_step_view(result),
            }),
    {
        match self.append.resume(fragmentizer, arg) {
            ImapCoroutineState::Yielded(ImapMessageAppendStreamYield::WantsRead) => {
                ImapCoroutineState::Yielded(ImapMessageAppendYield::WantsRead)
            },
            ImapCoroutineState::Yielded(ImapMessageAppendStreamYield::WantsWrite(bytes)) => {
                ImapCoroutineState::Yielded(ImapMessageAppendYield::WantsWrite(bytes))
            },
            ImapCoroutineState::Yielded(ImapMessageAppendStreamYield::WantsStream) => {
                ImapCoroutineState::Yielded(ImapMessageAppendYield::WantsStream)
            },
            ImapCoroutineState::Complete(Ok(output)) => ImapCoroutineState::Complete(Ok(output)),
            ImapCoroutineState::Complete(Err(err)) => ImapCoroutineState::Complete(
                Err(Self::failed(err)),
            ),
        }
    }
}

} // verus!
