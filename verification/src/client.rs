//! What a client decides around the coroutines.

use std::num::{NonZeroU32, NonZeroU64};
use std::time::Duration;

use imap_codec::imap_types::command::SelectParameter;
use imap_codec::imap_types::response::Capability;
use rand::distr::Alphanumeric;
use rand::RngExt;
use vstd::prelude::*;

use crate::rfc2177::idle::nanoseconds;

verus! {

/// Why a mailbox cannot be opened with QRESYNC.
#[derive(Clone, Copy, Debug, PartialEq, Eq, Structural)]
pub enum ImapQresyncError {
    /// The capability list lacks QRESYNC.
    QresyncNotSupported,
    /// The mod-sequence is zero.
    InvalidModSeq,
}

/// Whether a capability is QRESYNC.
pub uninterp spec fn is_qresync(capability: Capability<'static>) -> bool;

/// Tells imap-types' `Capability::QResync` from the other capabilities.
#[verifier::external_body]
fn tell_qresync(capability: &Capability<'static>) -> (found: bool)
    ensures
        found == is_qresync(*capability),
{
    matches!(capability, Capability::QResync)
}

/// The QRESYNC parameter of SELECT, without known UIDs.
pub uninterp spec fn qresync_parameter(uid_validity: u32, mod_seq: u64) -> SelectParameter;

/// Builds imap-types' `SelectParameter::QResync`.
#[verifier::external_body]
fn new_qresync_parameter(uid_validity: u32, mod_seq: u64) -> (parameter: SelectParameter)
    requires
        uid_validity != 0,
        mod_seq != 0,
    ensures
        parameter == qresync_parameter(uid_validity, mod_seq),
{
    SelectParameter::QResync {
        uid_validity: NonZeroU32::new(uid_validity).unwrap(),
        mod_sequence_value: NonZeroU64::new(mod_seq).unwrap(),
        known_uids: None,
        seq_match_data: None,
    }
}

/// Whether the server advertises QRESYNC.
pub open spec fn advertises_qresync(capability: Seq<Capability<'static>>) -> bool {
    exists|i: int| 0 <= i < capability.len() && is_qresync(#[trigger] capability[i])
}

/// Validates a QRESYNC SELECT, given whether QRESYNC is advertised.
pub fn validate_qresync(advertised: bool, highest_mod_seq: u64) -> (result: Result<
    (),
    ImapQresyncError,
>)
    ensures
        result == if !advertised {
            Err(ImapQresyncError::QresyncNotSupported)
        } else if highest_mod_seq == 0 {
            Err(ImapQresyncError::InvalidModSeq)
        } else {
            Ok(())
        },
{
    if !advertised {
        return Err(ImapQresyncError::QresyncNotSupported);
    }
    if highest_mod_seq == 0 {
        return Err(ImapQresyncError::InvalidModSeq);
    }
    Ok(())
}

/// Validates a QRESYNC SELECT against the advertised capabilities.
pub fn qresync_parameters(
    uid_validity: u32,
    highest_mod_seq: u64,
    capability: &[Capability<'static>],
) -> (result: Result<Vec<SelectParameter>, ImapQresyncError>)
    requires
        uid_validity != 0,
    ensures
        match result {
            Ok(parameters) => advertises_qresync(capability@) && highest_mod_seq != 0
                && parameters@ == seq![qresync_parameter(uid_validity, highest_mod_seq)],
            Err(ImapQresyncError::QresyncNotSupported) => !advertises_qresync(capability@),
            Err(ImapQresyncError::InvalidModSeq) => advertises_qresync(capability@)
                && highest_mod_seq == 0,
        },
        result is Ok <==> highest_mod_seq > 0 && exists|i: int|
            0 <= i < capability@.len() && is_qresync(#[trigger] capability@[i]),
        result == Err::<Vec<SelectParameter>, _>(ImapQresyncError::QresyncNotSupported)
            <==> forall|i: int|
            0 <= i < capability@.len() ==> !is_qresync(#[trigger] capability@[i]),
{
    let mut found = false;
    for i in 0..capability.len()
        invariant
            found == exists|k: int| 0 <= k < i && is_qresync(#[trigger] capability@[k]),
    {
        if tell_qresync(&capability[i]) {
            found = true;
        }
    }
    validate_qresync(found, highest_mod_seq)?;
    let mut parameters: Vec<SelectParameter> = Vec::new();
    parameters.push(new_qresync_parameter(uid_validity, highest_mod_seq));
    assert(parameters@ =~= seq![qresync_parameter(uid_validity, highest_mod_seq)]);
    Ok(parameters)
}

/// Letters and digits.
pub open spec fn is_alphanumeric(bytes: Seq<u8>) -> bool {
    forall|i: int|
        0 <= i < bytes.len() ==> {
            let b = #[trigger] bytes[i];
            0x30 <= b <= 0x39 || 0x41 <= b <= 0x5a || 0x61 <= b <= 0x7a
        }
}

/// rand's `sample_iter` of `Alphanumeric`: that many random letters and
/// digits. Which they are depends on chance.
#[verifier::external_body]
fn draw_alphanumeric(len: usize) -> (bytes: Vec<u8>)
    requires
        len <= 0x7fff_ffff,
    ensures
        bytes@.len() == len,
        is_alphanumeric(bytes@),
{
    rand::rng().sample_iter(Alphanumeric).take(len).collect()
}

/// How many bytes a drawn nonce has.
pub const NONCE_LEN: usize = 24;

/// The nonce of a SCRAM client: that of the caller, or one that is drawn
/// where the caller left it empty. Letters and digits are printable and
/// hold no comma, as SCRAM asks for.
pub fn with_client_nonce(nonce: Vec<u8>) -> (drawn: Vec<u8>)
    ensures
        nonce@.len() > 0 ==> drawn == nonce,
        nonce@.len() == 0 ==> drawn@.len() == NONCE_LEN && is_alphanumeric(drawn@),
        nonce@.len() == 0 ==> drawn@.len() == 24,
{
    if nonce.len() == 0 {
        draw_alphanumeric(NONCE_LEN)
    } else {
        nonce
    }
}

/// The transfer of a message body from the connection to a sink, a
/// buffer at a time.
#[derive(Clone, Copy, Debug, PartialEq, Eq, Structural)]
pub struct ImapBodyTransfer {
    /// How many bytes are still to come.
    pub remaining: u64,
    /// Whether the connection was closed before the last of them.
    pub short: bool,
}

impl ImapBodyTransfer {
    /// A body of `len` bytes, all of them to come.
    pub fn new(len: u32) -> (transfer: Self)
        ensures
            transfer == (ImapBodyTransfer { remaining: len as u64, short: false }),
    {
        ImapBodyTransfer { remaining: len as u64, short: false }
    }

    /// How many bytes to read next.
    pub open spec fn next(self, capacity: usize) -> int {
        if self.short {
            0
        } else if self.remaining < capacity {
            self.remaining as int
        } else {
            capacity as int
        }
    }

    /// How many bytes to read next into a buffer of the given capacity;
    /// zero once the transfer is over.
    pub fn wants(&self, capacity: usize) -> (len: usize)
        ensures
            len == self.next(capacity),
            len <= capacity,
            len <= self.remaining,
            self.short ==> len == 0,
            !self.short ==> len == capacity || len == self.remaining,
    {
        if self.short {
            0
        } else if self.remaining < capacity as u64 {
            self.remaining as usize
        } else {
            capacity
        }
    }

    /// The transfer after `len` bytes were read. Nothing to read means
    /// that the connection was closed.
    pub open spec fn after(self, len: usize) -> ImapBodyTransfer {
        if len == 0 {
            ImapBodyTransfer { short: self.remaining > 0, ..self }
        } else {
            ImapBodyTransfer { remaining: (self.remaining - len) as u64, ..self }
        }
    }

    /// Notes that `len` bytes were read.
    pub fn received(&mut self, len: usize)
        requires
            len <= old(self).remaining,
        ensures
            *final(self) == old(self).after(len),
            final(self).remaining == old(self).remaining - len,
            len > 0 ==> final(self).short == old(self).short,
            len == 0 ==> final(self).short == (old(self).remaining > 0),
    {
        if len == 0 {
            self.short = self.remaining > 0;
        } else {
            self.remaining = self.remaining - len as u64;
        }
    }
}

/// Whether reads of the given sizes fit a transfer through a buffer of
/// the given capacity, one after the other.
pub open spec fn are_reads(transfer: ImapBodyTransfer, capacity: usize, reads: Seq<usize>) -> bool
    decreases reads.len(),
{
    reads.len() == 0 || {
        &&& transfer.next(capacity) > 0
        &&& reads[0] <= transfer.next(capacity)
        &&& are_reads(transfer.after(reads[0]), capacity, reads.skip(1))
    }
}

/// A transfer after reads of the given sizes.
pub open spec fn after_reads(transfer: ImapBodyTransfer, reads: Seq<usize>) -> ImapBodyTransfer
    decreases reads.len(),
{
    if reads.len() == 0 {
        transfer
    } else {
        after_reads(transfer.after(reads[0]), reads.skip(1))
    }
}

pub open spec fn total(reads: Seq<usize>) -> int
    decreases reads.len(),
{
    if reads.len() == 0 {
        0
    } else {
        reads[0] + total(reads.skip(1))
    }
}

/// A transfer never reads past the body, and is over exactly when the
/// whole body was read or the connection was closed.
pub proof fn body_is_transferred_once(
    transfer: ImapBodyTransfer,
    capacity: usize,
    reads: Seq<usize>,
)
    requires
        are_reads(transfer, capacity, reads),
        capacity > 0,
    ensures
        total(reads) + after_reads(transfer, reads).remaining == transfer.remaining,
        after_reads(transfer, reads).next(capacity) == 0 <==> after_reads(transfer, reads).short
            || total(reads) == transfer.remaining,
    decreases reads.len(),
{
    if reads.len() > 0 {
        body_is_transferred_once(transfer.after(reads[0]), capacity, reads.skip(1));
    }
}

/// Options for watching a mailbox in the background.
#[derive(Clone, Copy, Debug)]
pub struct ImapMailboxWatchStreamOptions {
    /// How long the watcher may sit in a read before it looks at the
    /// shutdown flag again.
    pub shutdown_poll: Duration,
}

impl Default for ImapMailboxWatchStreamOptions {
    fn default() -> (opts: Self)
        ensures
            nanoseconds(opts.shutdown_poll) == 5_000_000_000,
    {
        ImapMailboxWatchStreamOptions { shutdown_poll: Duration::from_secs(5) }
    }
}

/// What came of the last thing that the background watcher did.
#[derive(Clone, Copy, Debug, PartialEq, Eq, Structural)]
pub enum ImapWatchOutcome {
    /// An event was handed over; `received` unless nobody listens any
    /// more.
    HandedOver { received: bool },
    /// Bytes were written.
    Written,
    /// Writing failed.
    WriteFailed,
    /// That many bytes were read.
    Read { len: usize },
    /// Nothing was read in time; `shutdown` says whether the watcher is
    /// to stop.
    NotReady { shutdown: bool },
    /// Reading failed.
    ReadFailed,
    /// The coroutine is done.
    Completed,
    /// The coroutine failed.
    Failed,
}

/// What the background watcher does next.
#[derive(Clone, Copy, Debug, PartialEq, Eq, Structural)]
pub enum ImapWatchAction {
    /// Resume the coroutine with nothing.
    Resume,
    /// Resume the coroutine with the bytes read.
    ResumeWithBytes,
    /// Report that the server closed the connection, and stop.
    ReportEof,
    /// Report the failure, and stop.
    ReportFailure,
    /// Stop.
    Stop,
}

impl ImapWatchOutcome {
    /// Whether the watcher goes on.
    pub open spec fn goes_on(self) -> bool {
        match self {
            ImapWatchOutcome::HandedOver { received } => received,
            ImapWatchOutcome::Written => true,
            ImapWatchOutcome::Read { len } => len > 0,
            ImapWatchOutcome::NotReady { shutdown } => !shutdown,
            _ => false,
        }
    }

    /// Whether something went wrong that the listener has to know.
    pub open spec fn went_wrong(self) -> bool {
        match self {
            ImapWatchOutcome::WriteFailed => true,
            ImapWatchOutcome::ReadFailed => true,
            ImapWatchOutcome::Failed => true,
            _ => false,
        }
    }

    /// Decides what the watcher does next. A read that times out is not a
    /// failure but the chance to see that it is to stop.
    pub fn next(self) -> (action: ImapWatchAction)
        ensures
            self.goes_on() <==> action == ImapWatchAction::Resume || action
                == ImapWatchAction::ResumeWithBytes,
            action == ImapWatchAction::ResumeWithBytes <==> self is Read && self.goes_on(),
            action == ImapWatchAction::ReportEof <==> self == (ImapWatchOutcome::Read { len: 0 }),
            action == ImapWatchAction::ReportFailure <==> self.went_wrong(),
            action == ImapWatchAction::Resume <==> self is Written || self == (
            ImapWatchOutcome::HandedOver { received: true }) || self == (
            ImapWatchOutcome::NotReady { shutdown: false }),
            action == ImapWatchAction::ResumeWithBytes <==> self is Read && self->len > 0,
            action == ImapWatchAction::ReportFailure <==> self is WriteFailed || self is ReadFailed
                || self is Failed,
            action == ImapWatchAction::Stop <==> self is Completed || self == (
            ImapWatchOutcome::HandedOver { received: false }) || self == (
            ImapWatchOutcome::NotReady { shutdown: true }),
    {
        match self {
            ImapWatchOutcome::HandedOver { received: true } => ImapWatchAction::Resume,
            ImapWatchOutcome::HandedOver { received: false } => ImapWatchAction::Stop,
            ImapWatchOutcome::Written => ImapWatchAction::Resume,
            ImapWatchOutcome::WriteFailed => ImapWatchAction::ReportFailure,
            ImapWatchOutcome::Read { len: 0 } => ImapWatchAction::ReportEof,
            ImapWatchOutcome::Read { .. } => ImapWatchAction::ResumeWithBytes,
            ImapWatchOutcome::NotReady { shutdown: true } => ImapWatchAction::Stop,
            ImapWatchOutcome::NotReady { shutdown: false } => ImapWatchAction::Resume,
            ImapWatchOutcome::ReadFailed => ImapWatchAction::ReportFailure,
            ImapWatchOutcome::Completed => ImapWatchAction::Stop,
            ImapWatchOutcome::Failed => ImapWatchAction::ReportFailure,
        }
    }
}

} // verus!
