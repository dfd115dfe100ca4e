//! IMAP flag set: `SELECT <mailbox>`, then `STORE <sequence-set>
//! FLAGS <flags>`.
use vstd::prelude::*;

use io_imap::codec::fragmentizer::Fragmentizer;
use io_imap::rfc3501::select::ImapMailboxSelectError;
use io_imap::rfc3501::store::ImapMessageStoreError;
use io_imap::types::sequence::SequenceSet;

use crate::coroutine::{fed, resumed, EmailCoroutineState, ImapStep, Outcome};
use crate::flag::types::{Flag, FlagOp};
use crate::imap::convert::ImapMailbox;
use crate::imap::flag_store::{
    imap_flags, law_resume_errors, spelled, ImapFlagStore, ImapFlagStoreError, State,
};
use crate::imap::wire::{set_items, StoreRequest};

verus! {

/// Errors produced by [`FlagSet`].
#[derive(Debug)]
pub enum FlagSetError {
    Select(ImapMailboxSelectError),
    Store(ImapMessageStoreError),
    AlreadyDone,
}

/// Result returned by [`FlagSet::resume`].
#[derive(Debug)]
pub enum FlagSetResult {
    Done,
    WantsRead,
    WantsWrite(Vec<u8>),
    Failed(FlagSetError),
}

/// The same as an answer of the flag store.
pub open spec fn as_store(r: FlagSetResult) -> Outcome<(), ImapFlagStoreError> {
    match r {
        FlagSetResult::Done => Outcome::Done(()),
        FlagSetResult::WantsRead => Outcome::Read,
        FlagSetResult::WantsWrite(bytes) => Outcome::Write(bytes@),
        FlagSetResult::Failed(FlagSetError::Select(err)) => Outcome::Failed(ImapFlagStoreError::Select(err)),
        FlagSetResult::Failed(FlagSetError::Store(err)) => Outcome::Failed(ImapFlagStoreError::Store(err)),
        FlagSetResult::Failed(FlagSetError::AlreadyDone) => Outcome::Failed(
            ImapFlagStoreError::ResumedAfterDone,
        ),
    }
}

/// I/O-free coroutine wrapping `SELECT <mailbox>` followed by `STORE
/// <sequence-set> FLAGS <flags>`.
pub struct FlagSet {
    store: ImapFlagStore,
}

impl View for FlagSet {
    type V = State;

    closed spec fn view(&self) -> State {
        self.store@
    }
}

impl FlagSet {
    pub fn new(mailbox: &ImapMailbox, sequence_set: SequenceSet, flags: &[Flag], uid: bool) -> (r: FlagSet)
        requires
            spelled(flags@),
        ensures
            r@.starts(
                Some(mailbox@),
                StoreRequest {
                    set: set_items(sequence_set),
                    op: FlagOp::Replace,
                    flags: imap_flags(flags@),
                    uid,
                },
            ),
    {
        FlagSet { store: ImapFlagStore::selecting(mailbox, sequence_set, flags, FlagOp::Replace, uid) }
    }

    /// Advances the coroutine. Drives SELECT first, then STORE.
    pub fn resume(&mut self, fragmentizer: &mut Fragmentizer, bytes: Option<&[u8]>) -> (r: FlagSetResult)
        ensures
            resumed(old(self)@, *old(fragmentizer), fed(bytes), final(self)@, *final(fragmentizer), as_store(r)),
    {
        let ghost pre = self@;
        let ghost f = *fragmentizer;
        let r = self.store.resume(fragmentizer, bytes);
        proof {
            if let EmailCoroutineState::Complete(Err(err)) = &r {
                law_resume_errors(pre, f, fed(bytes), self@, *fragmentizer, *err);
            }
        }
        match r {
            EmailCoroutineState::Yielded(ImapStep::WantsRead) => FlagSetResult::WantsRead,
            EmailCoroutineState::Yielded(ImapStep::WantsWrite(out)) => FlagSetResult::WantsWrite(out),
            EmailCoroutineState::Complete(Ok(())) => FlagSetResult::Done,
            EmailCoroutineState::Complete(Err(err)) => match err {
                ImapFlagStoreError::Select(err) => FlagSetResult::Failed(FlagSetError::Select(err)),
                ImapFlagStoreError::Store(err) => FlagSetResult::Failed(FlagSetError::Store(err)),
                _ => FlagSetResult::Failed(FlagSetError::AlreadyDone),
            },
        }
    }
}

} // verus!
