//! IMAP flag delete: `SELECT <mailbox>`, then `STORE <sequence-set>
//! -FLAGS <flags>`.
use vstd::prelude::*;

use io_imap::codec::fragmentizer::Fragmentizer;
use io_imap::rfc3501::select::ImapMailboxSelectError;
use io_imap::rfc3501::store::ImapMessageStoreError;
use io_imap::types::sequence::SequenceSet;

use crate::coroutine::{fed, resumed, EmailCoroutineState, ImapStep, Outcome};
use crate::flag::types::{Flag, FlagOp};
use crate::imap::convert::ImapMailbox;
use crate::imap::flag_store::{
    imap_flags, law_resume_errors, spelled, ImapFlagStore, ImapFlagStoreError, State,
};
use crate::imap::wire::{set_items, StoreRequest};

verus! {

/// Errors produced by [`FlagDelete`].
#[derive(Debug)]
pub enum FlagDeleteError {
    Select(ImapMailboxSelectError),
    Store(ImapMessageStoreError),
    AlreadyDone,
}

/// Result returned by [`FlagDelete::resume`].
#[derive(Debug)]
pub enum FlagDeleteResult {
    Done,
    WantsRead,
    WantsWrite(Vec<u8>),
    Failed(FlagDeleteError),
}

/// The same as an answer of the flag store.
pub open spec fn as_store(r: FlagDeleteResult) -> Outcome<(), ImapFlagStoreError> {
    match r {
        FlagDeleteResult::Done => Outcome::Done(()),
        FlagDeleteResult::WantsRead => Outcome::Read,
        FlagDeleteResult::WantsWrite(bytes) => Outcome::Write(bytes@),
        FlagDeleteResult::Failed(FlagDeleteError::Select(err)) => Outcome::Failed(ImapFlagStoreError::Select(err)),
        FlagDeleteResult::Failed(FlagDeleteError::Store(err)) => Outcome::Failed(ImapFlagStoreError::Store(err)),
        FlagDeleteResult::Failed(FlagDeleteError::AlreadyDone) => Outcome::Failed(
            ImapFlagStoreError::ResumedAfterDone,
        ),
    }
}

/// I/O-free coroutine wrapping `SELECT <mailbox>` followed by `STORE
/// <sequence-set> -FLAGS <flags>`.
pub struct FlagDelete {
    store: ImapFlagStore,
}

impl View for FlagDelete {
    type V = State;

    closed spec fn view(&self) -> State {
        self.store@
    }
}

impl FlagDelete {
    pub fn new(mailbox: &ImapMailbox, sequence_set: SequenceSet, flags: &[Flag], uid: bool) -> (r: FlagDelete)
        requires
            spelled(flags@),
        ensures
            r@.starts(
                Some(mailbox@),
                StoreRequest {
                    set: set_items(sequence_set),
                    op: FlagOp::Remove,
                    flags: imap_flags(flags@),
                    uid,
                },
            ),
    {
        FlagDelete { store: ImapFlagStore::selecting(mailbox, sequence_set, flags, FlagOp::Remove, uid) }
    }

    /// Advances the coroutine. Drives SELECT first, then STORE.
    pub fn resume(&mut self, fragmentizer: &mut Fragmentizer, bytes: Option<&[u8]>) -> (r: FlagDeleteResult)
        ensures
            resumed(old(self)@, *old(fragmentizer), fed(bytes), final(self)@, *final(fragmentizer), as_store(r)),
    {
        let ghost pre = self@;
        let ghost f = *fragmentizer;
        let r = self.store.resume(fragmentizer, bytes);
        proof {
            if let EmailCoroutineState::Complete(Err(err)) = &r {
                law_resume_errors(pre, f, fed(bytes), self@, *fragmentizer, *err);
            }
        }
        match r {
            EmailCoroutineState::Yielded(ImapStep::WantsRead) => FlagDeleteResult::WantsRead,
            EmailCoroutineState::Yielded(ImapStep::WantsWrite(out)) => FlagDeleteResult::WantsWrite(out),
            EmailCoroutineState::Complete(Ok(())) => FlagDeleteResult::Done,
            EmailCoroutineState::Complete(Err(err)) => match err {
                ImapFlagStoreError::Select(err) => FlagDeleteResult::Failed(FlagDeleteError::Select(err)),
                ImapFlagStoreError::Store(err) => FlagDeleteResult::Failed(FlagDeleteError::Store(err)),
                _ => FlagDeleteResult::Failed(FlagDeleteError::AlreadyDone),
            },
        }
    }
}

} // verus!
