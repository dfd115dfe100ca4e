//! IMAP flag add: `SELECT <mailbox>`, then `STORE <sequence-set>
//! +FLAGS <flags>`.
use vstd::prelude::*;

use io_imap::codec::fragmentizer::Fragmentizer;
use io_imap::rfc3501::select::ImapMailboxSelectError;
use io_imap::rfc3501::store::ImapMessageStoreError;
use io_imap::types::sequence::SequenceSet;

use crate::coroutine::{fed, resumed, EmailCoroutineState, ImapStep, Outcome};
use crate::flag::types::{Flag, FlagOp};
use crate::imap::convert::ImapMailbox;
use crate::imap::flag_store::{
    imap_flags, law_resume_errors, spelled, ImapFlagStore, ImapFlagStoreError, State,
};
use crate::imap::wire::{set_items, StoreRequest};

verus! {

/// Errors produced by [`FlagAdd`].
#[derive(Debug)]
pub enum FlagAddError {
    Select(ImapMailboxSelectError),
    Store(ImapMessageStoreError),
    AlreadyDone,
}

/// Result returned by [`FlagAdd::resume`].
#[derive(Debug)]
pub enum FlagAddResult {
    Done,
    WantsRead,
    WantsWrite(Vec<u8>),
    Failed(FlagAddError),
}

/// The same as an answer of the flag store.
pub open spec fn as_store(r: FlagAddResult) -> Outcome<(), ImapFlagStoreError> {
    match r {
        FlagAddResult::Done => Outcome::Done(()),
        FlagAddResult::WantsRead => Outcome::Read,
        FlagAddResult::WantsWrite(bytes) => Outcome::Write(bytes@),
        FlagAddResult::Failed(FlagAddError::Select(err)) => Outcome::Failed(ImapFlagStoreError::Select(err)),
        FlagAddResult::Failed(FlagAddError::Store(err)) => Outcome::Failed(ImapFlagStoreError::Store(err)),
        FlagAddResult::Failed(FlagAddError::AlreadyDone) => Outcome::Failed(
            ImapFlagStoreError::ResumedAfterDone,
        ),
    }
}

/// I/O-free coroutine wrapping `SELECT <mailbox>` followed by `STORE
/// <sequence-set> +FLAGS <flags>`.
pub struct FlagAdd {
    store: ImapFlagStore,
}

impl View for FlagAdd {
    type V = State;

    closed spec fn view(&self) -> State {
        self.store@
    }
}

impl FlagAdd {
    pub fn new(mailbox: &ImapMailbox, sequence_set: SequenceSet, flags: &[Flag], uid: bool) -> (r: FlagAdd)
        requires
            spelled(flags@),
        ensures
            r@.starts(
                Some(mailbox@),
                StoreRequest {
                    set: set_items(sequence_set),
                    op: FlagOp::Add,
                    flags: imap_flags(flags@),
                    uid,
                },
            ),
    {
        FlagAdd { store: ImapFlagStore::selecting(mailbox, sequence_set, flags, FlagOp::Add, uid) }
    }

    /// Advances the coroutine. Drives SELECT first, then STORE.
    pub fn resume(&mut self, fragmentizer: &mut Fragmentizer, bytes: Option<&[u8]>) -> (r: FlagAddResult)
        ensures
            resumed(old(self)@, *old(fragmentizer), fed(bytes), final(self)@, *final(fragmentizer), as_store(r)),
    {
        let ghost pre = self@;
        let ghost f = *fragmentizer;
        let r = self.store.resume(fragmentizer, bytes);
        proof {
            if let EmailCoroutineState::Complete(Err(err)) = &r {
                law_resume_errors(pre, f, fed(bytes), self@, *fragmentizer, *err);
            }
        }
        match r {
            EmailCoroutineState::Yielded(ImapStep::WantsRead) => FlagAddResult::WantsRead,
            EmailCoroutineState::Yielded(ImapStep::WantsWrite(out)) => FlagAddResult::WantsWrite(out),
            EmailCoroutineState::Complete(Ok(())) => FlagAddResult::Done,
            EmailCoroutineState::Complete(Err(err)) => match err {
                ImapFlagStoreError::Select(err) => FlagAddResult::Failed(FlagAddError::Select(err)),
                ImapFlagStoreError::Store(err) => FlagAddResult::Failed(FlagAddError::Store(err)),
                _ => FlagAddResult::Failed(FlagAddError::AlreadyDone),
            },
        }
    }
}

} // verus!
