//! IMAP mailbox-delete coroutine: `DELETE <mailbox>` (RFC 3501 section 6.3).
use vstd::prelude::*;

use io_imap::codec::fragmentizer::Fragmentizer;
use io_imap::rfc3501::delete::{
    ImapMailboxDelete as InnerImapMailboxDelete, ImapMailboxDeleteError as InnerImapMailboxDeleteError,
};

use crate::coroutine::{
    fed, EmailBackend, EmailCoroutine, EmailCoroutineArg, EmailCoroutineState, ImapStep, Outcome,
};
use crate::imap::convert::{parse_mailbox, transmissible, InvalidMailboxName};
use crate::imap::wire::{delete_left, delete_new, delete_request, delete_resume, delete_step};

verus! {

/// Errors produced by [`ImapMailboxDelete`].
#[derive(Debug)]
pub enum ImapMailboxDeleteError {
    Delete(InnerImapMailboxDeleteError),
    InvalidMailbox(String),
    InvalidArg,
}

/// I/O-free coroutine deleting an IMAP mailbox.
pub struct ImapMailboxDelete {
    inner: InnerImapMailboxDelete,
}

impl View for ImapMailboxDelete {
    type V = InnerImapMailboxDelete;

    closed spec fn view(&self) -> InnerImapMailboxDelete {
        self.inner
    }
}

pub type Answer = Outcome<(), ImapMailboxDeleteError>;

/// What a resume returns.
pub type Step = EmailCoroutineState<ImapStep, Result<(), ImapMailboxDeleteError>>;

/// The answer for what the exchange came to.
pub open spec fn answer_of(step: Outcome<(), InnerImapMailboxDeleteError>) -> Answer {
    match step {
        Outcome::Read => Outcome::Read,
        Outcome::Write(bytes) => Outcome::Write(bytes),
        Outcome::Done(()) => Outcome::Done(()),
        Outcome::Failed(err) => Outcome::Failed(ImapMailboxDeleteError::Delete(err)),
    }
}

impl ImapMailboxDelete {
    pub fn new(name: &str) -> (r: Result<ImapMailboxDelete, ImapMailboxDeleteError>)
        ensures
            match r {
                Ok(run) => transmissible(name@) && delete_request(run@) == Some(name@),
                Err(ImapMailboxDeleteError::InvalidMailbox(text)) => !transmissible(name@) && text@
                    == name@,
                Err(_) => false,
            },
    {
        match parse_mailbox(name) {
            Ok(mailbox) => Ok(ImapMailboxDelete { inner: delete_new(&mailbox) }),
            Err(InvalidMailboxName(name)) => Err(ImapMailboxDeleteError::InvalidMailbox(name)),
        }
    }

    /// Advances the coroutine, which is not over: with no bytes at first
    /// and after a write, with what was read after a read.
    pub fn resume(&mut self, fragmentizer: &mut Fragmentizer, bytes: Option<&[u8]>) -> (r: Step)
        requires
            delete_request(old(self)@) is Some,
        ensures
            r.outcome() == answer_of(delete_step(old(self)@, *old(fragmentizer), fed(bytes))),
            (final(self)@, *final(fragmentizer)) == delete_left(
                old(self)@,
                *old(fragmentizer),
                fed(bytes),
            ),
            r is Yielded ==> delete_request(final(self)@) == delete_request(old(self)@),
    {
        match delete_resume(&mut self.inner, fragmentizer, bytes) {
            EmailCoroutineState::Yielded(step) => EmailCoroutineState::Yielded(step),
            EmailCoroutineState::Complete(Ok(())) => EmailCoroutineState::Complete(Ok(())),
            EmailCoroutineState::Complete(Err(err)) => EmailCoroutineState::Complete(
                Err(ImapMailboxDeleteError::Delete(err)),
            ),
        }
    }
}

impl EmailCoroutine for ImapMailboxDelete {
    type Yield = ImapStep;

    type Return = Result<(), ImapMailboxDeleteError>;

    const BACKEND: EmailBackend = EmailBackend::Imap;

    open spec fn ready(self) -> bool {
        delete_request(self@) is Some
    }

    open spec fn advances(
        pre: ImapMailboxDelete,
        arg: EmailCoroutineArg<'_>,
        post: ImapMailboxDelete,
        left: Option<Fragmentizer>,
        r: Step,
    ) -> bool {
        match arg {
            EmailCoroutineArg::Imap { fragmentizer, bytes } => {
                &&& r.outcome() == answer_of(delete_step(pre@, *fragmentizer, fed(bytes)))
                &&& left matches Some(left) && (post@, left) == delete_left(pre@, *fragmentizer, fed(bytes))
                &&& r is Yielded ==> delete_request(post@) == delete_request(pre@)
            },
            _ => post == pre && r == Step::Complete(Err(ImapMailboxDeleteError::InvalidArg)),
        }
    }

    fn resume(&mut self, arg: EmailCoroutineArg<'_>) -> (r: Step) {
        match arg {
            EmailCoroutineArg::Imap { fragmentizer, bytes } => ImapMailboxDelete::resume(self, fragmentizer, bytes),
            _ => EmailCoroutineState::Complete(Err(ImapMailboxDeleteError::InvalidArg)),
        }
    }
}

} // verus!
