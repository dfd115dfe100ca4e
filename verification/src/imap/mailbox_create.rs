//! IMAP mailbox-create coroutine: `CREATE <mailbox>` (RFC 3501 section 6.3).
use vstd::prelude::*;

use io_imap::codec::fragmentizer::Fragmentizer;
use io_imap::rfc3501::create::{
    ImapMailboxCreate as InnerImapMailboxCreate, ImapMailboxCreateError as InnerImapMailboxCreateError,
};

use crate::coroutine::{
    fed, EmailBackend, EmailCoroutine, EmailCoroutineArg, EmailCoroutineState, ImapStep, Outcome,
};
use crate::imap::convert::{parse_mailbox, transmissible, InvalidMailboxName};
use crate::imap::wire::{create_left, create_new, create_request, create_resume, create_step};

verus! {

/// Errors produced by [`ImapMailboxCreate`].
#[derive(Debug)]
pub enum ImapMailboxCreateError {
    Create(InnerImapMailboxCreateError),
    InvalidMailbox(String),
    InvalidArg,
}

/// I/O-free coroutine creating an IMAP mailbox.
pub struct ImapMailboxCreate {
    inner: InnerImapMailboxCreate,
}

impl View for ImapMailboxCreate {
    type V = InnerImapMailboxCreate;

    closed spec fn view(&self) -> InnerImapMailboxCreate {
        self.inner
    }
}

pub type Answer = Outcome<(), ImapMailboxCreateError>;

/// What a resume returns.
pub type Step = EmailCoroutineState<ImapStep, Result<(), ImapMailboxCreateError>>;

/// The answer for what the exchange came to.
pub open spec fn answer_of(step: Outcome<(), InnerImapMailboxCreateError>) -> Answer {
    match step {
        Outcome::Read => Outcome::Read,
        Outcome::Write(bytes) => Outcome::Write(bytes),
        Outcome::Done(()) => Outcome::Done(()),
        Outcome::Failed(err) => Outcome::Failed(ImapMailboxCreateError::Create(err)),
    }
}

impl ImapMailboxCreate {
    pub fn new(name: &str) -> (r: Result<ImapMailboxCreate, ImapMailboxCreateError>)
        ensures
            match r {
                Ok(run) => transmissible(name@) && create_request(run@) == Some(name@),
                Err(ImapMailboxCreateError::InvalidMailbox(text)) => !transmissible(name@) && text@
                    == name@,
                Err(_) => false,
            },
    {
        match parse_mailbox(name) {
            Ok(mailbox) => Ok(ImapMailboxCreate { inner: create_new(&mailbox) }),
            Err(InvalidMailboxName(name)) => Err(ImapMailboxCreateError::InvalidMailbox(name)),
        }
    }

    /// Advances the coroutine, which is not over: with no bytes at first
    /// and after a write, with what was read after a read.
    pub fn resume(&mut self, fragmentizer: &mut Fragmentizer, bytes: Option<&[u8]>) -> (r: Step)
        requires
            create_request(old(self)@) is Some,
        ensures
            r.outcome() == answer_of(create_step(old(self)@, *old(fragmentizer), fed(bytes))),
            (final(self)@, *final(fragmentizer)) == create_left(
                old(self)@,
                *old(fragmentizer),
                fed(bytes),
            ),
            r is Yielded ==> create_request(final(self)@) == create_request(old(self)@),
    {
        match create_resume(&mut self.inner, fragmentizer, bytes) {
            EmailCoroutineState::Yielded(step) => EmailCoroutineState::Yielded(step),
            EmailCoroutineState::Complete(Ok(())) => EmailCoroutineState::Complete(Ok(())),
            EmailCoroutineState::Complete(Err(err)) => EmailCoroutineState::Complete(
                Err(ImapMailboxCreateError::Create(err)),
            ),
        }
    }
}

impl EmailCoroutine for ImapMailboxCreate {
    type Yield = ImapStep;

    type Return = Result<(), ImapMailboxCreateError>;

    const BACKEND: EmailBackend = EmailBackend::Imap;

    open spec fn ready(self) -> bool {
        create_request(self@) is Some
    }

    open spec fn advances(
        pre: ImapMailboxCreate,
        arg: EmailCoroutineArg<'_>,
        post: ImapMailboxCreate,
        left: Option<Fragmentizer>,
        r: Step,
    ) -> bool {
        match arg {
            EmailCoroutineArg::Imap { fragmentizer, bytes } => {
                &&& r.outcome() == answer_of(create_step(pre@, *fragmentizer, fed(bytes)))
                &&& left matches Some(left) && (post@, left) == create_left(pre@, *fragmentizer, fed(bytes))
                &&& r is Yielded ==> create_request(post@) == create_request(pre@)
            },
            _ => post == pre && r == Step::Complete(Err(ImapMailboxCreateError::InvalidArg)),
        }
    }

    fn resume(&mut self, arg: EmailCoroutineArg<'_>) -> (r: Step) {
        match arg {
            EmailCoroutineArg::Imap { fragmentizer, bytes } => ImapMailboxCreate::resume(self, fragmentizer, bytes),
            _ => EmailCoroutineState::Complete(Err(ImapMailboxCreateError::InvalidArg)),
        }
    }
}

} // verus!
