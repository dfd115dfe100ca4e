//! The exchanges of `io_maildir` that the Maildir coroutines are made of,
//! each behind a name for what it comes to.
use vstd::prelude::*;

use io_maildir::coroutine::{
    MaildirCoroutine, MaildirCoroutineState, MaildirReply, MaildirYield,
};
use io_maildir::flag::add::{MaildirFlagsAdd, MaildirFlagsAddError};
use io_maildir::flag::remove::{MaildirFlagsRemove, MaildirFlagsRemoveError};
use io_maildir::flag::set::{MaildirFlagsSet, MaildirFlagsSetError};
use io_maildir::flag::types::MaildirFlags;
use io_maildir::maildir::types::Maildir;

use crate::coroutine::EmailCoroutineState;

verus! {

/// A Maildir.
#[verifier::external_type_specification]
#[verifier::external_body]
pub struct ExMaildir(Maildir);

/// The flags of a Maildir message.
#[verifier::external_type_specification]
#[verifier::external_body]
pub struct ExMaildirFlags(MaildirFlags);

/// What a Maildir exchange asks of its driver.
#[verifier::external_type_specification]
#[verifier::external_body]
pub struct ExMaildirYield(MaildirYield);

/// What the driver answers.
#[verifier::external_type_specification]
#[verifier::external_body]
pub struct ExMaildirReply(MaildirReply);

/// [`Maildir`]'s `Clone`.
#[verifier::external_body]
pub(crate) fn clone_maildir(maildir: &Maildir) -> (r: Maildir)
    ensures
        r == *maildir,
{
    maildir.clone()
}

/// What a step over a filesystem came to.
pub enum MaildirOutcome<E> {
    Yield(MaildirYield),
    Done,
    Failed(E),
}

/// What a step came to.
pub open spec fn outcome_of<E>(step: EmailCoroutineState<MaildirYield, Result<(), E>>) -> MaildirOutcome<E> {
    match step {
        EmailCoroutineState::Yielded(step) => MaildirOutcome::Yield(step),
        EmailCoroutineState::Complete(Ok(())) => MaildirOutcome::Done,
        EmailCoroutineState::Complete(Err(err)) => MaildirOutcome::Failed(err),
    }
}

/// A change of the flags of one message.
pub struct Job {
    pub maildir: Maildir,
    pub id: Seq<char>,
    pub flags: MaildirFlags,
}

/// The change of the flags of one message.
pub open spec fn job_of(maildir: Maildir, id: Seq<char>, flags: MaildirFlags) -> Job {
    Job { maildir, id, flags }
}

/// The exchange that adds to the flags of one message.
#[verifier::external_type_specification]
#[verifier::external_body]
pub struct ExMaildirFlagsAdd(MaildirFlagsAdd);

/// Why that exchange failed.
#[verifier::external_type_specification]
#[verifier::external_body]
pub struct ExMaildirFlagsAddError(MaildirFlagsAddError);

/// What [`MaildirFlagsAdd::new`] builds for a job.
pub uninterp spec fn add_started(job: Job) -> MaildirFlagsAdd;

/// What the next step of the exchange comes to.
pub uninterp spec fn add_step(add: MaildirFlagsAdd, reply: Option<MaildirReply>) -> MaildirOutcome<MaildirFlagsAddError>;

/// The exchange after that step.
pub uninterp spec fn add_left(add: MaildirFlagsAdd, reply: Option<MaildirReply>) -> MaildirFlagsAdd;

/// [`MaildirFlagsAdd::new`].
#[verifier::external_body]
pub(crate) fn add_new(maildir: &Maildir, id: String, flags: &MaildirFlags) -> (r: MaildirFlagsAdd)
    ensures
        r == add_started(job_of(*maildir, id@, *flags)),
{
    MaildirFlagsAdd::new(maildir.clone(), id, flags.clone())
}

/// One step of [`MaildirFlagsAdd`].
#[verifier::external_body]
pub(crate) fn add_resume(add: &mut MaildirFlagsAdd, reply: Option<MaildirReply>) -> (r: EmailCoroutineState<
    MaildirYield,
    Result<(), MaildirFlagsAddError>,
>)
    ensures
        outcome_of(r) == add_step(*old(add), reply),
        *final(add) == add_left(*old(add), reply),
{
    match add.resume(reply) {
        MaildirCoroutineState::Yielded(step) => EmailCoroutineState::Yielded(step),
        MaildirCoroutineState::Complete(result) => EmailCoroutineState::Complete(result),
    }
}

/// The exchange that replaces the flags of one message.
#[verifier::external_type_specification]
#[verifier::external_body]
pub struct ExMaildirFlagsSet(MaildirFlagsSet);

/// Why that exchange failed.
#[verifier::external_type_specification]
#[verifier::external_body]
pub struct ExMaildirFlagsSetError(MaildirFlagsSetError);

/// What [`MaildirFlagsSet::new`] builds for a job.
pub uninterp spec fn replace_started(job: Job) -> MaildirFlagsSet;

/// What the next step of the exchange comes to.
pub uninterp spec fn replace_step(replace: MaildirFlagsSet, reply: Option<MaildirReply>) -> MaildirOutcome<MaildirFlagsSetError>;

/// The exchange after that step.
pub uninterp spec fn replace_left(replace: MaildirFlagsSet, reply: Option<MaildirReply>) -> MaildirFlagsSet;

/// [`MaildirFlagsSet::new`].
#[verifier::external_body]
pub(crate) fn replace_new(maildir: &Maildir, id: String, flags: &MaildirFlags) -> (r: MaildirFlagsSet)
    ensures
        r == replace_started(job_of(*maildir, id@, *flags)),
{
    MaildirFlagsSet::new(maildir.clone(), id, flags.clone())
}

/// One step of [`MaildirFlagsSet`].
#[verifier::external_body]
pub(crate) fn replace_resume(replace: &mut MaildirFlagsSet, reply: Option<MaildirReply>) -> (r: EmailCoroutineState<
    MaildirYield,
    Result<(), MaildirFlagsSetError>,
>)
    ensures
        outcome_of(r) == replace_step(*old(replace), reply),
        *final(replace) == replace_left(*old(replace), reply),
{
    match replace.resume(reply) {
        MaildirCoroutineState::Yielded(step) => EmailCoroutineState::Yielded(step),
        MaildirCoroutineState::Complete(result) => EmailCoroutineState::Complete(result),
    }
}

/// The exchange that removes from the flags of one message.
#[verifier::external_type_specification]
#[verifier::external_body]
pub struct ExMaildirFlagsRemove(MaildirFlagsRemove);

/// Why that exchange failed.
#[verifier::external_type_specification]
#[verifier::external_body]
pub struct ExMaildirFlagsRemoveError(MaildirFlagsRemoveError);

/// What [`MaildirFlagsRemove::new`] builds for a job.
pub uninterp spec fn remove_started(job: Job) -> MaildirFlagsRemove;

/// What the next step of the exchange comes to.
pub uninterp spec fn remove_step(remove: MaildirFlagsRemove, reply: Option<MaildirReply>) -> MaildirOutcome<MaildirFlagsRemoveError>;

/// The exchange after that step.
pub uninterp spec fn remove_left(remove: MaildirFlagsRemove, reply: Option<MaildirReply>) -> MaildirFlagsRemove;

/// [`MaildirFlagsRemove::new`].
#[verifier::external_body]
pub(crate) fn remove_new(maildir: &Maildir, id: String, flags: &MaildirFlags) -> (r: MaildirFlagsRemove)
    ensures
        r == remove_started(job_of(*maildir, id@, *flags)),
{
    MaildirFlagsRemove::new(maildir.clone(), id, flags.clone())
}

/// One step of [`MaildirFlagsRemove`].
#[verifier::external_body]
pub(crate) fn remove_resume(remove: &mut MaildirFlagsRemove, reply: Option<MaildirReply>) -> (r: EmailCoroutineState<
    MaildirYield,
    Result<(), MaildirFlagsRemoveError>,
>)
    ensures
        outcome_of(r) == remove_step(*old(remove), reply),
        *final(remove) == remove_left(*old(remove), reply),
{
    match remove.resume(reply) {
        MaildirCoroutineState::Yielded(step) => EmailCoroutineState::Yielded(step),
        MaildirCoroutineState::Complete(result) => EmailCoroutineState::Complete(result),
    }
}

} // verus!
