//! Maildir flag store: one exchange for each message, which renames its file
//! with the new flags.
use vstd::prelude::*;

use io_maildir::coroutine::{MaildirReply, MaildirYield};
use io_maildir::flag::add::{MaildirFlagsAdd, MaildirFlagsAddError};
use io_maildir::flag::remove::{MaildirFlagsRemove, MaildirFlagsRemoveError};
use io_maildir::flag::set::{MaildirFlagsSet, MaildirFlagsSetError};
use io_maildir::flag::types::MaildirFlags;
use io_maildir::maildir::types::Maildir;

use crate::coroutine::EmailCoroutineState;
use crate::flag::types::FlagOp;
use crate::maildir::wire::{
    add_left, add_new, add_resume, add_started, add_step, clone_maildir, job_of, outcome_of,
    remove_left, remove_new, remove_resume, remove_started, remove_step, replace_left,
    replace_new, replace_resume, replace_started, replace_step, Job, MaildirOutcome,
};
use crate::text::{own_texts, texts};

verus! {

/// Errors produced by [`MaildirFlagStore`].
#[derive(Debug)]
pub enum MaildirFlagStoreError {
    Add(MaildirFlagsAddError),
    Replace(MaildirFlagsSetError),
    Remove(MaildirFlagsRemoveError),
}

/// The exchange for one message.
pub enum Stage {
    Add(MaildirFlagsAdd),
    Replace(MaildirFlagsSet),
    Remove(MaildirFlagsRemove),
}

/// A store under way.
pub struct Storing {
    pub maildir: Maildir,
    pub flags: MaildirFlags,
    pub op: FlagOp,
    /// The messages still to come, from the first to the last.
    pub pending: Seq<Seq<char>>,
    pub current: Option<Stage>,
}

pub type Answer = MaildirOutcome<MaildirFlagStoreError>;

/// What a resume returns.
pub type Step = EmailCoroutineState<MaildirYield, Result<(), MaildirFlagStoreError>>;

impl Stage {
    /// The exchange that starts on a job.
    pub open spec fn started(job: Job, op: FlagOp) -> Stage {
        match op {
            FlagOp::Add => Stage::Add(add_started(job)),
            FlagOp::Replace => Stage::Replace(replace_started(job)),
            FlagOp::Remove => Stage::Remove(remove_started(job)),
        }
    }

    /// What the next step comes to.
    pub open spec fn step(self, reply: Option<MaildirReply>) -> Answer {
        match self {
            Stage::Add(add) => match add_step(add, reply) {
                MaildirOutcome::Yield(step) => MaildirOutcome::Yield(step),
                MaildirOutcome::Done => MaildirOutcome::Done,
                MaildirOutcome::Failed(err) => MaildirOutcome::Failed(
                    MaildirFlagStoreError::Add(err),
                ),
            },
            Stage::Replace(replace) => match replace_step(replace, reply) {
                MaildirOutcome::Yield(step) => MaildirOutcome::Yield(step),
                MaildirOutcome::Done => MaildirOutcome::Done,
                MaildirOutcome::Failed(err) => MaildirOutcome::Failed(
                    MaildirFlagStoreError::Replace(err),
                ),
            },
            Stage::Remove(remove) => match remove_step(remove, reply) {
                MaildirOutcome::Yield(step) => MaildirOutcome::Yield(step),
                MaildirOutcome::Done => MaildirOutcome::Done,
                MaildirOutcome::Failed(err) => MaildirOutcome::Failed(
                    MaildirFlagStoreError::Remove(err),
                ),
            },
        }
    }

    /// The exchange after that step.
    pub open spec fn left(self, reply: Option<MaildirReply>) -> Stage {
        match self {
            Stage::Add(add) => Stage::Add(add_left(add, reply)),
            Stage::Replace(replace) => Stage::Replace(replace_left(replace, reply)),
            Stage::Remove(remove) => Stage::Remove(remove_left(remove, reply)),
        }
    }

    fn start(maildir: &Maildir, id: String, flags: &MaildirFlags, op: FlagOp) -> (r: Stage)
        ensures
            r == Stage::started(job_of(*maildir, id@, *flags), op),
    {
        match op {
            FlagOp::Add => Stage::Add(add_new(maildir, id, flags)),
            FlagOp::Replace => Stage::Replace(replace_new(maildir, id, flags)),
            FlagOp::Remove => Stage::Remove(remove_new(maildir, id, flags)),
        }
    }

    fn resume_passthrough(self, reply: Option<MaildirReply>) -> (r: (Stage, Step))
        ensures
            r.0 == self.left(reply),
            outcome_of(r.1) == self.step(reply),
    {
        match self {
            Stage::Add(mut add) => {
                let step = match add_resume(&mut add, reply) {
                    EmailCoroutineState::Yielded(step) => EmailCoroutineState::Yielded(step),
                    EmailCoroutineState::Complete(Ok(())) => EmailCoroutineState::Complete(Ok(())),
                    EmailCoroutineState::Complete(Err(err)) => EmailCoroutineState::Complete(
                        Err(MaildirFlagStoreError::Add(err)),
                    ),
                };
                (Stage::Add(add), step)
            },
            Stage::Replace(mut replace) => {
                let step = match replace_resume(&mut replace, reply) {
                    EmailCoroutineState::Yielded(step) => EmailCoroutineState::Yielded(step),
                    EmailCoroutineState::Complete(Ok(())) => EmailCoroutineState::Complete(Ok(())),
                    EmailCoroutineState::Complete(Err(err)) => EmailCoroutineState::Complete(
                        Err(MaildirFlagStoreError::Replace(err)),
                    ),
                };
                (Stage::Replace(replace), step)
            },
            Stage::Remove(mut remove) => {
                let step = match remove_resume(&mut remove, reply) {
                    EmailCoroutineState::Yielded(step) => EmailCoroutineState::Yielded(step),
                    EmailCoroutineState::Complete(Ok(())) => EmailCoroutineState::Complete(Ok(())),
                    EmailCoroutineState::Complete(Err(err)) => EmailCoroutineState::Complete(
                        Err(MaildirFlagStoreError::Remove(err)),
                    ),
                };
                (Stage::Remove(remove), step)
            },
        }
    }
}

impl Storing {
    /// The store with the first of the messages to come under way.
    pub open spec fn begun(self) -> Storing {
        Storing {
            pending: self.pending.skip(1),
            current: Some(
                Stage::started(job_of(self.maildir, self.pending[0], self.flags), self.op),
            ),
            ..self
        }
    }

    /// Where a resume leaves the store and what it answers: messages one
    /// after the other until one waits or fails, or all are done.
    pub open spec fn resumed(self, reply: Option<MaildirReply>) -> (Storing, Answer)
        decreases
            self.pending.len(),
            if self.current is Some {
                1int
            } else {
                0int
            },
    {
        match self.current {
            Some(stage) => match stage.step(reply) {
                MaildirOutcome::Done => (Storing { current: None, ..self }).resumed(None),
                answer => (Storing { current: Some(stage.left(reply)), ..self }, answer),
            },
            None => if self.pending.len() == 0 {
                (self, MaildirOutcome::Done)
            } else {
                self.begun().resumed(reply)
            },
        }
    }
}

/// I/O-free coroutine changing the flags of Maildir messages one after the
/// other.
pub struct MaildirFlagStore {
    maildir: Maildir,
    flags: MaildirFlags,
    op: FlagOp,
    pending: Vec<String>,
    current: Option<Stage>,
}

impl View for MaildirFlagStore {
    type V = Storing;

    closed spec fn view(&self) -> Storing {
        Storing {
            maildir: self.maildir,
            flags: self.flags,
            op: self.op,
            pending: self.pending.deep_view(),
            current: self.current,
        }
    }
}

impl MaildirFlagStore {
    pub fn new(maildir: &Maildir, ids: &[&str], flags: MaildirFlags, op: FlagOp) -> (r: MaildirFlagStore)
        ensures
            r@ == (Storing { maildir: *maildir, flags, op, pending: texts(ids@), current: None }),
    {
        MaildirFlagStore {
            maildir: clone_maildir(maildir),
            flags,
            op,
            pending: own_texts(ids),
            current: None,
        }
    }

    /// Advances the coroutine: with no reply at first, then with the reply
    /// to what it asked for.
    pub fn resume(&mut self, reply: Option<MaildirReply>) -> (r: Step)
        ensures
            (final(self)@, outcome_of(r)) == old(self)@.resumed(reply),
        decreases
            old(self)@.pending.len(),
            if old(self)@.current is Some {
                1int
            } else {
                0int
            },
    {
        let ghost pre = self@;
        let mut current: Option<Stage> = None;
        core::mem::swap(&mut self.current, &mut current);
        match current {
            Some(stage) => {
                let (left, step) = stage.resume_passthrough(reply);
                match step {
                    EmailCoroutineState::Complete(Ok(())) => self.resume(None),
                    step => {
                        self.current = Some(left);
                        step
                    },
                }
            },
            None => {
                if self.pending.len() == 0 {
                    return EmailCoroutineState::Complete(Ok(()));
                }
                let id = self.pending.remove(0);
                proof {
                    assert(self.pending.deep_view() =~= pre.pending.skip(1));
                    assert(id@ == pre.pending[0]);
                }
                self.current = Some(Stage::start(&self.maildir, id, &self.flags, self.op));
                self.resume(reply)
            },
        }
    }
}

/// A store succeeds only once every message is done: none is left pending
/// or under way.
pub proof fn law_done_means_all(store: Storing, reply: Option<MaildirReply>)
    ensures
        store.resumed(reply).1 is Done ==> store.resumed(reply).0.pending.len() == 0 && store.resumed(
            reply,
        ).0.current is None,
    decreases
            store.pending.len(),
            if store.current is Some {
                1int
            } else {
                0int
            },
{
    match store.current {
        Some(stage) => {
            if stage.step(reply) is Done {
                law_done_means_all(Storing { current: None, ..store }, None);
            }
        },
        None => {
            if store.pending.len() > 0 {
                law_done_means_all(store.begun(), reply);
            }
        },
    }
}

/// Adding, replacing and removing are each done by the exchange for it, and
/// for the message, the Maildir and the flags that were asked for.
pub proof fn law_operation_is_the_one_asked_for(store: Storing)
    requires
        store.pending.len() > 0,
    ensures
        ({
            let job = Job { maildir: store.maildir, id: store.pending[0], flags: store.flags };
            match store.begun().current {
                Some(Stage::Add(add)) => store.op == FlagOp::Add && add == add_started(job),
                Some(Stage::Replace(replace)) => store.op == FlagOp::Replace && replace
                    == replace_started(job),
                Some(Stage::Remove(remove)) => store.op == FlagOp::Remove && remove == remove_started(job),
                None => false,
            }
        }),
{
}

/// Messages are taken in their order and none is passed over: what is still
/// to come is the end of what was, and the operation stays.
pub proof fn law_messages_in_order(store: Storing, reply: Option<MaildirReply>)
    ensures
        store.resumed(reply).0.op == store.op,
        store.resumed(reply).0.flags == store.flags,
        store.resumed(reply).0.maildir == store.maildir,
        exists|n: int|
            0 <= n <= store.pending.len() && store.resumed(reply).0.pending == #[trigger] store.pending.skip(
                n,
            ),
        store.current is Some && !(store.current->0.step(reply) is Done) ==> store.resumed(reply).0.pending
            == store.pending && store.resumed(reply).1 == store.current->0.step(reply),
    decreases
            store.pending.len(),
            if store.current is Some {
                1int
            } else {
                0int
            },
{
    assert(store.pending.skip(0) =~= store.pending);
    match store.current {
        Some(stage) => {
            if stage.step(reply) is Done {
                law_messages_in_order(Storing { current: None, ..store }, None);
            }
        },
        None => {
            if store.pending.len() > 0 {
                law_messages_in_order(store.begun(), reply);
                let rest = store.pending.skip(1);
                let n = choose|n: int|
                    0 <= n <= rest.len() && store.begun().resumed(reply).0.pending == #[trigger] rest.skip(n);
                assert(rest.skip(n) =~= store.pending.skip(n + 1));
            }
        },
    }
}

} // verus!
