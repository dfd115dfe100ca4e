//! JMAP message move: Email/set adding the destination mailbox to each email and
//! taking the source away.
use vstd::prelude::*;

use io_jmap::rfc8620::session::JmapSession;
use io_jmap::rfc8621::email::set::{JmapEmailSet, JmapEmailSetError};

use crate::coroutine::{fed, EmailCoroutineState, JmapStep, Outcome};
use crate::http::{Guarded, HttpFault};
use crate::jmap::patch::{
    each_patched, law_each_patched, law_mailbox_effect, mailbox_args, mailbox_patches, mailboxes_after,
};
use crate::jmap::wire::{
    args_destroy, email_set_built, email_set_left, email_set_new, email_set_over,
    email_set_resume, email_set_step, EmailSetRequest, HttpAuth,
};
use crate::text::texts;

verus! {

/// Errors produced by [`JmapMessageMove`].
#[derive(Debug)]
pub enum JmapMessageMoveError {
    EmailSet(HttpFault<JmapEmailSetError>),
    /// The ids of the emails that the server did not change.
    NotUpdated(Vec<String>),
    ResumedAfterDone,
}

/// Where a move stands.
pub enum State {
    Patching(Guarded<JmapEmailSet>),
    Done,
}

pub type Answer = Outcome<(), JmapMessageMoveError>;

/// What a resume returns.
pub type Step = EmailCoroutineState<JmapStep, Result<(), JmapMessageMoveError>>;

impl State {
    pub open spec fn live(self) -> bool {
        self matches State::Patching(set) ==> !email_set_over(set)
    }

    /// What a resume does: where it leaves the coroutine and what it
    /// answers.
    pub open spec fn resumed(self, bytes: Option<Seq<u8>>, post: State, answer: Answer) -> bool {
        match self {
            State::Patching(set) => match email_set_step(set, bytes) {
                Outcome::Done(output) => post is Done && if output.not_updated.len() == 0 {
                    answer is Done
                } else {
                    answer matches Outcome::Failed(JmapMessageMoveError::NotUpdated(ids))
                        && ids.deep_view() == output.not_updated
                },
                Outcome::Failed(err) => post is Done && answer == Outcome::<(), _>::Failed(
                    JmapMessageMoveError::EmailSet(err),
                ),
                wait => post == State::Patching(email_set_left(set, bytes)) && answer.forwards(wait),
            },
            State::Done => post is Done && answer == Outcome::<(), _>::Failed(
                JmapMessageMoveError::ResumedAfterDone,
            ),
        }
    }
}

/// The Email/set of a move: each email is added
/// to the destination and taken out of the source.
pub open spec fn set_request(
    session: JmapSession,
    auth: Seq<char>,
    from: Seq<char>,
    to: Seq<char>,
    ids: Seq<Seq<char>>,
) -> EmailSetRequest {
    EmailSetRequest {
        session,
        auth,
        patches: each_patched(ids, mailbox_patches(to, Some(from))),
        destroy: seq![],
    }
}

/// I/O-free coroutine moving JMAP messages between mailboxes.
pub struct JmapMessageMove {
    state: State,
}

impl View for JmapMessageMove {
    type V = State;

    closed spec fn view(&self) -> State {
        self.state
    }
}

impl JmapMessageMove {
    #[verifier::type_invariant]
    closed spec fn inv(self) -> bool {
        self.state.live()
    }

    /// `from` and `to` are JMAP mailbox ids.
    pub fn new(session: &JmapSession, auth: &HttpAuth, from: &str, to: &str, ids: &[&str]) -> (r: Result<
        JmapMessageMove,
        JmapMessageMoveError,
    >)
        ensures
            ({
                let request = set_request(*session, auth@, from@, to@, texts(ids@));
                match email_set_built(request) {
                    Ok(set) => r matches Ok(run) && run@ == State::Patching(set),
                    Err(cause) => r matches Err(err) && err == JmapMessageMoveError::EmailSet(cause),
                }
            }),
    {
        let args = mailbox_args(ids, to, Some(from));
        proof {
            let empty: Seq<Seq<char>> = seq![];
            assert(args_destroy(args) =~= empty);
        }
        match email_set_new(session, auth, args) {
            Ok(set) => Ok(JmapMessageMove { state: State::Patching(set) }),
            Err(err) => Err(JmapMessageMoveError::EmailSet(err)),
        }
    }

    /// Advances the coroutine: with no bytes at first and after a write,
    /// with what was read after a read.
    pub fn resume(&mut self, bytes: Option<&[u8]>) -> (r: Step)
        ensures
            old(self)@.resumed(fed(bytes), final(self)@, r.outcome()),
    {
        proof {
            use_type_invariant(&*self);
        }
        let mut state = State::Done;
        core::mem::swap(&mut self.state, &mut state);
        match state {
            State::Patching(mut set) => match email_set_resume(&mut set, bytes) {
                EmailCoroutineState::Yielded(step) => {
                    self.state = State::Patching(set);
                    EmailCoroutineState::Yielded(step)
                },
                EmailCoroutineState::Complete(Ok(output)) => if output.not_updated.len() == 0 {
                    EmailCoroutineState::Complete(Ok(()))
                } else {
                    EmailCoroutineState::Complete(
                        Err(JmapMessageMoveError::NotUpdated(output.not_updated)),
                    )
                },
                EmailCoroutineState::Complete(Err(err)) => EmailCoroutineState::Complete(
                    Err(JmapMessageMoveError::EmailSet(err)),
                ),
            },
            State::Done => EmailCoroutineState::Complete(
                Err(JmapMessageMoveError::ResumedAfterDone),
            ),
        }
    }
}

/// A move is asked for every email that was named and no other: it puts each
/// into the destination, takes it out of the source alone and destroys none.
pub proof fn law_move_is_what_was_asked_for(
    session: JmapSession,
    auth: Seq<char>,
    from: Seq<char>,
    to: Seq<char>,
    ids: Seq<Seq<char>>,
    id: Seq<char>,
    before: Set<Seq<char>>,
    mailbox: Seq<char>,
)
    requires
        ids.no_duplicates(),
    ensures
        ({
            let request = set_request(session, auth, from, to, ids);
            &&& request.session == session && request.auth == auth && request.destroy.len() == 0
            &&& request.patches.contains_key(id) <==> ids.contains(id)
            &&& ids.contains(id) ==> (mailboxes_after(before, request.patches[id]).contains(mailbox)
                <==> mailbox != from && (mailbox == to || before.contains(mailbox)))
        }),
{
    law_each_patched(ids, mailbox_patches(to, Some(from)));
    law_mailbox_effect(to, Some(from), before, Set::empty(), mailbox);
}

/// A move succeeds exactly when the server has carried it out and left no email
/// unchanged; else the emails left are told.
pub proof fn law_success_is_the_servers(pre: State, bytes: Option<Seq<u8>>, post: State, answer: Answer)
    requires
        pre.resumed(bytes, post, answer),
    ensures
        answer is Done ==> post is Done,
        answer is Done <==> (pre matches State::Patching(set) && email_set_step(set, bytes) matches Outcome::Done(
            output,
        ) && output.not_updated.len() == 0),
        answer matches Outcome::Failed(JmapMessageMoveError::NotUpdated(ids)) ==> (
        pre matches State::Patching(set) && email_set_step(set, bytes) matches Outcome::Done(output)
            && output.not_updated == ids.deep_view() && output.not_updated.len() > 0),
{
}

} // verus!
