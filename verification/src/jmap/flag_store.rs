//! JMAP flag store: Email/set over the keywords of each email.
use vstd::prelude::*;

use io_imap::codec::fragmentizer::Fragmentizer;
use io_jmap::rfc8620::session::JmapSession;
use io_jmap::rfc8621::email::set::{JmapEmailSet, JmapEmailSetError};

use crate::coroutine::{
    fed, EmailBackend, EmailCoroutine, EmailCoroutineArg, EmailCoroutineState, JmapStep, Outcome,
};
use crate::flag::types::{Flag, FlagOp};
use crate::http::{Guarded, HttpFault};
use crate::jmap::convert::{keywords, keywords_from};
use crate::jmap::patch::{
    each_patched, keyword_args, keyword_patches, keywords_after, law_each_patched, law_keyword_effect,
    law_keywords_leave_mailboxes, mailboxes_after,
};
use crate::jmap::wire::{
    args_destroy, email_set_built, email_set_left, email_set_new, email_set_over,
    email_set_resume, email_set_step, EmailSetOutputView, EmailSetRequest, HttpAuth,
};
use crate::text::texts;

verus! {

/// Errors produced by [`JmapFlagStore`].
#[derive(Debug)]
pub enum JmapFlagStoreError {
    EmailSet(HttpFault<JmapEmailSetError>),
    /// The ids of the emails that the server did not change.
    NotUpdated(Vec<String>),
    InvalidArg,
}

/// I/O-free coroutine adding, replacing or removing flags of JMAP messages.
pub struct JmapFlagStore {
    inner: Guarded<JmapEmailSet>,
}

impl View for JmapFlagStore {
    type V = Guarded<JmapEmailSet>;

    closed spec fn view(&self) -> Guarded<JmapEmailSet> {
        self.inner
    }
}

pub type Answer = Outcome<(), JmapFlagStoreError>;

/// What a resume returns.
pub type Step = EmailCoroutineState<JmapStep, Result<(), JmapFlagStoreError>>;

/// The Email/set that changes keywords: the same change to each email.
pub open spec fn store_request(
    session: JmapSession,
    auth: Seq<char>,
    ids: Seq<Seq<char>>,
    words: Seq<Seq<char>>,
    op: FlagOp,
) -> EmailSetRequest {
    EmailSetRequest {
        session,
        auth,
        patches: each_patched(ids, keyword_patches(op, words)),
        destroy: seq![],
    }
}

/// Starts the Email/set that changes keywords.
pub fn store_keywords(session: &JmapSession, auth: &HttpAuth, ids: &[&str], words: &Vec<String>, op: FlagOp) -> (r:
    Result<Guarded<JmapEmailSet>, HttpFault<JmapEmailSetError>>)
    ensures
        r == email_set_built(
            store_request(*session, auth@, texts(ids@), words.deep_view(), op),
        ),
        r matches Ok(set) ==> !email_set_over(set),
{
    let args = keyword_args(ids, words, op);
    proof {
        let empty: Seq<Seq<char>> = seq![];
        assert(args_destroy(args) =~= empty);
    }
    email_set_new(session, auth, args)
}

/// Whether `answer` is that for what the Email/set came to: a refusal where
/// some email was not changed.
pub open spec fn answers(answer: Answer, step: Outcome<EmailSetOutputView, HttpFault<JmapEmailSetError>>) -> bool {
    match step {
        Outcome::Done(output) => if output.not_updated.len() == 0 {
            answer is Done
        } else {
            answer matches Outcome::Failed(JmapFlagStoreError::NotUpdated(ids)) && ids.deep_view()
                == output.not_updated
        },
        Outcome::Failed(err) => answer == Outcome::<(), _>::Failed(
            JmapFlagStoreError::EmailSet(err),
        ),
        wait => answer.forwards(wait),
    }
}

impl JmapFlagStore {
    /// Email ids are those of the account: the mailbox is not needed.
    pub fn new(
        session: &JmapSession,
        auth: &HttpAuth,
        _mailbox: &str,
        ids: &[&str],
        flags: &[Flag],
        op: FlagOp,
    ) -> (r: Result<JmapFlagStore, JmapFlagStoreError>)
        ensures
            ({
                let request = store_request(*session, auth@, texts(ids@), keywords(flags@), op);
                match email_set_built(request) {
                    Ok(set) => r matches Ok(run) && run@ == set && !email_set_over(set),
                    Err(cause) => r matches Err(err) && err == JmapFlagStoreError::EmailSet(cause),
                }
            }),
    {
        let words = keywords_from(flags);
        match store_keywords(session, auth, ids, &words, op) {
            Ok(inner) => Ok(JmapFlagStore { inner }),
            Err(err) => Err(JmapFlagStoreError::EmailSet(err)),
        }
    }

    /// Advances the coroutine, which is not over: with no bytes at first
    /// and after a write, with what was read after a read.
    pub fn resume(&mut self, bytes: Option<&[u8]>) -> (r: Step)
        requires
            !email_set_over(old(self)@),
        ensures
            answers(r.outcome(), email_set_step(old(self)@, fed(bytes))),
            final(self)@ == email_set_left(old(self)@, fed(bytes)),
            r is Yielded ==> !email_set_over(final(self)@),
    {
        match email_set_resume(&mut self.inner, bytes) {
            EmailCoroutineState::Yielded(step) => EmailCoroutineState::Yielded(step),
            EmailCoroutineState::Complete(Ok(output)) => if output.not_updated.len() == 0 {
                EmailCoroutineState::Complete(Ok(()))
            } else {
                EmailCoroutineState::Complete(
                    Err(JmapFlagStoreError::NotUpdated(output.not_updated)),
                )
            },
            EmailCoroutineState::Complete(Err(err)) => EmailCoroutineState::Complete(
                Err(JmapFlagStoreError::EmailSet(err)),
            ),
        }
    }
}

impl EmailCoroutine for JmapFlagStore {
    type Yield = JmapStep;

    type Return = Result<(), JmapFlagStoreError>;

    const BACKEND: EmailBackend = EmailBackend::Jmap;

    open spec fn ready(self) -> bool {
        !email_set_over(self@)
    }

    open spec fn advances(
        pre: JmapFlagStore,
        arg: EmailCoroutineArg<'_>,
        post: JmapFlagStore,
        left: Option<Fragmentizer>,
        r: Step,
    ) -> bool {
        match arg {
            EmailCoroutineArg::Jmap { bytes } => {
                &&& answers(r.outcome(), email_set_step(pre@, fed(bytes)))
                &&& post@ == email_set_left(pre@, fed(bytes))
                &&& r is Yielded ==> !email_set_over(post@)
            },
            _ => post == pre && r == Step::Complete(Err(JmapFlagStoreError::InvalidArg)),
        }
    }

    fn resume(&mut self, arg: EmailCoroutineArg<'_>) -> (r: Step) {
        match arg {
            EmailCoroutineArg::Jmap { bytes } => JmapFlagStore::resume(self, bytes),
            _ => EmailCoroutineState::Complete(Err(JmapFlagStoreError::InvalidArg)),
        }
    }
}

/// A store is asked for every email that was named and no other: it adds the
/// keywords, takes them off or puts them in the place of all, and neither moves
/// nor destroys an email.
pub proof fn law_store_is_what_was_asked_for(
    session: JmapSession,
    auth: Seq<char>,
    ids: Seq<Seq<char>>,
    words: Seq<Seq<char>>,
    op: FlagOp,
    id: Seq<char>,
    before: Set<Seq<char>>,
    mailboxes: Set<Seq<char>>,
)
    requires
        ids.no_duplicates(),
        words.len() > 0,
    ensures
        ({
            let request = store_request(session, auth, ids, words, op);
            &&& request.session == session && request.auth == auth && request.destroy.len() == 0
            &&& request.patches.contains_key(id) <==> ids.contains(id)
            &&& ids.contains(id) ==> mailboxes_after(mailboxes, request.patches[id]) == mailboxes
            &&& ids.contains(id) ==> keywords_after(before, request.patches[id]) == match op {
                FlagOp::Add => before.union(words.to_set()),
                FlagOp::Remove => before.difference(words.to_set()),
                FlagOp::Replace => words.to_set(),
            }
        }),
{
    law_each_patched(ids, keyword_patches(op, words));
    law_keyword_effect(op, words, before);
    law_keywords_leave_mailboxes(op, words, mailboxes);
}

/// A store succeeds exactly when the server has carried it out and left no
/// email unchanged; else the emails left are told.
pub proof fn law_success_is_the_servers(
    answer: Answer,
    step: Outcome<EmailSetOutputView, HttpFault<JmapEmailSetError>>,
)
    requires
        answers(answer, step),
    ensures
        answer is Done <==> (step matches Outcome::Done(output) && output.not_updated.len() == 0),
        answer matches Outcome::Failed(JmapFlagStoreError::NotUpdated(ids)) ==> (step matches Outcome::Done(
            output,
        ) && output.not_updated == ids.deep_view() && output.not_updated.len() > 0),
{
}

} // verus!
