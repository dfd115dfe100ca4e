//! JMAP flag set: Email/set replacing the keywords of each email.
use vstd::prelude::*;

use io_jmap::rfc8620::session::JmapSession;
use io_jmap::rfc8621::email::set::{JmapEmailSet, JmapEmailSetError};

use crate::coroutine::{fed, EmailCoroutineState, JmapStep, Outcome};
use crate::flag::types::FlagOp;
use crate::http::{Guarded, HttpFault};
use crate::jmap::flag_store::{store_keywords, store_request};
use crate::jmap::wire::{
    email_set_built, email_set_left, email_set_over, email_set_resume, email_set_step,
    EmailSetOutputView, HttpAuth,
};
use crate::text::texts;

verus! {

/// Result returned by [`FlagSet::resume`].
#[derive(Debug)]
pub enum FlagSetResult {
    Done,
    WantsRead,
    WantsWrite(Vec<u8>),
    Failed(HttpFault<JmapEmailSetError>),
}

/// Whether a result is that for what the Email/set came to, whatever emails
/// the server left unchanged.
pub open spec fn answers(r: FlagSetResult, step: Outcome<EmailSetOutputView, HttpFault<JmapEmailSetError>>) -> bool {
    match step {
        Outcome::Read => r is WantsRead,
        Outcome::Write(bytes) => r matches FlagSetResult::WantsWrite(out) && out@ == bytes,
        Outcome::Done(_) => r is Done,
        Outcome::Failed(err) => r == FlagSetResult::Failed(err),
    }
}

/// I/O-free coroutine replacing keywords of JMAP messages.
pub struct FlagSet {
    inner: Guarded<JmapEmailSet>,
}

impl View for FlagSet {
    type V = Guarded<JmapEmailSet>;

    closed spec fn view(&self) -> Guarded<JmapEmailSet> {
        self.inner
    }
}

impl FlagSet {
    pub fn new(session: &JmapSession, auth: &HttpAuth, ids: &[&str], keywords: &Vec<String>) -> (r: Result<
        FlagSet,
        HttpFault<JmapEmailSetError>,
    >)
        ensures
            ({
                let request = store_request(
                    *session,
                    auth@,
                    texts(ids@),
                    keywords.deep_view(),
                    FlagOp::Replace,
                );
                match email_set_built(request) {
                    Ok(set) => r matches Ok(run) && run@ == set && !email_set_over(set),
                    Err(cause) => r matches Err(err) && err == cause,
                }
            }),
    {
        match store_keywords(session, auth, ids, keywords, FlagOp::Replace) {
            Ok(inner) => Ok(FlagSet { inner }),
            Err(err) => Err(err),
        }
    }

    /// Advances the coroutine, which is not over.
    pub fn resume(&mut self, bytes: Option<&[u8]>) -> (r: FlagSetResult)
        requires
            !email_set_over(old(self)@),
        ensures
            answers(r, email_set_step(old(self)@, fed(bytes))),
            final(self)@ == email_set_left(old(self)@, fed(bytes)),
            r is WantsRead || r is WantsWrite ==> !email_set_over(final(self)@),
    {
        match email_set_resume(&mut self.inner, bytes) {
            EmailCoroutineState::Yielded(JmapStep::WantsRead) => FlagSetResult::WantsRead,
            EmailCoroutineState::Yielded(JmapStep::WantsWrite(out)) => FlagSetResult::WantsWrite(out),
            EmailCoroutineState::Complete(Ok(_)) => FlagSetResult::Done,
            EmailCoroutineState::Complete(Err(err)) => FlagSetResult::Failed(err),
        }
    }
}

} // verus!
