//! JMAP flag delete: Email/set unsetting each keyword on each email.
use vstd::prelude::*;

use io_jmap::rfc8620::session::JmapSession;
use io_jmap::rfc8621::email::set::{JmapEmailSet, JmapEmailSetError};

use crate::coroutine::{fed, EmailCoroutineState, JmapStep, Outcome};
use crate::flag::types::FlagOp;
use crate::http::{Guarded, HttpFault};
use crate::jmap::flag_store::{store_keywords, store_request};
use crate::jmap::wire::{
    email_set_built, email_set_left, email_set_over, email_set_resume, email_set_step,
    EmailSetOutputView, HttpAuth,
};
use crate::text::texts;

verus! {

/// Result returned by [`FlagDelete::resume`].
#[derive(Debug)]
pub enum FlagDeleteResult {
    Done,
    WantsRead,
    WantsWrite(Vec<u8>),
    Failed(HttpFault<JmapEmailSetError>),
}

/// Whether a result is that for what the Email/set came to, whatever emails
/// the server left unchanged.
pub open spec fn answers(r: FlagDeleteResult, step: Outcome<EmailSetOutputView, HttpFault<JmapEmailSetError>>) -> bool {
    match step {
        Outcome::Read => r is WantsRead,
        Outcome::Write(bytes) => r matches FlagDeleteResult::WantsWrite(out) && out@ == bytes,
        Outcome::Done(_) => r is Done,
        Outcome::Failed(err) => r == FlagDeleteResult::Failed(err),
    }
}

/// I/O-free coroutine removing keywords of JMAP messages.
pub struct FlagDelete {
    inner: Guarded<JmapEmailSet>,
}

impl View for FlagDelete {
    type V = Guarded<JmapEmailSet>;

    closed spec fn view(&self) -> Guarded<JmapEmailSet> {
        self.inner
    }
}

impl FlagDelete {
    pub fn new(session: &JmapSession, auth: &HttpAuth, ids: &[&str], keywords: &Vec<String>) -> (r: Result<
        FlagDelete,
        HttpFault<JmapEmailSetError>,
    >)
        ensures
            ({
                let request = store_request(
                    *session,
                    auth@,
                    texts(ids@),
                    keywords.deep_view(),
                    FlagOp::Remove,
                );
                match email_set_built(request) {
                    Ok(set) => r matches Ok(run) && run@ == set && !email_set_over(set),
                    Err(cause) => r matches Err(err) && err == cause,
                }
            }),
    {
        match store_keywords(session, auth, ids, keywords, FlagOp::Remove) {
            Ok(inner) => Ok(FlagDelete { inner }),
            Err(err) => Err(err),
        }
    }

    /// Advances the coroutine, which is not over.
    pub fn resume(&mut self, bytes: Option<&[u8]>) -> (r: FlagDeleteResult)
        requires
            !email_set_over(old(self)@),
        ensures
            answers(r, email_set_step(old(self)@, fed(bytes))),
            final(self)@ == email_set_left(old(self)@, fed(bytes)),
            r is WantsRead || r is WantsWrite ==> !email_set_over(final(self)@),
    {
        match email_set_resume(&mut self.inner, bytes) {
            EmailCoroutineState::Yielded(JmapStep::WantsRead) => FlagDeleteResult::WantsRead,
            EmailCoroutineState::Yielded(JmapStep::WantsWrite(out)) => FlagDeleteResult::WantsWrite(out),
            EmailCoroutineState::Complete(Ok(_)) => FlagDeleteResult::Done,
            EmailCoroutineState::Complete(Err(err)) => FlagDeleteResult::Failed(err),
        }
    }
}

} // verus!
