//! JMAP message send: blob upload, then Email/import into the drafts
//! mailbox with the `$draft` keyword, then EmailSubmission/set with the
//! given identity.
use vstd::prelude::*;

use io_imap::codec::fragmentizer::Fragmentizer;
use io_jmap::rfc8620::blob_upload::{JmapBlobUpload, JmapBlobUploadError};
use io_jmap::rfc8620::session::JmapSession;
use io_jmap::rfc8621::email::import::{JmapEmailImport, JmapEmailImportError};
use io_jmap::rfc8621::email_submission::set::{
    JmapEmailSubmissionSet, JmapEmailSubmissionSetError,
};

use crate::coroutine::{
    fed, hands_over, resumed, EmailBackend, EmailCoroutine, EmailCoroutineArg, EmailCoroutineState,
    JmapStep, Outcome, Stages,
};
use crate::http::{Guarded, HttpFault};
use crate::jmap::blob_url::{resolve_upload_url, upload_url};
use crate::jmap::wire::{
    clone_session, import_built, import_left, import_new, import_over, import_resume, import_step,
    submission_built, submission_left, submission_new, submission_over, submission_resume,
    submission_step, upload_built, upload_left, upload_new, upload_over, upload_resume,
    upload_step, url_of, HttpAuth, ImportOutput, ImportOutputView, ImportRequest,
    SubmissionRequest, UploadRequest, Uploaded, UploadedView,
};
use crate::text::{find_row, row};

verus! {

/// Errors produced by [`JmapMessageSend`].
#[derive(Debug)]
pub enum JmapMessageSendError {
    BlobUpload(HttpFault<JmapBlobUploadError>),
    Import(HttpFault<JmapEmailImportError>),
    Submit(HttpFault<JmapEmailSubmissionSetError>),
    NotImported,
    MissingImportedEmailId,
    UnsupportedRedirect,
    NotSubmitted,
    InvalidUploadUrl(String),
    InvalidArg,
    ResumedAfterDone,
}

/// Where a send stands.
pub enum State {
    Uploading(Guarded<JmapBlobUpload>),
    Importing(Guarded<JmapEmailImport>),
    Submitting(Guarded<JmapEmailSubmissionSet>),
    Done,
}

/// What a send goes by after the upload.
pub struct Plan {
    pub identity_id: String,
    pub drafts_mailbox_id: String,
    pub session: JmapSession,
    pub auth: HttpAuth,
}

/// A send under way: its plan and where it stands.
pub struct Sending {
    pub plan: Plan,
    pub state: State,
}

pub type Answer = Outcome<(), JmapMessageSendError>;

/// What a resume returns.
pub type Step = EmailCoroutineState<JmapStep, Result<(), JmapMessageSendError>>;

impl Plan {
    /// The import of an uploaded message: into the drafts, as a draft.
    pub open spec fn import(self, blob_id: Seq<char>) -> ImportRequest {
        ImportRequest {
            session: self.session,
            auth: self.auth@,
            client_id: "outgoing"@,
            blob_id,
            mailbox: self.drafts_mailbox_id@,
            keywords: Some(set!["$draft"@]),
        }
    }

    /// The submission of an imported message.
    pub open spec fn submission(self, email_id: Seq<char>) -> SubmissionRequest {
        SubmissionRequest {
            session: self.session,
            auth: self.auth@,
            client_id: "outgoing"@,
            identity_id: self.identity_id@,
            email_id,
        }
    }
}

/// The email that an import created.
pub open spec fn imported(output: ImportOutputView) -> Result<Seq<char>, JmapMessageSendError> {
    if output.not_created.len() > 0 {
        Err(JmapMessageSendError::NotImported)
    } else {
        match row(output.created, "outgoing"@) {
            None => Err(JmapMessageSendError::NotImported),
            Some(None) => Err(JmapMessageSendError::MissingImportedEmailId),
            Some(Some(id)) => Ok(id),
        }
    }
}

/// Picks the imported email's id out of the server's response.
pub fn imported_id(output: &ImportOutput) -> (r: Result<String, JmapMessageSendError>)
    ensures
        match r {
            Ok(id) => imported(output.deep_view()) == Ok::<_, JmapMessageSendError>(id@),
            Err(err) => imported(output.deep_view()) == Err::<Seq<char>, _>(err),
        },
{
    if output.not_created.len() > 0 {
        return Err(JmapMessageSendError::NotImported);
    }
    match find_row(&output.created, "outgoing") {
        None => Err(JmapMessageSendError::NotImported),
        Some(None) => Err(JmapMessageSendError::MissingImportedEmailId),
        Some(Some(id)) => Ok(id.clone()),
    }
}

impl State {
    pub open spec fn live(self) -> bool {
        match self {
            State::Uploading(upload) => !upload_over(upload),
            State::Importing(import) => !import_over(import),
            State::Submitting(submission) => !submission_over(submission),
            State::Done => true,
        }
    }
}

impl Stages for Sending {
    type Context = ();

    type Answer = Answer;

    open spec fn rank(self) -> nat {
        match self.state {
            State::Uploading(_) => 3,
            State::Importing(_) => 2,
            State::Submitting(_) => 1,
            State::Done => 0,
        }
    }

    open spec fn stage(self, context: (), bytes: Option<Seq<u8>>, post: Sending, left: (), answer: Option<Answer>) -> bool {
        &&& post.plan == self.plan
        &&& match self.state {
            State::Uploading(upload) => match upload_step(upload, bytes) {
                Outcome::Done(UploadedView::Blob(blob_id)) => {
                    match import_built(self.plan.import(blob_id)) {
                        Err(err) => post.state is Done && answer == Some(
                            Outcome::<(), _>::Failed(JmapMessageSendError::Import(err)),
                        ),
                        Ok(import) => answer is None && post.state == State::Importing(import),
                    }
                },
                Outcome::Done(UploadedView::Redirect) => post.state is Done && answer == Some(
                    Outcome::<(), _>::Failed(JmapMessageSendError::UnsupportedRedirect),
                ),
                Outcome::Failed(err) => post.state is Done && answer == Some(
                    Outcome::<(), _>::Failed(JmapMessageSendError::BlobUpload(err)),
                ),
                wait => {
                    &&& post.state == State::Uploading(upload_left(upload, bytes))
                    &&& answer is Some && answer->0.forwards(wait)
                },
            },
            State::Importing(import) => match import_step(import, bytes) {
                Outcome::Done(output) => match imported(output) {
                    Ok(email_id) => {
                        match submission_built(self.plan.submission(email_id)) {
                            Err(err) => post.state is Done && answer == Some(
                                Outcome::<(), _>::Failed(JmapMessageSendError::Submit(err)),
                            ),
                            Ok(submission) => answer is None && post.state == State::Submitting(
                                submission,
                            ),
                        }
                    },
                    Err(err) => post.state is Done && answer == Some(Outcome::<(), _>::Failed(err)),
                },
                Outcome::Failed(err) => post.state is Done && answer == Some(
                    Outcome::<(), _>::Failed(JmapMessageSendError::Import(err)),
                ),
                wait => {
                    &&& post.state == State::Importing(import_left(import, bytes))
                    &&& answer is Some && answer->0.forwards(wait)
                },
            },
            State::Submitting(submission) => match submission_step(submission, bytes) {
                Outcome::Done(not_created) => post.state is Done && answer == Some(
                    if not_created.len() > 0 {
                        Outcome::Failed(JmapMessageSendError::NotSubmitted)
                    } else {
                        Outcome::Done(())
                    },
                ),
                Outcome::Failed(err) => post.state is Done && answer == Some(
                    Outcome::<(), _>::Failed(JmapMessageSendError::Submit(err)),
                ),
                wait => {
                    &&& post.state == State::Submitting(submission_left(submission, bytes))
                    &&& answer is Some && answer->0.forwards(wait)
                },
            },
            State::Done => post.state is Done && answer == Some(
                Outcome::<(), _>::Failed(JmapMessageSendError::ResumedAfterDone),
            ),
        }
    }
}

/// I/O-free coroutine queuing a JMAP message for delivery.
pub struct JmapMessageSend {
    plan: Plan,
    state: State,
}

impl View for JmapMessageSend {
    type V = Sending;

    closed spec fn view(&self) -> Sending {
        Sending { plan: self.plan, state: self.state }
    }
}

impl JmapMessageSend {
    #[verifier::type_invariant]
    closed spec fn inv(self) -> bool {
        self.state.live()
    }

    pub fn new(
        session: &JmapSession,
        auth: &HttpAuth,
        identity_id: &str,
        drafts_mailbox_id: &str,
        raw: Vec<u8>,
    ) -> (r: Result<JmapMessageSend, JmapMessageSendError>)
        ensures
            match r {
                Ok(run) => {
                    &&& url_of(upload_url(*session)) matches Some(url) && run@.state
                        == State::Uploading(
                        upload_built(UploadRequest {
                            auth: auth@,
                            url,
                            content_type: "message/rfc822"@,
                            data: raw@,
                        }),
                    )
                    &&& run@.plan.identity_id@ == identity_id@
                    &&& run@.plan.drafts_mailbox_id@ == drafts_mailbox_id@
                    &&& run@.plan.session == *session
                    &&& run@.plan.auth@ == auth@
                },
                Err(JmapMessageSendError::InvalidUploadUrl(text)) => url_of(upload_url(*session)) is None
                    && text@ == upload_url(*session),
                Err(_) => false,
            },
    {
        match resolve_upload_url(session) {
            Ok(url) => {
                let upload = upload_new(auth, &url, "message/rfc822", raw);
                let plan = Plan {
                    identity_id: identity_id.to_owned(),
                    drafts_mailbox_id: drafts_mailbox_id.to_owned(),
                    session: clone_session(session),
                    auth: auth.clone(),
                };
                Ok(JmapMessageSend { plan, state: State::Uploading(upload) })
            },
            Err(text) => Err(JmapMessageSendError::InvalidUploadUrl(text)),
        }
    }

    /// Starts the import of the uploaded message.
    fn import(&self, blob_id: String) -> (r: Result<Guarded<JmapEmailImport>, HttpFault<JmapEmailImportError>>)
        ensures
            r == import_built(self@.plan.import(blob_id@)),
            r matches Ok(import) ==> !import_over(import),
    {
        let mut keywords: Vec<String> = Vec::new();
        keywords.push("$draft".to_owned());
        proof {
            let words = keywords.deep_view();
            assert(words =~= seq!["$draft"@]);
            assert(words[0] == "$draft"@);
            assert(words.to_set() =~= set!["$draft"@]);
        }
        import_new(
            &self.plan.session,
            &self.plan.auth,
            "outgoing",
            blob_id,
            self.plan.drafts_mailbox_id.as_str(),
            Some(keywords),
        )
    }

    /// Advances the coroutine: with no bytes at first and after a write,
    /// with what was read after a read.
    pub fn resume(&mut self, bytes: Option<&[u8]>) -> (r: Step)
        ensures
            resumed(old(self)@, (), fed(bytes), final(self)@, (), r.outcome()),
        decreases old(self)@.rank(),
    {
        proof {
            use_type_invariant(&*self);
        }
        let ghost pre = self@;
        let mut state = State::Done;
        core::mem::swap(&mut self.state, &mut state);
        match state {
            State::Uploading(mut upload) => match upload_resume(&mut upload, bytes) {
                EmailCoroutineState::Yielded(step) => {
                    self.state = State::Uploading(upload);
                    EmailCoroutineState::Yielded(step)
                },
                EmailCoroutineState::Complete(Ok(Uploaded::Blob(blob_id))) => {
                    match self.import(blob_id) {
                        Ok(import) => {
                            self.state = State::Importing(import);
                            proof {
                                assert(hands_over(pre, (), fed(bytes), self@, ()));
                            }
                            self.resume(None)
                        },
                        Err(err) => EmailCoroutineState::Complete(
                            Err(JmapMessageSendError::Import(err)),
                        ),
                    }
                },
                EmailCoroutineState::Complete(Ok(Uploaded::Redirect)) => EmailCoroutineState::Complete(
                    Err(JmapMessageSendError::UnsupportedRedirect),
                ),
                EmailCoroutineState::Complete(Err(err)) => EmailCoroutineState::Complete(
                    Err(JmapMessageSendError::BlobUpload(err)),
                ),
            },
            State::Importing(mut import) => match import_resume(&mut import, bytes) {
                EmailCoroutineState::Yielded(step) => {
                    self.state = State::Importing(import);
                    EmailCoroutineState::Yielded(step)
                },
                EmailCoroutineState::Complete(Ok(output)) => match imported_id(&output) {
                    Ok(email_id) => match submission_new(
                        &self.plan.session,
                        &self.plan.auth,
                        "outgoing",
                        self.plan.identity_id.as_str(),
                        email_id,
                    ) {
                        Ok(submission) => {
                            self.state = State::Submitting(submission);
                            proof {
                                assert(hands_over(pre, (), fed(bytes), self@, ()));
                            }
                            self.resume(None)
                        },
                        Err(err) => EmailCoroutineState::Complete(
                            Err(JmapMessageSendError::Submit(err)),
                        ),
                    },
                    Err(err) => EmailCoroutineState::Complete(Err(err)),
                },
                EmailCoroutineState::Complete(Err(err)) => EmailCoroutineState::Complete(
                    Err(JmapMessageSendError::Import(err)),
                ),
            },
            State::Submitting(mut submission) => match submission_resume(&mut submission, bytes) {
                EmailCoroutineState::Yielded(step) => {
                    self.state = State::Submitting(submission);
                    EmailCoroutineState::Yielded(step)
                },
                EmailCoroutineState::Complete(Ok(not_created)) => {
                    if not_created.len() > 0 {
                        EmailCoroutineState::Complete(Err(JmapMessageSendError::NotSubmitted))
                    } else {
                        EmailCoroutineState::Complete(Ok(()))
                    }
                },
                EmailCoroutineState::Complete(Err(err)) => EmailCoroutineState::Complete(
                    Err(JmapMessageSendError::Submit(err)),
                ),
            },
            State::Done => EmailCoroutineState::Complete(
                Err(JmapMessageSendError::ResumedAfterDone),
            ),
        }
    }
}

impl EmailCoroutine for JmapMessageSend {
    type Yield = JmapStep;

    type Return = Result<(), JmapMessageSendError>;

    const BACKEND: EmailBackend = EmailBackend::Jmap;

    open spec fn ready(self) -> bool {
        true
    }

    open spec fn advances(
        pre: JmapMessageSend,
        arg: EmailCoroutineArg<'_>,
        post: JmapMessageSend,
        left: Option<Fragmentizer>,
        r: Step,
    ) -> bool {
        match arg {
            EmailCoroutineArg::Jmap { bytes } => resumed(pre@, (), fed(bytes), post@, (), r.outcome()),
            _ => post == pre && r == Step::Complete(Err(JmapMessageSendError::InvalidArg)),
        }
    }

    fn resume(&mut self, arg: EmailCoroutineArg<'_>) -> (r: Step) {
        match arg {
            EmailCoroutineArg::Jmap { bytes } => JmapMessageSend::resume(self, bytes),
            _ => EmailCoroutineState::Complete(Err(JmapMessageSendError::InvalidArg)),
        }
    }
}

/// A message is sent exactly when the server has taken the submission of the
/// email that it imported from the upload.
pub proof fn law_success_is_the_servers(
    pre: Sending,
    context: (),
    bytes: Option<Seq<u8>>,
    post: Sending,
    left: (),
    answer: Answer,
)
    requires
        resumed(pre, context, bytes, post, left, answer),
    ensures
        answer is Done ==> post.state is Done && !(pre.state is Done),
        pre.state matches State::Submitting(submission) ==> (answer is Done <==> (submission_step(
            submission,
            bytes,
        ) matches Outcome::Done(refused) && refused.len() == 0)),
        pre.state matches State::Importing(import) ==> (answer is Done ==> (import_step(
            import,
            bytes,
        ) matches Outcome::Done(output) && output.not_created.len() == 0 && (row(
            output.created,
            pre.plan.import(seq![]).client_id,
        ) matches Some(Some(id)) && (submission_built(pre.plan.submission(id)) matches Ok(submission)
            && submission_step(submission, None) is Done)))),
        pre.state matches State::Uploading(upload) ==> (answer is Done ==> (upload_step(
            upload,
            bytes,
        ) matches Outcome::Done(UploadedView::Blob(blob_id)) && (import_built(
            pre.plan.import(blob_id),
        ) matches Ok(import) && import_step(import, None) is Done))),
    decreases pre.rank(),
{
    if !pre.stage(context, bytes, post, left, Some(answer)) {
        let (mid, between) = choose|mid: Sending, between: ()|
            #[trigger] hands_over(pre, context, bytes, mid, between) && resumed(
                mid,
                between,
                None,
                post,
                left,
                answer,
            );
        law_success_is_the_servers(mid, between, None, post, left, answer);
    }
}

/// What is submitted is the email that was imported, under the identity that
/// was asked for; it is imported as a draft, among the drafts.
pub proof fn law_submission_is_what_was_asked_for(plan: Plan, blob_id: Seq<char>, email_id: Seq<char>, word: Seq<char>)
    ensures
        plan.import(blob_id).blob_id == blob_id,
        plan.import(blob_id).mailbox == plan.drafts_mailbox_id@,
        (plan.import(blob_id).keywords matches Some(words) && words.contains(word)) <==> word
            == "$draft"@,
        plan.submission(email_id).email_id == email_id,
        plan.submission(email_id).identity_id == plan.identity_id@,
        plan.submission(email_id).session == plan.session && plan.import(blob_id).session
            == plan.session,
        plan.submission(email_id).auth == plan.auth@ && plan.import(blob_id).auth == plan.auth@,
{
}

/// What an exchange waits for is passed on as it is, and what it fails with is
/// told and ends the run; a run that is over stays over.
pub proof fn law_waits_and_failures_are_told(
    pre: Sending,
    context: (),
    bytes: Option<Seq<u8>>,
    post: Sending,
    left: (),
    answer: Answer,
)
    requires
        resumed(pre, context, bytes, post, left, answer),
    ensures
        pre.state matches State::Uploading(upload) ==> {
            &&& upload_step(upload, bytes) is Read ==> answer is Read
            &&& upload_step(upload, bytes) matches Outcome::Write(out) ==> answer == Answer::Write(out)
            &&& upload_step(upload, bytes) matches Outcome::Failed(err) ==> post.state is Done && answer == Answer::Failed(
                JmapMessageSendError::BlobUpload(err),
            )
        },
        pre.state matches State::Importing(import) ==> {
            &&& import_step(import, bytes) is Read ==> answer is Read
            &&& import_step(import, bytes) matches Outcome::Write(out) ==> answer == Answer::Write(out)
            &&& import_step(import, bytes) matches Outcome::Failed(err) ==> post.state is Done && answer == Answer::Failed(
                JmapMessageSendError::Import(err),
            )
        },
        pre.state matches State::Submitting(submission) ==> {
            &&& submission_step(submission, bytes) is Read ==> answer is Read
            &&& submission_step(submission, bytes) matches Outcome::Write(out) ==> answer == Answer::Write(out)
            &&& submission_step(submission, bytes) matches Outcome::Failed(err) ==> post.state is Done && answer == Answer::Failed(
                JmapMessageSendError::Submit(err),
            )
        },
        pre.state is Done ==> post.state is Done && answer == Answer::Failed(JmapMessageSendError::ResumedAfterDone),
{
    if !pre.stage(context, bytes, post, left, Some(answer)) {
        let (mid, between) = choose|mid: Sending, between: ()|
            #[trigger] hands_over(pre, context, bytes, mid, between) && resumed(
                mid,
                between,
                None,
                post,
                left,
                answer,
            );
        assert(pre.stage(context, bytes, mid, between, None));
    }
}

/// An upload that was sent elsewhere, an email that the server did not import
/// or gave no id, and a submission that it did not take, are told as such.
pub proof fn law_refusals_are_told(
    pre: Sending,
    context: (),
    bytes: Option<Seq<u8>>,
    post: Sending,
    left: (),
    answer: Answer,
)
    requires
        resumed(pre, context, bytes, post, left, answer),
    ensures
        pre.state matches State::Uploading(upload) ==> (upload_step(upload, bytes) == Outcome::<
            _,
            HttpFault<JmapBlobUploadError>,
        >::Done(UploadedView::Redirect) ==> answer == Answer::Failed(
            JmapMessageSendError::UnsupportedRedirect,
        )),
        pre.state matches State::Importing(import) ==> (import_step(import, bytes) matches Outcome::Done(
            output,
        ) ==> {
            let given = row(output.created, pre.plan.import(seq![]).client_id);
            &&& output.not_created.len() > 0 || given is None ==> answer == Answer::Failed(
                JmapMessageSendError::NotImported,
            )
            &&& output.not_created.len() == 0 && given == Some(None::<Seq<char>>) ==> answer
                == Answer::Failed(JmapMessageSendError::MissingImportedEmailId)
        }),
        pre.state matches State::Submitting(submission) ==> (submission_step(
            submission,
            bytes,
        ) matches Outcome::Done(refused) ==> (answer == Answer::Failed(
            JmapMessageSendError::NotSubmitted,
        ) <==> refused.len() > 0)),
{
    if !pre.stage(context, bytes, post, left, Some(answer)) {
        let (mid, between) = choose|mid: Sending, between: ()|
            #[trigger] hands_over(pre, context, bytes, mid, between) && resumed(
                mid,
                between,
                None,
                post,
                left,
                answer,
            );
        assert(pre.stage(context, bytes, mid, between, None));
    }
}

} // verus!
