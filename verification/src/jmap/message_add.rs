//! JMAP message add: blob upload, then Email/import of the blob into the
//! mailbox with the keywords of the flags.
use vstd::prelude::*;

use io_jmap::rfc8620::blob_upload::{JmapBlobUpload, JmapBlobUploadError};
use io_jmap::rfc8620::session::JmapSession;
use io_jmap::rfc8621::email::import::{JmapEmailImport, JmapEmailImportError};

use crate::coroutine::{fed, hands_over, resumed, EmailCoroutineState, JmapStep, Outcome, Stages};
use crate::flag::types::Flag;
use crate::http::{Guarded, HttpFault};
use crate::jmap::blob_url::{resolve_upload_url, upload_url};
use crate::jmap::convert::{keywords, keywords_from};
use crate::jmap::wire::{
    clone_session, import_built, import_left, import_new, import_over, import_resume, import_step,
    upload_built, upload_left, upload_new, upload_over, upload_resume, upload_step, url_of,
    HttpAuth, ImportOutputView, ImportRequest, UploadRequest, Uploaded, UploadedView,
};
use crate::text::{copy_texts, find_row, row};

verus! {

/// Errors produced by [`JmapMessageAdd`].
#[derive(Debug)]
pub enum JmapMessageAddError {
    BlobUpload(HttpFault<JmapBlobUploadError>),
    Import(HttpFault<JmapEmailImportError>),
    InvalidUploadUrl(String),
    NotImported,
    UnsupportedRedirect,
    ResumedAfterDone,
}

/// Where an addition stands.
pub enum State {
    Uploading(Guarded<JmapBlobUpload>),
    Importing(Guarded<JmapEmailImport>),
    Done,
}

/// What an addition goes by after the upload.
pub struct Plan {
    pub mailbox_id: String,
    pub keywords: Vec<String>,
    pub session: JmapSession,
    pub auth: HttpAuth,
}

/// An addition under way: its plan and where it stands.
pub struct Adding {
    pub plan: Plan,
    pub state: State,
}

/// What a resume answers: the id of the new message.
pub type Answer = Outcome<Seq<char>, JmapMessageAddError>;

/// What a resume returns.
pub type Step = EmailCoroutineState<JmapStep, Result<String, JmapMessageAddError>>;

impl Plan {
    /// The import of an uploaded message; without flags no keywords are
    /// given.
    pub open spec fn import(self, blob_id: Seq<char>) -> ImportRequest {
        ImportRequest {
            session: self.session,
            auth: self.auth@,
            client_id: "new"@,
            blob_id,
            mailbox: self.mailbox_id@,
            keywords: if self.keywords@.len() == 0 {
                None
            } else {
                Some(self.keywords.deep_view().to_set())
            },
        }
    }
}

impl State {
    pub open spec fn live(self) -> bool {
        match self {
            State::Uploading(upload) => !upload_over(upload),
            State::Importing(import) => !import_over(import),
            State::Done => true,
        }
    }
}

/// The answer for what an import came to: the new email's id, empty where
/// the server gave none.
pub open spec fn added(output: ImportOutputView) -> Answer {
    match row(output.created, "new"@) {
        Some(Some(id)) => Outcome::Done(id),
        Some(None) => Outcome::Done(seq![]),
        None => Outcome::Failed(JmapMessageAddError::NotImported),
    }
}

impl Stages for Adding {
    type Context = ();

    type Answer = Answer;

    open spec fn rank(self) -> nat {
        match self.state {
            State::Uploading(_) => 2,
            State::Importing(_) => 1,
            State::Done => 0,
        }
    }

    open spec fn stage(self, context: (), bytes: Option<Seq<u8>>, post: Adding, left: (), answer: Option<Answer>) -> bool {
        &&& post.plan == self.plan
        &&& match self.state {
            State::Uploading(upload) => match upload_step(upload, bytes) {
                Outcome::Done(UploadedView::Blob(blob_id)) => {
                    match import_built(self.plan.import(blob_id)) {
                        Err(err) => post.state is Done && answer == Some(
                            Outcome::<Seq<char>, _>::Failed(JmapMessageAddError::Import(err)),
                        ),
                        Ok(import) => answer is None && post.state == State::Importing(import),
                    }
                },
                Outcome::Done(UploadedView::Redirect) => post.state is Done && answer == Some(
                    Outcome::<Seq<char>, _>::Failed(JmapMessageAddError::UnsupportedRedirect),
                ),
                Outcome::Failed(err) => post.state is Done && answer == Some(
                    Outcome::<Seq<char>, _>::Failed(JmapMessageAddError::BlobUpload(err)),
                ),
                wait => {
                    &&& post.state == State::Uploading(upload_left(upload, bytes))
                    &&& answer is Some && answer->0.forwards(wait)
                },
            },
            State::Importing(import) => match import_step(import, bytes) {
                Outcome::Done(output) => post.state is Done && answer == Some(added(output)),
                Outcome::Failed(err) => post.state is Done && answer == Some(
                    Outcome::<Seq<char>, _>::Failed(JmapMessageAddError::Import(err)),
                ),
                wait => {
                    &&& post.state == State::Importing(import_left(import, bytes))
                    &&& answer is Some && answer->0.forwards(wait)
                },
            },
            State::Done => post.state is Done && answer == Some(
                Outcome::<Seq<char>, _>::Failed(JmapMessageAddError::ResumedAfterDone),
            ),
        }
    }
}

/// I/O-free coroutine appending a raw RFC 5322 message to a JMAP mailbox.
pub struct JmapMessageAdd {
    plan: Plan,
    state: State,
}

impl View for JmapMessageAdd {
    type V = Adding;

    closed spec fn view(&self) -> Adding {
        Adding { plan: self.plan, state: self.state }
    }
}

impl JmapMessageAdd {
    #[verifier::type_invariant]
    closed spec fn inv(self) -> bool {
        self.state.live()
    }

    /// `mailbox` is the JMAP mailbox id.
    pub fn new(session: &JmapSession, auth: &HttpAuth, mailbox: &str, flags: &[Flag], raw: Vec<u8>) -> (r:
        Result<JmapMessageAdd, JmapMessageAddError>)
        ensures
            match r {
                Ok(run) => {
                    &&& url_of(upload_url(*session)) matches Some(url) && run@.state
                        == State::Uploading(
                        upload_built(UploadRequest {
                            auth: auth@,
                            url,
                            content_type: "message/rfc822"@,
                            data: raw@,
                        }),
                    )
                    &&& run@.plan.mailbox_id@ == mailbox@
                    &&& run@.plan.keywords.deep_view() == keywords(flags@)
                    &&& run@.plan.session == *session
                    &&& run@.plan.auth@ == auth@
                },
                Err(JmapMessageAddError::InvalidUploadUrl(text)) => url_of(upload_url(*session)) is None
                    && text@ == upload_url(*session),
                Err(_) => false,
            },
    {
        match resolve_upload_url(session) {
            Ok(url) => {
                let upload = upload_new(auth, &url, "message/rfc822", raw);
                let plan = Plan {
                    mailbox_id: mailbox.to_owned(),
                    keywords: keywords_from(flags),
                    session: clone_session(session),
                    auth: auth.clone(),
                };
                Ok(JmapMessageAdd { plan, state: State::Uploading(upload) })
            },
            Err(text) => Err(JmapMessageAddError::InvalidUploadUrl(text)),
        }
    }

    /// Starts the import of the uploaded message.
    fn import(&self, blob_id: String) -> (r: Result<Guarded<JmapEmailImport>, HttpFault<JmapEmailImportError>>)
        ensures
            r == import_built(self@.plan.import(blob_id@)),
            r matches Ok(import) ==> !import_over(import),
    {
        let keywords = if self.plan.keywords.len() == 0 {
            None
        } else {
            Some(copy_texts(&self.plan.keywords))
        };
        import_new(
            &self.plan.session,
            &self.plan.auth,
            "new",
            blob_id,
            self.plan.mailbox_id.as_str(),
            keywords,
        )
    }

    /// Advances the coroutine: with no bytes at first and after a write,
    /// with what was read after a read.
    pub fn resume(&mut self, bytes: Option<&[u8]>) -> (r: Step)
        ensures
            resumed(old(self)@, (), fed(bytes), final(self)@, (), r.outcome()),
        decreases old(self)@.rank(),
    {
        proof {
            use_type_invariant(&*self);
        }
        let ghost pre = self@;
        let mut state = State::Done;
        core::mem::swap(&mut self.state, &mut state);
        match state {
            State::Uploading(mut upload) => match upload_resume(&mut upload, bytes) {
                EmailCoroutineState::Yielded(step) => {
                    self.state = State::Uploading(upload);
                    EmailCoroutineState::Yielded(step)
                },
                EmailCoroutineState::Complete(Ok(Uploaded::Blob(blob_id))) => {
                    match self.import(blob_id) {
                        Ok(import) => {
                            self.state = State::Importing(import);
                            proof {
                                assert(hands_over(pre, (), fed(bytes), self@, ()));
                            }
                            self.resume(None)
                        },
                        Err(err) => EmailCoroutineState::Complete(
                            Err(JmapMessageAddError::Import(err)),
                        ),
                    }
                },
                EmailCoroutineState::Complete(Ok(Uploaded::Redirect)) => EmailCoroutineState::Complete(
                    Err(JmapMessageAddError::UnsupportedRedirect),
                ),
                EmailCoroutineState::Complete(Err(err)) => EmailCoroutineState::Complete(
                    Err(JmapMessageAddError::BlobUpload(err)),
                ),
            },
            State::Importing(mut import) => match import_resume(&mut import, bytes) {
                EmailCoroutineState::Yielded(step) => {
                    self.state = State::Importing(import);
                    EmailCoroutineState::Yielded(step)
                },
                EmailCoroutineState::Complete(Ok(output)) => match find_row(
                    &output.created,
                    "new",
                ) {
                    Some(Some(id)) => EmailCoroutineState::Complete(Ok(id.clone())),
                    Some(None) => {
                        let id = String::new();
                        proof {
                            assert(id@ =~= seq![]);
                        }
                        EmailCoroutineState::Complete(Ok(id))
                    },
                    None => EmailCoroutineState::Complete(Err(JmapMessageAddError::NotImported)),
                },
                EmailCoroutineState::Complete(Err(err)) => EmailCoroutineState::Complete(
                    Err(JmapMessageAddError::Import(err)),
                ),
            },
            State::Done => EmailCoroutineState::Complete(Err(JmapMessageAddError::ResumedAfterDone)),
        }
    }
}

/// The id given back is the one that the server gave the email under the name
/// it was sent with, once the upload has been taken.
pub proof fn law_success_is_the_servers(
    pre: Adding,
    context: (),
    bytes: Option<Seq<u8>>,
    post: Adding,
    left: (),
    answer: Answer,
)
    requires
        resumed(pre, context, bytes, post, left, answer),
    ensures
        answer is Done ==> post.state is Done && !(pre.state is Done),
        pre.state matches State::Importing(import) ==> (answer matches Answer::Done(id) ==> (import_step(
            import,
            bytes,
        ) matches Outcome::Done(output) && (row(
            output.created,
            pre.plan.import(seq![]).client_id,
        ) matches Some(given) && (given matches Some(own) ==> own == id)))),
        pre.state matches State::Uploading(upload) ==> (answer is Done ==> (upload_step(
            upload,
            bytes,
        ) matches Outcome::Done(UploadedView::Blob(blob_id)) && (import_built(
            pre.plan.import(blob_id),
        ) matches Ok(import) && import_step(import, None) is Done))),
    decreases pre.rank(),
{
    if !pre.stage(context, bytes, post, left, Some(answer)) {
        let (mid, between) = choose|mid: Adding, between: ()|
            #[trigger] hands_over(pre, context, bytes, mid, between) && resumed(
                mid,
                between,
                None,
                post,
                left,
                answer,
            );
        law_success_is_the_servers(mid, between, None, post, left, answer);
    }
}

/// What is imported is the blob that was uploaded, into the mailbox that was
/// asked for, with every keyword and no other.
pub proof fn law_import_is_what_was_asked_for(plan: Plan, blob_id: Seq<char>, word: Seq<char>)
    ensures
        plan.import(blob_id).blob_id == blob_id,
        plan.import(blob_id).mailbox == plan.mailbox_id@,
        plan.import(blob_id).session == plan.session,
        plan.import(blob_id).auth == plan.auth@,
        (plan.import(blob_id).keywords matches Some(words) && words.contains(word)) <==> exists|i: int|
            0 <= i < plan.keywords@.len() && (#[trigger] plan.keywords@[i])@ == word,
{
    let words = plan.keywords.deep_view();
    if words.contains(word) {
        let i = words.index_of(word);
        assert(plan.keywords@[i]@ == word);
    }
    if exists|i: int| 0 <= i < plan.keywords@.len() && (#[trigger] plan.keywords@[i])@ == word {
        let i = choose|i: int| 0 <= i < plan.keywords@.len() && (#[trigger] plan.keywords@[i])@ == word;
        assert(words[i] == word);
    }
}

/// What an exchange waits for is passed on as it is, and what it fails with is
/// told and ends the run; a run that is over stays over.
pub proof fn law_waits_and_failures_are_told(
    pre: Adding,
    context: (),
    bytes: Option<Seq<u8>>,
    post: Adding,
    left: (),
    answer: Answer,
)
    requires
        resumed(pre, context, bytes, post, left, answer),
    ensures
        pre.state matches State::Uploading(upload) ==> {
            &&& upload_step(upload, bytes) is Read ==> answer is Read
            &&& upload_step(upload, bytes) matches Outcome::Write(out) ==> answer == Answer::Write(out)
            &&& upload_step(upload, bytes) matches Outcome::Failed(err) ==> post.state is Done && answer == Answer::Failed(
                JmapMessageAddError::BlobUpload(err),
            )
        },
        pre.state matches State::Importing(import) ==> {
            &&& import_step(import, bytes) is Read ==> answer is Read
            &&& import_step(import, bytes) matches Outcome::Write(out) ==> answer == Answer::Write(out)
            &&& import_step(import, bytes) matches Outcome::Failed(err) ==> post.state is Done && answer == Answer::Failed(
                JmapMessageAddError::Import(err),
            )
        },
        pre.state is Done ==> post.state is Done && answer == Answer::Failed(JmapMessageAddError::ResumedAfterDone),
{
    if !pre.stage(context, bytes, post, left, Some(answer)) {
        let (mid, between) = choose|mid: Adding, between: ()|
            #[trigger] hands_over(pre, context, bytes, mid, between) && resumed(
                mid,
                between,
                None,
                post,
                left,
                answer,
            );
        assert(pre.stage(context, bytes, mid, between, None));
    }
}

/// An upload that was sent elsewhere, and an email that the server did not
/// import, are told as such.
pub proof fn law_refusals_are_told(
    pre: Adding,
    context: (),
    bytes: Option<Seq<u8>>,
    post: Adding,
    left: (),
    answer: Answer,
)
    requires
        resumed(pre, context, bytes, post, left, answer),
    ensures
        pre.state matches State::Uploading(upload) ==> (upload_step(upload, bytes) == Outcome::<
            _,
            HttpFault<JmapBlobUploadError>,
        >::Done(UploadedView::Redirect) ==> answer == Answer::Failed(
            JmapMessageAddError::UnsupportedRedirect,
        )),
        pre.state matches State::Importing(import) ==> (import_step(import, bytes) matches Outcome::Done(
            output,
        ) ==> {
            let given = row(output.created, pre.plan.import(seq![]).client_id);
            &&& answer == Answer::Failed(JmapMessageAddError::NotImported) <==> given is None
            &&& given matches Some(Some(id)) ==> answer == Answer::Done(id)
            &&& given == Some(None::<Seq<char>>) ==> (answer matches Answer::Done(id) && id.len() == 0)
        }),
{
    if !pre.stage(context, bytes, post, left, Some(answer)) {
        let (mid, between) = choose|mid: Adding, between: ()|
            #[trigger] hands_over(pre, context, bytes, mid, between) && resumed(
                mid,
                between,
                None,
                post,
                left,
                answer,
            );
        assert(pre.stage(context, bytes, mid, between, None));
    }
}

} // verus!
