//! JMAP message get: Email/get for the blob id, then blob download.
use vstd::prelude::*;

use io_jmap::rfc8620::blob_download::{JmapBlobDownload, JmapBlobDownloadError};
use io_jmap::rfc8620::session::JmapSession;
use io_jmap::rfc8621::email::get::{JmapEmailGet, JmapEmailGetError};

use crate::coroutine::{
    fed, hands_over, resumed, EmailCoroutineState, JmapStep, Outcome, RawMessage, Stages,
};
use crate::http::{Guarded, HttpFault};
use crate::jmap::blob_url::{download_url, resolve_download_url};
use crate::jmap::convert::{account_id, account_id_of};
use crate::jmap::wire::{
    download_built, download_left, download_new, download_over, download_resume, download_step,
    email_get_built, email_get_left, email_get_new, email_get_over, email_get_resume,
    email_get_step, emails_content, parse_url, read_emails, read_session, session_info, url_of,
    wire_properties, DownloadRequest, Downloaded, DownloadedView, EmailGetRequest, EmailProperty,
    HttpAuth,
};

verus! {

/// Errors produced by [`JmapMessageGet`].
#[derive(Debug)]
pub enum JmapMessageGetError {
    EmailGet(HttpFault<JmapEmailGetError>),
    BlobDownload(HttpFault<JmapBlobDownloadError>),
    EmailNotFound,
    MissingBlobId,
    InvalidDownloadUrl(String),
    UnsupportedRedirect,
    ResumedAfterDone,
}

/// Where a fetch stands.
pub enum State {
    GettingEmail(Guarded<JmapEmailGet>),
    Downloading(Guarded<JmapBlobDownload>),
    Done,
}

/// What a fetch goes by once it has the blob id.
pub struct Plan {
    pub auth: HttpAuth,
    pub download_url_template: String,
    pub account_id: String,
}

/// A fetch under way: its plan and where it stands.
pub struct Getting {
    pub plan: Plan,
    pub state: State,
}

/// What a resume answers: the raw message.
pub type Answer = Outcome<Seq<u8>, JmapMessageGetError>;

/// What a resume returns.
pub type Step = EmailCoroutineState<JmapStep, Result<RawMessage, JmapMessageGetError>>;

impl Plan {
    /// The URL of a blob.
    pub open spec fn url(self, blob_id: Seq<char>) -> Seq<char> {
        download_url(self.download_url_template@, self.account_id@, blob_id)
    }
}

/// The Email/get for the blob id of a message.
pub open spec fn blob_request(session: JmapSession, auth: Seq<char>, id: Seq<char>) -> EmailGetRequest {
    EmailGetRequest { session, auth, ids: seq![id], properties: seq![EmailProperty::BlobId] }
}

impl State {
    pub open spec fn live(self) -> bool {
        match self {
            State::GettingEmail(get) => !email_get_over(get),
            State::Downloading(download) => !download_over(download),
            State::Done => true,
        }
    }
}

impl Stages for Getting {
    type Context = ();

    type Answer = Answer;

    open spec fn rank(self) -> nat {
        match self.state {
            State::GettingEmail(_) => 2,
            State::Downloading(_) => 1,
            State::Done => 0,
        }
    }

    open spec fn stage(self, context: (), bytes: Option<Seq<u8>>, post: Getting, left: (), answer: Option<Answer>) -> bool {
        &&& post.plan == self.plan
        &&& match self.state {
            State::GettingEmail(get) => match email_get_step(get, bytes) {
                Outcome::Done(batch) => {
                    let emails = emails_content(batch);
                    if emails.len() == 0 {
                        post.state is Done && answer == Some(
                            Outcome::<Seq<u8>, _>::Failed(JmapMessageGetError::EmailNotFound),
                        )
                    } else if emails[0].blob_id is None {
                        post.state is Done && answer == Some(
                            Outcome::<Seq<u8>, _>::Failed(JmapMessageGetError::MissingBlobId),
                        )
                    } else {
                        let target = self.plan.url(emails[0].blob_id->0);
                        match url_of(target) {
                            Some(url) => answer is None && post.state == State::Downloading(
                                download_built(DownloadRequest { auth: self.plan.auth@, url }),
                            ),
                            None => post.state is Done && (answer matches Some(
                                Outcome::Failed(JmapMessageGetError::InvalidDownloadUrl(text)),
                            ) && text@ == target),
                        }
                    }
                },
                Outcome::Failed(err) => post.state is Done && answer == Some(
                    Outcome::<Seq<u8>, _>::Failed(JmapMessageGetError::EmailGet(err)),
                ),
                wait => {
                    &&& post.state == State::GettingEmail(email_get_left(get, bytes))
                    &&& answer is Some && answer->0.forwards(wait)
                },
            },
            State::Downloading(download) => match download_step(download, bytes) {
                Outcome::Done(DownloadedView::Data(data)) => post.state is Done && answer == Some(
                    Outcome::<_, JmapMessageGetError>::Done(data),
                ),
                Outcome::Done(DownloadedView::Redirect) => post.state is Done && answer == Some(
                    Outcome::<Seq<u8>, _>::Failed(JmapMessageGetError::UnsupportedRedirect),
                ),
                Outcome::Failed(err) => post.state is Done && answer == Some(
                    Outcome::<Seq<u8>, _>::Failed(JmapMessageGetError::BlobDownload(err)),
                ),
                wait => {
                    &&& post.state == State::Downloading(download_left(download, bytes))
                    &&& answer is Some && answer->0.forwards(wait)
                },
            },
            State::Done => post.state is Done && answer == Some(
                Outcome::<Seq<u8>, _>::Failed(JmapMessageGetError::ResumedAfterDone),
            ),
        }
    }
}

/// I/O-free coroutine fetching the raw RFC 5322 bytes of a JMAP email.
pub struct JmapMessageGet {
    plan: Plan,
    state: State,
}

impl View for JmapMessageGet {
    type V = Getting;

    closed spec fn view(&self) -> Getting {
        Getting { plan: self.plan, state: self.state }
    }
}

impl JmapMessageGet {
    #[verifier::type_invariant]
    closed spec fn inv(self) -> bool {
        self.state.live()
    }

    /// Email ids are those of the account: the mailbox is not needed.
    pub fn new(session: &JmapSession, auth: &HttpAuth, _mailbox: &str, id: &str) -> (r: Result<
        JmapMessageGet,
        JmapMessageGetError,
    >)
        ensures
            ({
                let request = blob_request(*session, auth@, id@);
                match email_get_built(request) {
                    Ok(get) => r matches Ok(run) && {
                        &&& run@.state == State::GettingEmail(get)
                        &&& run@.plan.auth@ == auth@
                        &&& run@.plan.download_url_template@ == session_info(*session).download_url
                        &&& run@.plan.account_id@ == account_id(*session)
                    },
                    Err(cause) => r matches Err(err) && err == JmapMessageGetError::EmailGet(cause),
                }
            }),
    {
        let mut ids: Vec<String> = Vec::new();
        ids.push(id.to_owned());
        let mut properties: Vec<EmailProperty> = Vec::new();
        properties.push(EmailProperty::BlobId);
        proof {
            assert(ids.deep_view() =~= seq![id@]);
            assert(properties@ =~= seq![EmailProperty::BlobId]);
        }
        match email_get_new(session, auth, ids, wire_properties(&properties)) {
            Ok(get) => {
                let info = read_session(session);
                let plan = Plan {
                    auth: auth.clone(),
                    download_url_template: info.download_url,
                    account_id: account_id_of(session),
                };
                Ok(JmapMessageGet { plan, state: State::GettingEmail(get) })
            },
            Err(err) => Err(JmapMessageGetError::EmailGet(err)),
        }
    }

    /// Advances the coroutine: with no bytes at first and after a write,
    /// with what was read after a read.
    pub fn resume(&mut self, bytes: Option<&[u8]>) -> (r: Step)
        ensures
            resumed(old(self)@, (), fed(bytes), final(self)@, (), r.outcome()),
        decreases old(self)@.rank(),
    {
        proof {
            use_type_invariant(&*self);
        }
        let ghost pre = self@;
        let mut state = State::Done;
        core::mem::swap(&mut self.state, &mut state);
        match state {
            State::GettingEmail(mut get) => match email_get_resume(&mut get, bytes) {
                EmailCoroutineState::Yielded(step) => {
                    self.state = State::GettingEmail(get);
                    EmailCoroutineState::Yielded(step)
                },
                EmailCoroutineState::Complete(Ok(batch)) => {
                    let emails = read_emails(&batch);
                    if emails.len() == 0 {
                        return EmailCoroutineState::Complete(
                            Err(JmapMessageGetError::EmailNotFound),
                        );
                    }
                    proof {
                        assert(emails.deep_view()[0] == emails@[0].deep_view());
                    }
                    let text = match &emails[0].blob_id {
                        Some(blob_id) => resolve_download_url(
                            self.plan.download_url_template.as_str(),
                            self.plan.account_id.as_str(),
                            blob_id.as_str(),
                        ),
                        None => return EmailCoroutineState::Complete(
                            Err(JmapMessageGetError::MissingBlobId),
                        ),
                    };
                    match parse_url(text.as_str()) {
                        Some(url) => {
                            self.state = State::Downloading(download_new(&self.plan.auth, &url));
                            proof {
                                assert(hands_over(pre, (), fed(bytes), self@, ()));
                            }
                            self.resume(None)
                        },
                        None => EmailCoroutineState::Complete(
                            Err(JmapMessageGetError::InvalidDownloadUrl(text)),
                        ),
                    }
                },
                EmailCoroutineState::Complete(Err(err)) => EmailCoroutineState::Complete(
                    Err(JmapMessageGetError::EmailGet(err)),
                ),
            },
            State::Downloading(mut download) => match download_resume(&mut download, bytes) {
                EmailCoroutineState::Yielded(step) => {
                    self.state = State::Downloading(download);
                    EmailCoroutineState::Yielded(step)
                },
                EmailCoroutineState::Complete(Ok(Downloaded::Data(data))) => {
                    EmailCoroutineState::Complete(Ok(RawMessage { bytes: data }))
                },
                EmailCoroutineState::Complete(Ok(Downloaded::Redirect)) => {
                    EmailCoroutineState::Complete(Err(JmapMessageGetError::UnsupportedRedirect))
                },
                EmailCoroutineState::Complete(Err(err)) => EmailCoroutineState::Complete(
                    Err(JmapMessageGetError::BlobDownload(err)),
                ),
            },
            State::Done => EmailCoroutineState::Complete(Err(JmapMessageGetError::ResumedAfterDone)),
        }
    }
}

/// The message given back is what the server sent for the blob of the email,
/// and an email that is not there has none.
pub proof fn law_success_is_the_servers(
    pre: Getting,
    context: (),
    bytes: Option<Seq<u8>>,
    post: Getting,
    left: (),
    answer: Answer,
)
    requires
        resumed(pre, context, bytes, post, left, answer),
    ensures
        answer is Done ==> post.state is Done && !(pre.state is Done),
        pre.state matches State::Downloading(download) ==> (answer matches Answer::Done(data)
            ==> download_step(download, bytes) == Outcome::<_, HttpFault<JmapBlobDownloadError>>::Done(
            DownloadedView::Data(data),
        )),
        pre.state matches State::GettingEmail(get) ==> (answer is Done ==> (email_get_step(
            get,
            bytes,
        ) matches Outcome::Done(batch) && emails_content(batch).len() > 0 && emails_content(
            batch,
        )[0].blob_id is Some)),
    decreases pre.rank(),
{
    if !pre.stage(context, bytes, post, left, Some(answer)) {
        let (mid, between) = choose|mid: Getting, between: ()|
            #[trigger] hands_over(pre, context, bytes, mid, between) && resumed(
                mid,
                between,
                None,
                post,
                left,
                answer,
            );
        law_success_is_the_servers(mid, between, None, post, left, answer);
    }
}

/// The blob that is downloaded is that of the email that was asked for: its
/// URL is out of the session's template, for the account and that blob.
pub proof fn law_blob_is_the_emails(
    pre: Getting,
    bytes: Option<Seq<u8>>,
    post: Getting,
    data: Seq<u8>,
    get: Guarded<JmapEmailGet>,
)
    requires
        pre.state == State::GettingEmail(get),
        resumed(pre, (), bytes, post, (), Answer::Done(data)),
    ensures
        email_get_step(get, bytes) matches Outcome::Done(batch) && emails_content(batch)[0].blob_id matches Some(
            blob,
        ) && url_of(
            download_url(pre.plan.download_url_template@, pre.plan.account_id@, blob),
        ) matches Some(url) && download_step(
            download_built(DownloadRequest { auth: pre.plan.auth@, url }),
            None,
        ) == Outcome::<_, HttpFault<JmapBlobDownloadError>>::Done(DownloadedView::Data(data)),
{
    let answer = Answer::Done(data);
    assert(!pre.stage((), bytes, post, (), Some(answer)));
    let (mid, between) = choose|mid: Getting, between: ()|
        #[trigger] hands_over(pre, (), bytes, mid, between) && resumed(mid, between, None, post, (), answer);
    law_success_is_the_servers(mid, between, None, post, (), answer);
}

/// Only the email that was named is asked for, and with its blob.
pub proof fn law_email_asked_for(session: JmapSession, auth: Seq<char>, id: Seq<char>, other: Seq<char>)
    ensures
        blob_request(session, auth, id).ids.contains(other) <==> other == id,
        blob_request(session, auth, id).properties.contains(EmailProperty::BlobId),
        blob_request(session, auth, id).session == session && blob_request(session, auth, id).auth == auth,
{
    assert(blob_request(session, auth, id).ids[0] == id);
    assert(blob_request(session, auth, id).properties[0] == EmailProperty::BlobId);
}

/// What an exchange waits for is passed on as it is, and what it fails with is
/// told and ends the run; a run that is over stays over.
pub proof fn law_waits_and_failures_are_told(
    pre: Getting,
    context: (),
    bytes: Option<Seq<u8>>,
    post: Getting,
    left: (),
    answer: Answer,
)
    requires
        resumed(pre, context, bytes, post, left, answer),
    ensures
        pre.state matches State::GettingEmail(get) ==> {
            &&& email_get_step(get, bytes) is Read ==> answer is Read
            &&& email_get_step(get, bytes) matches Outcome::Write(out) ==> answer == Answer::Write(out)
            &&& email_get_step(get, bytes) matches Outcome::Failed(err) ==> post.state is Done && answer == Answer::Failed(
                JmapMessageGetError::EmailGet(err),
            )
        },
        pre.state matches State::Downloading(download) ==> {
            &&& download_step(download, bytes) is Read ==> answer is Read
            &&& download_step(download, bytes) matches Outcome::Write(out) ==> answer == Answer::Write(out)
            &&& download_step(download, bytes) matches Outcome::Failed(err) ==> post.state is Done && answer == Answer::Failed(
                JmapMessageGetError::BlobDownload(err),
            )
        },
        pre.state is Done ==> post.state is Done && answer == Answer::Failed(JmapMessageGetError::ResumedAfterDone),
{
    if !pre.stage(context, bytes, post, left, Some(answer)) {
        let (mid, between) = choose|mid: Getting, between: ()|
            #[trigger] hands_over(pre, context, bytes, mid, between) && resumed(
                mid,
                between,
                None,
                post,
                left,
                answer,
            );
        assert(pre.stage(context, bytes, mid, between, None));
    }
}

/// An email that is not there, that has no blob, or whose blob has no URL or is
/// elsewhere, is told as such.
pub proof fn law_refusals_are_told(
    pre: Getting,
    context: (),
    bytes: Option<Seq<u8>>,
    post: Getting,
    left: (),
    answer: Answer,
)
    requires
        resumed(pre, context, bytes, post, left, answer),
    ensures
        pre.state matches State::GettingEmail(get) ==> (email_get_step(get, bytes) matches Outcome::Done(
            batch,
        ) ==> {
            let emails = emails_content(batch);
            &&& answer == Answer::Failed(JmapMessageGetError::EmailNotFound) <==> emails.len() == 0
            &&& emails.len() > 0 && emails[0].blob_id is None ==> answer == Answer::Failed(
                JmapMessageGetError::MissingBlobId,
            )
            &&& emails.len() > 0 && emails[0].blob_id is Some && url_of(
                download_url(
                    pre.plan.download_url_template@,
                    pre.plan.account_id@,
                    emails[0].blob_id->0,
                ),
            ) is None ==> (answer matches Answer::Failed(JmapMessageGetError::InvalidDownloadUrl(text))
                && text@ == download_url(
                pre.plan.download_url_template@,
                pre.plan.account_id@,
                emails[0].blob_id->0,
            ))
        }),
        pre.state matches State::Downloading(download) ==> (download_step(download, bytes)
            == Outcome::<_, HttpFault<JmapBlobDownloadError>>::Done(DownloadedView::Redirect) ==> answer
            == Answer::Failed(JmapMessageGetError::UnsupportedRedirect)),
{
    assert(pre.state is GettingEmail && !pre.stage(context, bytes, post, left, Some(answer)) && (
    email_get_step(pre.state->GettingEmail_0, bytes) matches Outcome::Done(batch) && emails_content(
        batch,
    ).len() > 0) ==> answer != Answer::Failed(JmapMessageGetError::EmailNotFound)) by {
        if pre.state is GettingEmail && !pre.stage(context, bytes, post, left, Some(answer)) {
            let (mid, between) = choose|mid: Getting, between: ()|
                #[trigger] hands_over(pre, context, bytes, mid, between) && resumed(
                    mid,
                    between,
                    None,
                    post,
                    left,
                    answer,
                );
            assert(mid.state is Downloading);
            assert(mid.stage(between, None, post, left, Some(answer))) by {
                if !mid.stage(between, None, post, left, Some(answer)) {
                    let (more, last) = choose|more: Getting, last: ()|
                        #[trigger] hands_over(mid, between, None, more, last) && resumed(
                            more,
                            last,
                            None,
                            post,
                            left,
                            answer,
                        );
                    assert(mid.stage(between, None, more, last, None));
                }
            }
        }
    }
    if !pre.stage(context, bytes, post, left, Some(answer)) {
        let (mid, between) = choose|mid: Getting, between: ()|
            #[trigger] hands_over(pre, context, bytes, mid, between) && resumed(
                mid,
                between,
                None,
                post,
                left,
                answer,
            );
        assert(pre.stage(context, bytes, mid, between, None));
    }
}

} // verus!
