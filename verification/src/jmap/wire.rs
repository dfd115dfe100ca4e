//! The JMAP crate as the library sees it: the exchanges of `io_jmap`, each
//! an opaque coroutine with the request it was built for, and what they
//! come back with as plain values.
use vstd::prelude::*;

use io_jmap::coroutine::{JmapCoroutine, JmapCoroutineState, JmapYield};
use io_jmap::rfc8620::blob_download::{JmapBlobDownload, JmapBlobDownloadError};
use io_jmap::rfc8620::blob_upload::{JmapBlobUpload, JmapBlobUploadError};
use io_jmap::rfc8620::coroutine::JmapRedirectYield;
use io_jmap::rfc8620::filter::JmapFilter;
use io_jmap::rfc8620::session::JmapSession;
use io_jmap::rfc8621::email::changes::{
    JmapEmailChanges, JmapEmailChangesError, JmapEmailChangesOptions,
};
use io_jmap::rfc8621::email::get::{JmapEmailGet, JmapEmailGetError, JmapEmailGetOptions};
use io_jmap::rfc8621::email::import::{JmapEmailImport, JmapEmailImportArgs, JmapEmailImportError};
use io_jmap::rfc8621::email::query::{
    JmapEmailComparator, JmapEmailFilter, JmapEmailQuery, JmapEmailQueryError, JmapEmailQueryOptions,
    JmapEmailSortProperty,
};
use io_jmap::rfc8621::email::set::{JmapEmailSet, JmapEmailSetArgs, JmapEmailSetError};
use io_jmap::rfc8621::email::{JmapEmail, JmapEmailProperty};
use io_jmap::rfc8621::email_submission::set::{
    JmapEmailSubmissionCreate, JmapEmailSubmissionSet, JmapEmailSubmissionSetError,
};
use io_jmap::rfc8621::mailbox::query::{
    JmapMailboxFilter, JmapMailboxQuery, JmapMailboxQueryError, JmapMailboxQueryOptions,
};
use io_jmap::rfc8621::mailbox::set::{JmapMailboxSet, JmapMailboxSetArgs, JmapMailboxSetError};
use io_jmap::rfc8621::mailbox::JmapMailboxProperty;
use secrecy::SecretString;
use url::Url;

use crate::address::{Address, AddressView};
use crate::coroutine::{fed, EmailCoroutineState, JmapStep, Outcome};
use crate::http::{
    faulted, guard, guarded_built, guarded_left, guarded_step, Framing, Guarded, HttpFault,
};
use crate::jmap::filter::{
    Condition, ConditionField, EmailComparator, EmailSortProperty, FilterView,
};

verus! {

/// The value of the HTTP `Authorization` header.
pub struct HttpAuth {
    pub header: String,
}

impl View for HttpAuth {
    type V = Seq<char>;

    open spec fn view(&self) -> Seq<char> {
        self.header@
    }
}

impl Clone for HttpAuth {
    fn clone(&self) -> (r: HttpAuth)
        ensures
            r@ == self@,
    {
        HttpAuth { header: self.header.clone() }
    }
}

/// A JMAP session.
#[verifier::external_type_specification]
#[verifier::external_body]
pub struct ExJmapSession(JmapSession);

/// What is read of a session.
pub struct SessionInfo {
    /// The primary account for mail, if there is one.
    pub mail_account: Option<String>,
    pub upload_url: String,
    pub download_url: String,
    pub event_source_url: String,
}

/// What a [`SessionInfo`] says.
pub struct SessionInfoView {
    pub mail_account: Option<Seq<char>>,
    pub upload_url: Seq<char>,
    pub download_url: Seq<char>,
    pub event_source_url: Seq<char>,
}

impl DeepView for SessionInfo {
    type V = SessionInfoView;

    open spec fn deep_view(&self) -> SessionInfoView {
        SessionInfoView {
            mail_account: self.mail_account.deep_view(),
            upload_url: self.upload_url@,
            download_url: self.download_url@,
            event_source_url: self.event_source_url@,
        }
    }
}

/// The fields of a session that are read.
pub uninterp spec fn session_info(session: JmapSession) -> SessionInfoView;

/// The fields of a [`JmapSession`]; of its primary accounts the one under
/// the mail capability.
#[verifier::external_body]
pub(crate) fn read_session(session: &JmapSession) -> (r: SessionInfo)
    ensures
        r.deep_view() == session_info(*session),
{
    SessionInfo {
        mail_account: session.primary_accounts.get(io_jmap::rfc8621::JMAP_MAIL_CAPABILITY).cloned(),
        upload_url: session.upload_url.clone(),
        download_url: session.download_url.clone(),
        event_source_url: session.event_source_url.clone(),
    }
}

/// [`JmapSession`]'s `Clone`.
#[verifier::external_body]
pub(crate) fn clone_session(session: &JmapSession) -> (r: JmapSession)
    ensures
        r == *session,
{
    session.clone()
}

/// A parsed URL.
#[verifier::external_type_specification]
#[verifier::external_body]
pub struct ExUrl(Url);

/// The URL that [`Url::parse`] reads in a text, `None` where it is none.
pub uninterp spec fn url_of(text: Seq<char>) -> Option<Url>;

/// [`Url::parse`].
#[verifier::external_body]
pub(crate) fn parse_url(text: &str) -> (r: Option<Url>)
    ensures
        r == url_of(text@),
{
    Url::parse(text).ok()
}

/// A property of an email.
#[derive(Clone, Copy, Debug, PartialEq, Eq, Structural)]
pub enum EmailProperty {
    Id,
    BlobId,
    MailboxIds,
    Keywords,
    Size,
    MessageId,
    From,
    To,
    Subject,
    SentAt,
    HasAttachment,
}

/// A property of `io_jmap`.
#[verifier::external_type_specification]
#[verifier::external_body]
pub struct ExJmapEmailProperty(JmapEmailProperty);

/// Which property a value of `io_jmap` is.
pub uninterp spec fn property_content(property: JmapEmailProperty) -> EmailProperty;

/// The [`JmapEmailProperty`] of the same name.
#[verifier::external_body]
pub(crate) fn wire_property(property: EmailProperty) -> (r: JmapEmailProperty)
    ensures
        property_content(r) == property,
{
    match property {
        EmailProperty::Id => JmapEmailProperty::Id,
        EmailProperty::BlobId => JmapEmailProperty::BlobId,
        EmailProperty::MailboxIds => JmapEmailProperty::MailboxIds,
        EmailProperty::Keywords => JmapEmailProperty::Keywords,
        EmailProperty::Size => JmapEmailProperty::Size,
        EmailProperty::MessageId => JmapEmailProperty::MessageId,
        EmailProperty::From => JmapEmailProperty::From,
        EmailProperty::To => JmapEmailProperty::To,
        EmailProperty::Subject => JmapEmailProperty::Subject,
        EmailProperty::SentAt => JmapEmailProperty::SentAt,
        EmailProperty::HasAttachment => JmapEmailProperty::HasAttachment,
    }
}

/// Which properties the values of `io_jmap` are.
pub open spec fn properties_content(list: Seq<JmapEmailProperty>) -> Seq<EmailProperty> {
    list.map_values(|property: JmapEmailProperty| property_content(property))
}

/// The properties as `io_jmap` names them.
pub(crate) fn wire_properties(list: &Vec<EmailProperty>) -> (r: Vec<JmapEmailProperty>)
    ensures
        properties_content(r@) == list@,
{
    let mut out: Vec<JmapEmailProperty> = Vec::new();
    let mut i: usize = 0;
    while i < list.len()
        invariant
            i <= list@.len(),
            out@.len() == i,
            forall|j: int| 0 <= j < i ==> property_content(#[trigger] out@[j]) == list@[j],
        decreases list@.len() - i,
    {
        out.push(wire_property(list[i]));
        i = i + 1;
    }
    proof {
        assert(properties_content(out@) =~= list@);
    }
    out
}

/// An email of `io_jmap`.
#[verifier::external_type_specification]
#[verifier::external_body]
pub struct ExJmapEmail(JmapEmail);

/// The properties of an email, each where it was given. Sets stand in the
/// order of their members.
pub struct Email {
    pub id: Option<String>,
    pub blob_id: Option<String>,
    pub mailbox_ids: Option<Vec<(String, bool)>>,
    pub keywords: Option<Vec<(String, bool)>>,
    pub size: Option<u64>,
    pub message_id: Option<Vec<String>>,
    pub from: Option<Vec<Address>>,
    pub to: Option<Vec<Address>>,
    pub subject: Option<String>,
    pub sent_at: Option<String>,
    pub has_attachment: Option<bool>,
}

/// What an [`Email`] says.
pub struct EmailView {
    pub id: Option<Seq<char>>,
    pub blob_id: Option<Seq<char>>,
    pub mailbox_ids: Option<Seq<(Seq<char>, bool)>>,
    pub keywords: Option<Seq<(Seq<char>, bool)>>,
    pub size: Option<u64>,
    pub message_id: Option<Seq<Seq<char>>>,
    pub from: Option<Seq<AddressView>>,
    pub to: Option<Seq<AddressView>>,
    pub subject: Option<Seq<char>>,
    pub sent_at: Option<Seq<char>>,
    pub has_attachment: Option<bool>,
}

impl DeepView for Email {
    type V = EmailView;

    open spec fn deep_view(&self) -> EmailView {
        EmailView {
            id: self.id.deep_view(),
            blob_id: self.blob_id.deep_view(),
            mailbox_ids: self.mailbox_ids.deep_view(),
            keywords: self.keywords.deep_view(),
            size: self.size,
            message_id: self.message_id.deep_view(),
            from: self.from.deep_view(),
            to: self.to.deep_view(),
            subject: self.subject.deep_view(),
            sent_at: self.sent_at.deep_view(),
            has_attachment: self.has_attachment,
        }
    }
}

/// The properties of an email of `io_jmap`.
pub uninterp spec fn email_content(email: JmapEmail) -> EmailView;

/// The fields of a [`JmapEmail`] that are read.
#[verifier::external_body]
pub(crate) fn read_email(email: &JmapEmail) -> (r: Email)
    ensures
        r.deep_view() == email_content(*email),
{
    let e = email.clone();
    Email {
        id: e.id,
        blob_id: e.blob_id,
        mailbox_ids: e.mailbox_ids.map(|ids| ids.into_iter().collect()),
        keywords: e.keywords.map(|words| words.into_iter().collect()),
        size: e.size,
        message_id: e.message_id,
        from: e.from.map(|list| list.into_iter().map(|a| Address { name: a.name, email: a.email }).collect()),
        to: e.to.map(|list| list.into_iter().map(|a| Address { name: a.name, email: a.email }).collect()),
        subject: e.subject,
        sent_at: e.sent_at,
        has_attachment: e.has_attachment,
    }
}

/// Emails as they came.
pub struct EmailBatch {
    pub emails: Vec<JmapEmail>,
}

impl DeepView for EmailBatch {
    type V = Seq<JmapEmail>;

    open spec fn deep_view(&self) -> Seq<JmapEmail> {
        self.emails@
    }
}

/// What emails of `io_jmap` say.
pub open spec fn emails_content(emails: Seq<JmapEmail>) -> Seq<EmailView> {
    emails.map_values(|email: JmapEmail| email_content(email))
}

/// Reads a batch of emails.
pub fn read_emails(batch: &EmailBatch) -> (r: Vec<Email>)
    ensures
        r.deep_view() == emails_content(batch.deep_view()),
{
    let mut out: Vec<Email> = Vec::new();
    let mut i: usize = 0;
    while i < batch.emails.len()
        invariant
            i <= batch.emails@.len(),
            out@.len() == i,
            forall|j: int|
                0 <= j < i ==> (#[trigger] out@[j]).deep_view() == email_content(batch.emails@[j]),
        decreases batch.emails@.len() - i,
    {
        out.push(read_email(&batch.emails[i]));
        i = i + 1;
    }
    proof {
        assert(out.deep_view() =~= emails_content(batch.deep_view()));
    }
    out
}

/// A filter condition of `io_jmap`.
#[verifier::external_type_specification]
#[verifier::external_body]
pub struct ExJmapEmailFilter(JmapEmailFilter);

/// A filter of `io_jmap`.
#[verifier::external_type_specification]
#[verifier::external_body]
#[verifier::reject_recursive_types(C)]
pub struct ExJmapFilter<C>(JmapFilter<C>);

/// The content of a filter.
pub uninterp spec fn filter_content(filter: JmapFilter<JmapEmailFilter>) -> FilterView;

/// A [`JmapFilter::Condition`] with one field set.
#[verifier::external_body]
pub(crate) fn wire_condition(condition: &Condition) -> (r: JmapFilter<JmapEmailFilter>)
    ensures
        filter_content(r) == FilterView::Condition(condition.field, condition.value@),
{
    let value = Some(condition.value.clone());
    JmapFilter::Condition(match condition.field {
        ConditionField::InMailbox => JmapEmailFilter { in_mailbox: value, ..Default::default() },
        ConditionField::From => JmapEmailFilter { from: value, ..Default::default() },
        ConditionField::To => JmapEmailFilter { to: value, ..Default::default() },
        ConditionField::Subject => JmapEmailFilter { subject: value, ..Default::default() },
        ConditionField::Body => JmapEmailFilter { body: value, ..Default::default() },
        ConditionField::HasKeyword => JmapEmailFilter { has_keyword: value, ..Default::default() },
        ConditionField::After => JmapEmailFilter { after: value, ..Default::default() },
    })
}

/// [`JmapFilter::and`] of two filters.
#[verifier::external_body]
pub(crate) fn wire_and(left: JmapFilter<JmapEmailFilter>, right: JmapFilter<JmapEmailFilter>) -> (r:
    JmapFilter<JmapEmailFilter>)
    ensures
        filter_content(r) == FilterView::And(
            Box::new(filter_content(left)),
            Box::new(filter_content(right)),
        ),
{
    JmapFilter::and(vec![left, right])
}

/// [`JmapFilter::or`] of two filters.
#[verifier::external_body]
pub(crate) fn wire_or(left: JmapFilter<JmapEmailFilter>, right: JmapFilter<JmapEmailFilter>) -> (r:
    JmapFilter<JmapEmailFilter>)
    ensures
        filter_content(r) == FilterView::Or(
            Box::new(filter_content(left)),
            Box::new(filter_content(right)),
        ),
{
    JmapFilter::or(vec![left, right])
}

/// [`JmapFilter::not`] of one filter.
#[verifier::external_body]
pub(crate) fn wire_not(inner: JmapFilter<JmapEmailFilter>) -> (r: JmapFilter<JmapEmailFilter>)
    ensures
        filter_content(r) == FilterView::Not(Box::new(filter_content(inner))),
{
    JmapFilter::not(vec![inner])
}

/// What an Email/query asks for.
pub struct EmailQueryRequest {
    pub session: JmapSession,
    pub auth: Seq<char>,
    pub filter: FilterView,
    /// `None` leaves the order to the server.
    pub sort: Option<Seq<EmailComparator>>,
    pub position: Option<u64>,
    pub limit: Option<u64>,
    pub properties: Seq<EmailProperty>,
}

/// The comparators of an optional sort.
pub open spec fn sort_view(sort: Option<Vec<EmailComparator>>) -> Option<Seq<EmailComparator>> {
    match sort {
        Some(sort) => Some(sort@),
        None => None,
    }
}

/// A comparator of `io_jmap`.
#[verifier::external_type_specification]
#[verifier::external_body]
pub struct ExJmapEmailComparator(JmapEmailComparator);

/// The property and direction of a comparator.
pub uninterp spec fn comparator_content(comparator: JmapEmailComparator) -> EmailComparator;

/// A [`JmapEmailComparator`] without collation or keyword.
#[verifier::external_body]
pub(crate) fn wire_comparator(comparator: EmailComparator) -> (r: JmapEmailComparator)
    ensures
        comparator_content(r) == comparator,
{
    JmapEmailComparator {
        property: match comparator.property {
            EmailSortProperty::SentAt => JmapEmailSortProperty::SentAt,
            EmailSortProperty::From => JmapEmailSortProperty::From,
            EmailSortProperty::To => JmapEmailSortProperty::To,
            EmailSortProperty::Subject => JmapEmailSortProperty::Subject,
        },
        is_ascending: Some(comparator.is_ascending),
        collation: None,
        keyword: None,
    }
}

/// What comparators of `io_jmap` say.
pub open spec fn comparators_content(sort: Option<Vec<JmapEmailComparator>>) -> Option<
    Seq<EmailComparator>,
> {
    match sort {
        Some(sort) => Some(
            sort@.map_values(|comparator: JmapEmailComparator| comparator_content(comparator)),
        ),
        None => None,
    }
}

/// The comparators as `io_jmap` holds them.
pub(crate) fn wire_sort(sort: &Option<Vec<EmailComparator>>) -> (r: Option<Vec<JmapEmailComparator>>)
    ensures
        comparators_content(r) == sort_view(*sort),
{
    match sort {
        Some(sort) => {
            let mut out: Vec<JmapEmailComparator> = Vec::new();
            let mut i: usize = 0;
            while i < sort.len()
                invariant
                    i <= sort@.len(),
                    out@.len() == i,
                    forall|j: int| 0 <= j < i ==> comparator_content(#[trigger] out@[j]) == sort@[j],
                decreases sort@.len() - i,
            {
                out.push(wire_comparator(sort[i]));
                i = i + 1;
            }
            proof {
                assert(out@.map_values(
                    |comparator: JmapEmailComparator| comparator_content(comparator),
                ) =~= sort@);
            }
            Some(out)
        },
        None => None,
    }
}

/// The request of an Email/query built from values of `io_jmap`.
pub open spec fn email_query_request_of(
    session: JmapSession,
    auth: Seq<char>,
    filter: JmapFilter<JmapEmailFilter>,
    sort: Option<Vec<JmapEmailComparator>>,
    bounds: (Option<u64>, Option<u64>),
    properties: Vec<JmapEmailProperty>,
) -> EmailQueryRequest {
    EmailQueryRequest {
        session,
        auth,
        filter: filter_content(filter),
        sort: comparators_content(sort),
        position: bounds.0,
        limit: bounds.1,
        properties: properties_content(properties@),
    }
}

/// The Email/query exchange of `io_jmap`.
#[verifier::external_type_specification]
#[verifier::external_body]
pub struct ExJmapEmailQuery(JmapEmailQuery);

/// Why an Email/query failed.
#[verifier::external_type_specification]
#[verifier::external_body]
pub struct ExJmapEmailQueryError(JmapEmailQueryError);

/// What [`JmapEmailQuery::new`] gives for a request.
pub uninterp spec fn email_query_made(request: EmailQueryRequest) -> Result<JmapEmailQuery, JmapEmailQueryError>;

/// Whether the exchange is over: it is not to be resumed then.
pub uninterp spec fn email_query_ended(email_query: JmapEmailQuery) -> bool;

/// What the next step of an Email/query exchange comes to: the emails as they
/// came.
pub uninterp spec fn email_query_outcome(email_query: JmapEmailQuery, bytes: Option<Seq<u8>>) -> Outcome<Seq<JmapEmail>, JmapEmailQueryError>;

/// The exchange after that step.
pub uninterp spec fn email_query_next(email_query: JmapEmailQuery, bytes: Option<Seq<u8>>) -> JmapEmailQuery;

/// Where the reply that the exchange reads stands.
pub uninterp spec fn email_query_framing(email_query: JmapEmailQuery) -> Framing;

/// [`JmapEmailQuery::new`].
#[verifier::external_body]
fn email_query_make(
    session: &JmapSession,
    auth: &HttpAuth,
    filter: JmapFilter<JmapEmailFilter>,
    sort: Option<Vec<JmapEmailComparator>>,
    bounds: (Option<u64>, Option<u64>),
    properties: Vec<JmapEmailProperty>,
) -> (r: Result<JmapEmailQuery, JmapEmailQueryError>)
    ensures
        r == email_query_made(email_query_request_of(*session, auth@, filter, sort, bounds, properties)),
        r matches Ok(email_query) ==> !email_query_ended(email_query) && email_query_framing(email_query) == (Framing::Unsent {
            streamed: false,
        }),
{
    let auth = SecretString::from(auth.header.clone());
    let opts = JmapEmailQueryOptions {
        filter: Some(filter),
        sort,
        position: bounds.0,
        limit: bounds.1,
        properties: Some(properties),
    };
    JmapEmailQuery::new(session, &auth, opts)
}

/// One step of [`JmapEmailQuery`].
#[verifier::external_body]
fn email_query_run(email_query: &mut JmapEmailQuery, bytes: Option<&[u8]>) -> (r: EmailCoroutineState<
    JmapStep,
    Result<EmailBatch, JmapEmailQueryError>,
>)
    requires
        !email_query_ended(*old(email_query)),
        !email_query_framing(*old(email_query)).after(fed(bytes)).oversized(),
    ensures
        r.outcome() == email_query_outcome(*old(email_query), fed(bytes)),
        *final(email_query) == email_query_next(*old(email_query), fed(bytes)),
        r is Yielded ==> {
            &&& !email_query_ended(*final(email_query))
            &&& email_query_framing(*final(email_query)) == email_query_framing(*old(email_query)).after(fed(bytes))
        },
{
    match email_query.resume(bytes) {
        JmapCoroutineState::Yielded(JmapYield::WantsRead) => {
            EmailCoroutineState::Yielded(JmapStep::WantsRead)
        },
        JmapCoroutineState::Yielded(JmapYield::WantsWrite(out)) => {
            EmailCoroutineState::Yielded(JmapStep::WantsWrite(out))
        },
        JmapCoroutineState::Complete(Ok(output)) => {
            EmailCoroutineState::Complete(Ok(EmailBatch { emails: output.emails }))
        },
        JmapCoroutineState::Complete(Err(err)) => EmailCoroutineState::Complete(Err(err)),
    }
}

/// The exchange for a request, and the framing of its reply.
pub open spec fn email_query_built(request: EmailQueryRequest) -> Result<Guarded<JmapEmailQuery>, HttpFault<JmapEmailQueryError>> {
    guarded_built(email_query_made(request), false)
}

/// Whether the exchange is not to be resumed: it is over, or its framing was
/// not followed.
pub open spec fn email_query_over(email_query: Guarded<JmapEmailQuery>) -> bool {
    email_query_ended(email_query.exchange) || email_query_framing(email_query.exchange) != email_query.framing
}

/// What the next step comes to; a reply that announces too large a chunk is
/// refused.
pub open spec fn email_query_step(email_query: Guarded<JmapEmailQuery>, bytes: Option<Seq<u8>>) -> Outcome<
    Seq<JmapEmail>,
    HttpFault<JmapEmailQueryError>,
> {
    guarded_step(email_query.framing, bytes, email_query_outcome(email_query.exchange, bytes))
}

/// The exchange after that step.
pub open spec fn email_query_left(email_query: Guarded<JmapEmailQuery>, bytes: Option<Seq<u8>>) -> Guarded<JmapEmailQuery> {
    guarded_left(email_query, bytes, email_query_next(email_query.exchange, bytes))
}

/// Starts the exchange.
pub(crate) fn email_query_new(
    session: &JmapSession,
    auth: &HttpAuth,
    filter: JmapFilter<JmapEmailFilter>,
    sort: Option<Vec<JmapEmailComparator>>,
    bounds: (Option<u64>, Option<u64>),
    properties: Vec<JmapEmailProperty>,
) -> (r: Result<Guarded<JmapEmailQuery>, HttpFault<JmapEmailQueryError>>)
    ensures
        r == email_query_built(email_query_request_of(*session, auth@, filter, sort, bounds, properties)),
        r matches Ok(email_query) ==> !email_query_over(email_query),
{
    guard(email_query_make(session, auth, filter, sort, bounds, properties), false)
}

/// Takes one step, unless the reply is refused.
pub(crate) fn email_query_resume(email_query: &mut Guarded<JmapEmailQuery>, bytes: Option<&[u8]>) -> (r:
    EmailCoroutineState<JmapStep, Result<EmailBatch, HttpFault<JmapEmailQueryError>>>)
    requires
        !email_query_over(*old(email_query)),
    ensures
        r.outcome() == email_query_step(*old(email_query), fed(bytes)),
        *final(email_query) == email_query_left(*old(email_query), fed(bytes)),
        r is Yielded ==> !email_query_over(*final(email_query)),
{
    if !email_query.admits(bytes) {
        return EmailCoroutineState::Complete(Err(HttpFault::ChunkSize));
    }
    faulted(email_query_run(&mut email_query.exchange, bytes))
}

/// A property of a mailbox.
#[derive(Clone, Copy, Debug, PartialEq, Eq, Structural)]
pub enum MailboxProperty {
    Id,
    Name,
    TotalEmails,
    UnreadEmails,
}

/// The properties of a mailbox; counts that were not given are zero.
pub struct JmapMailboxRow {
    pub id: Option<String>,
    pub name: Option<String>,
    pub total: u32,
    pub unread: u32,
}

/// What a [`JmapMailboxRow`] says.
pub struct JmapMailboxRowView {
    pub id: Option<Seq<char>>,
    pub name: Option<Seq<char>>,
    pub total: u32,
    pub unread: u32,
}

impl DeepView for JmapMailboxRow {
    type V = JmapMailboxRowView;

    open spec fn deep_view(&self) -> JmapMailboxRowView {
        JmapMailboxRowView {
            id: self.id.deep_view(),
            name: self.name.deep_view(),
            total: self.total,
            unread: self.unread,
        }
    }
}

/// What a Mailbox/query asks for.
pub struct MailboxQueryRequest {
    pub session: JmapSession,
    pub auth: Seq<char>,
    /// The name that mailboxes are filtered by, if any.
    pub name: Option<Seq<char>>,
    pub properties: Seq<MailboxProperty>,
}

/// The Mailbox/query exchange of `io_jmap`.
#[verifier::external_type_specification]
#[verifier::external_body]
pub struct ExJmapMailboxQuery(JmapMailboxQuery);

/// Why a Mailbox/query failed.
#[verifier::external_type_specification]
#[verifier::external_body]
pub struct ExJmapMailboxQueryError(JmapMailboxQueryError);

/// What [`JmapMailboxQuery::new`] gives for a request.
pub uninterp spec fn mailbox_query_made(request: MailboxQueryRequest) -> Result<JmapMailboxQuery, JmapMailboxQueryError>;

/// Whether the exchange is over: it is not to be resumed then.
pub uninterp spec fn mailbox_query_ended(mailbox_query: JmapMailboxQuery) -> bool;

/// What the next step of a Mailbox/query exchange comes to: the mailboxes as
/// they came.
pub uninterp spec fn mailbox_query_outcome(mailbox_query: JmapMailboxQuery, bytes: Option<Seq<u8>>) -> Outcome<Seq<JmapMailboxRowView>, JmapMailboxQueryError>;

/// The exchange after that step.
pub uninterp spec fn mailbox_query_next(mailbox_query: JmapMailboxQuery, bytes: Option<Seq<u8>>) -> JmapMailboxQuery;

/// Where the reply that the exchange reads stands.
pub uninterp spec fn mailbox_query_framing(mailbox_query: JmapMailboxQuery) -> Framing;

/// [`JmapMailboxQuery::new`] without sort or bounds.
#[verifier::external_body]
fn mailbox_query_make(
    session: &JmapSession,
    auth: &HttpAuth,
    name: Option<String>,
    properties: &Vec<MailboxProperty>,
) -> (r: Result<JmapMailboxQuery, JmapMailboxQueryError>)
    ensures
        r == mailbox_query_made(MailboxQueryRequest { session: *session, auth: auth@, name: name.deep_view(), properties: properties@ }),
        r matches Ok(mailbox_query) ==> !mailbox_query_ended(mailbox_query) && mailbox_query_framing(mailbox_query) == (Framing::Unsent {
            streamed: false,
        }),
{
    let auth = SecretString::from(auth.header.clone());
    let filter = name.map(|name| JmapMailboxFilter { name: Some(name), ..Default::default() });
    let properties = properties.iter().map(|property| match property {
        MailboxProperty::Id => JmapMailboxProperty::Id,
        MailboxProperty::Name => JmapMailboxProperty::Name,
        MailboxProperty::TotalEmails => JmapMailboxProperty::TotalEmails,
        MailboxProperty::UnreadEmails => JmapMailboxProperty::UnreadEmails,
    }).collect();
    let opts = JmapMailboxQueryOptions { filter, properties: Some(properties), ..Default::default() };
    JmapMailboxQuery::new(session, &auth, opts)
}

/// One step of [`JmapMailboxQuery`].
#[verifier::external_body]
fn mailbox_query_run(mailbox_query: &mut JmapMailboxQuery, bytes: Option<&[u8]>) -> (r: EmailCoroutineState<
    JmapStep,
    Result<Vec<JmapMailboxRow>, JmapMailboxQueryError>,
>)
    requires
        !mailbox_query_ended(*old(mailbox_query)),
        !mailbox_query_framing(*old(mailbox_query)).after(fed(bytes)).oversized(),
    ensures
        r.outcome() == mailbox_query_outcome(*old(mailbox_query), fed(bytes)),
        *final(mailbox_query) == mailbox_query_next(*old(mailbox_query), fed(bytes)),
        r is Yielded ==> {
            &&& !mailbox_query_ended(*final(mailbox_query))
            &&& mailbox_query_framing(*final(mailbox_query)) == mailbox_query_framing(*old(mailbox_query)).after(fed(bytes))
        },
{
    match mailbox_query.resume(bytes) {
        JmapCoroutineState::Yielded(JmapYield::WantsRead) => {
            EmailCoroutineState::Yielded(JmapStep::WantsRead)
        },
        JmapCoroutineState::Yielded(JmapYield::WantsWrite(out)) => {
            EmailCoroutineState::Yielded(JmapStep::WantsWrite(out))
        },
        JmapCoroutineState::Complete(Ok(output)) => {
            EmailCoroutineState::Complete(Ok(output.mailboxes.into_iter().map(|m| JmapMailboxRow {
                id: m.id, name: m.name, total: m.total_emails, unread: m.unread_emails,
            }).collect()))
        },
        JmapCoroutineState::Complete(Err(err)) => EmailCoroutineState::Complete(Err(err)),
    }
}

/// The exchange for a request, and the framing of its reply.
pub open spec fn mailbox_query_built(request: MailboxQueryRequest) -> Result<Guarded<JmapMailboxQuery>, HttpFault<JmapMailboxQueryError>> {
    guarded_built(mailbox_query_made(request), false)
}

/// Whether the exchange is not to be resumed: it is over, or its framing was
/// not followed.
pub open spec fn mailbox_query_over(mailbox_query: Guarded<JmapMailboxQuery>) -> bool {
    mailbox_query_ended(mailbox_query.exchange) || mailbox_query_framing(mailbox_query.exchange) != mailbox_query.framing
}

/// What the next step comes to; a reply that announces too large a chunk is
/// refused.
pub open spec fn mailbox_query_step(mailbox_query: Guarded<JmapMailboxQuery>, bytes: Option<Seq<u8>>) -> Outcome<
    Seq<JmapMailboxRowView>,
    HttpFault<JmapMailboxQueryError>,
> {
    guarded_step(mailbox_query.framing, bytes, mailbox_query_outcome(mailbox_query.exchange, bytes))
}

/// The exchange after that step.
pub open spec fn mailbox_query_left(mailbox_query: Guarded<JmapMailboxQuery>, bytes: Option<Seq<u8>>) -> Guarded<JmapMailboxQuery> {
    guarded_left(mailbox_query, bytes, mailbox_query_next(mailbox_query.exchange, bytes))
}

/// Starts the exchange.
pub(crate) fn mailbox_query_new(
    session: &JmapSession,
    auth: &HttpAuth,
    name: Option<String>,
    properties: &Vec<MailboxProperty>,
) -> (r: Result<Guarded<JmapMailboxQuery>, HttpFault<JmapMailboxQueryError>>)
    ensures
        r == mailbox_query_built(MailboxQueryRequest { session: *session, auth: auth@, name: name.deep_view(), properties: properties@ }),
        r matches Ok(mailbox_query) ==> !mailbox_query_over(mailbox_query),
{
    guard(mailbox_query_make(session, auth, name, properties), false)
}

/// Takes one step, unless the reply is refused.
pub(crate) fn mailbox_query_resume(mailbox_query: &mut Guarded<JmapMailboxQuery>, bytes: Option<&[u8]>) -> (r:
    EmailCoroutineState<JmapStep, Result<Vec<JmapMailboxRow>, HttpFault<JmapMailboxQueryError>>>)
    requires
        !mailbox_query_over(*old(mailbox_query)),
    ensures
        r.outcome() == mailbox_query_step(*old(mailbox_query), fed(bytes)),
        *final(mailbox_query) == mailbox_query_left(*old(mailbox_query), fed(bytes)),
        r is Yielded ==> !mailbox_query_over(*final(mailbox_query)),
{
    if !mailbox_query.admits(bytes) {
        return EmailCoroutineState::Complete(Err(HttpFault::ChunkSize));
    }
    faulted(mailbox_query_run(&mut mailbox_query.exchange, bytes))
}

/// One change that an Email/set makes to an email.
pub enum EmailPatch {
    SetKeyword(Seq<char>),
    UnsetKeyword(Seq<char>),
    /// The keywords take the place of those the email has.
    ReplaceKeywords(Set<Seq<char>>),
    AddToMailbox(Seq<char>),
    RemoveFromMailbox(Seq<char>),
}

/// What an Email/set asks for.
pub struct EmailSetRequest {
    pub session: JmapSession,
    pub auth: Seq<char>,
    /// The changes to each email, from the first to the last.
    pub patches: Map<Seq<char>, Seq<EmailPatch>>,
    /// The ids of the emails to destroy.
    pub destroy: Seq<Seq<char>>,
}

/// No changes at all.
pub open spec fn no_patches() -> Map<Seq<char>, Seq<EmailPatch>> {
    Map::empty()
}

/// The changes with one more to an email, after those it had.
pub open spec fn with_patch(
    patches: Map<Seq<char>, Seq<EmailPatch>>,
    id: Seq<char>,
    patch: EmailPatch,
) -> Map<Seq<char>, Seq<EmailPatch>> {
    let before: Seq<EmailPatch> = if patches.contains_key(id) {
        patches[id]
    } else {
        seq![]
    };
    patches.insert(id, before.push(patch))
}

/// What an Email/set came to.
pub struct EmailSetOutput {
    /// The ids whose change was refused, in order.
    pub not_updated: Vec<String>,
    pub destroyed: Vec<String>,
}

/// What an [`EmailSetOutput`] says.
pub struct EmailSetOutputView {
    pub not_updated: Seq<Seq<char>>,
    pub destroyed: Seq<Seq<char>>,
}

impl DeepView for EmailSetOutput {
    type V = EmailSetOutputView;

    open spec fn deep_view(&self) -> EmailSetOutputView {
        EmailSetOutputView {
            not_updated: self.not_updated.deep_view(),
            destroyed: self.destroyed.deep_view(),
        }
    }
}

/// The Email/set exchange of `io_jmap`.
#[verifier::external_type_specification]
#[verifier::external_body]
pub struct ExJmapEmailSet(JmapEmailSet);

/// Why an Email/set failed.
#[verifier::external_type_specification]
#[verifier::external_body]
pub struct ExJmapEmailSetError(JmapEmailSetError);

/// What [`JmapEmailSet::new`] gives for a request.
pub uninterp spec fn email_set_made(request: EmailSetRequest) -> Result<JmapEmailSet, JmapEmailSetError>;

/// Whether the exchange is over: it is not to be resumed then.
pub uninterp spec fn email_set_ended(email_set: JmapEmailSet) -> bool;

/// What the next step of an Email/set exchange comes to.
pub uninterp spec fn email_set_outcome(email_set: JmapEmailSet, bytes: Option<Seq<u8>>) -> Outcome<EmailSetOutputView, JmapEmailSetError>;

/// The exchange after that step.
pub uninterp spec fn email_set_next(email_set: JmapEmailSet, bytes: Option<Seq<u8>>) -> JmapEmailSet;

/// Where the reply that the exchange reads stands.
pub uninterp spec fn email_set_framing(email_set: JmapEmailSet) -> Framing;

/// The changes that an Email/set is to make.
#[verifier::external_type_specification]
#[verifier::external_body]
pub struct ExJmapEmailSetArgs(JmapEmailSetArgs);

/// The changes queued for each email.
pub uninterp spec fn args_patches(args: JmapEmailSetArgs) -> Map<Seq<char>, Seq<EmailPatch>>;

/// The emails queued for destruction.
pub uninterp spec fn args_destroy(args: JmapEmailSetArgs) -> Seq<Seq<char>>;

/// [`JmapEmailSetArgs::default`], with nothing queued.
#[verifier::external_body]
pub(crate) fn email_set_args() -> (r: JmapEmailSetArgs)
    ensures
        args_patches(r) == no_patches(),
        args_destroy(r).len() == 0,
{
    JmapEmailSetArgs::default()
}

/// [`JmapEmailSetArgs::set_keyword`].
#[verifier::external_body]
pub(crate) fn args_set_keyword(args: &mut JmapEmailSetArgs, id: &str, keyword: &str)
    ensures
        args_patches(*final(args)) == with_patch(args_patches(*old(args)), id@, EmailPatch::SetKeyword(keyword@)),
        args_destroy(*final(args)) == args_destroy(*old(args)),
{
    args.set_keyword(id, keyword);
}

/// [`JmapEmailSetArgs::unset_keyword`].
#[verifier::external_body]
pub(crate) fn args_unset_keyword(args: &mut JmapEmailSetArgs, id: &str, keyword: &str)
    ensures
        args_patches(*final(args)) == with_patch(args_patches(*old(args)), id@, EmailPatch::UnsetKeyword(keyword@)),
        args_destroy(*final(args)) == args_destroy(*old(args)),
{
    args.unset_keyword(id, keyword);
}

/// [`JmapEmailSetArgs::replace_keywords`].
#[verifier::external_body]
pub(crate) fn args_replace_keywords(args: &mut JmapEmailSetArgs, id: &str, keywords: Vec<String>)
    ensures
        args_patches(*final(args)) == with_patch(args_patches(*old(args)), id@, EmailPatch::ReplaceKeywords(keywords.deep_view().to_set())),
        args_destroy(*final(args)) == args_destroy(*old(args)),
{
    args.replace_keywords(id, keywords.into_iter().map(|word| (word, true)).collect());
}

/// [`JmapEmailSetArgs::add_to_mailbox`].
#[verifier::external_body]
pub(crate) fn args_add_to_mailbox(args: &mut JmapEmailSetArgs, id: &str, mailbox: &str)
    ensures
        args_patches(*final(args)) == with_patch(args_patches(*old(args)), id@, EmailPatch::AddToMailbox(mailbox@)),
        args_destroy(*final(args)) == args_destroy(*old(args)),
{
    args.add_to_mailbox(id, mailbox);
}

/// [`JmapEmailSetArgs::remove_from_mailbox`].
#[verifier::external_body]
pub(crate) fn args_remove_from_mailbox(args: &mut JmapEmailSetArgs, id: &str, mailbox: &str)
    ensures
        args_patches(*final(args)) == with_patch(args_patches(*old(args)), id@, EmailPatch::RemoveFromMailbox(mailbox@)),
        args_destroy(*final(args)) == args_destroy(*old(args)),
{
    args.remove_from_mailbox(id, mailbox);
}

/// [`JmapEmailSetArgs::destroy`].
#[verifier::external_body]
pub(crate) fn args_destroy_email(args: &mut JmapEmailSetArgs, id: &str)
    ensures
        args_patches(*final(args)) == args_patches(*old(args)),
        args_destroy(*final(args)) == args_destroy(*old(args)).push(id@),
{
    args.destroy(id);
}

/// The request of an Email/set exchange with these changes.
pub open spec fn email_set_of(session: JmapSession, auth: Seq<char>, args: JmapEmailSetArgs) -> EmailSetRequest {
    EmailSetRequest { session, auth, patches: args_patches(args), destroy: args_destroy(args) }
}

/// [`JmapEmailSet::new`].
#[verifier::external_body]
fn email_set_make(session: &JmapSession, auth: &HttpAuth, args: JmapEmailSetArgs) -> (r: Result<JmapEmailSet, JmapEmailSetError>)
    ensures
        r == email_set_made(email_set_of(*session, auth@, args)),
        r matches Ok(email_set) ==> !email_set_ended(email_set) && email_set_framing(email_set) == (Framing::Unsent {
            streamed: false,
        }),
{
    JmapEmailSet::new(session, &SecretString::from(auth.header.clone()), args)
}

/// One step of [`JmapEmailSet`].
#[verifier::external_body]
fn email_set_run(email_set: &mut JmapEmailSet, bytes: Option<&[u8]>) -> (r: EmailCoroutineState<
    JmapStep,
    Result<EmailSetOutput, JmapEmailSetError>,
>)
    requires
        !email_set_ended(*old(email_set)),
        !email_set_framing(*old(email_set)).after(fed(bytes)).oversized(),
    ensures
        r.outcome() == email_set_outcome(*old(email_set), fed(bytes)),
        *final(email_set) == email_set_next(*old(email_set), fed(bytes)),
        r is Yielded ==> {
            &&& !email_set_ended(*final(email_set))
            &&& email_set_framing(*final(email_set)) == email_set_framing(*old(email_set)).after(fed(bytes))
        },
{
    match email_set.resume(bytes) {
        JmapCoroutineState::Yielded(JmapYield::WantsRead) => {
            EmailCoroutineState::Yielded(JmapStep::WantsRead)
        },
        JmapCoroutineState::Yielded(JmapYield::WantsWrite(out)) => {
            EmailCoroutineState::Yielded(JmapStep::WantsWrite(out))
        },
        JmapCoroutineState::Complete(Ok(output)) => {
            EmailCoroutineState::Complete(Ok(EmailSetOutput {
                not_updated: output.not_updated.into_keys().collect(),
                destroyed: output.destroyed,
            }))
        },
        JmapCoroutineState::Complete(Err(err)) => EmailCoroutineState::Complete(Err(err)),
    }
}

/// The exchange for a request, and the framing of its reply.
pub open spec fn email_set_built(request: EmailSetRequest) -> Result<Guarded<JmapEmailSet>, HttpFault<JmapEmailSetError>> {
    guarded_built(email_set_made(request), false)
}

/// Whether the exchange is not to be resumed: it is over, or its framing was
/// not followed.
pub open spec fn email_set_over(email_set: Guarded<JmapEmailSet>) -> bool {
    email_set_ended(email_set.exchange) || email_set_framing(email_set.exchange) != email_set.framing
}

/// What the next step comes to; a reply that announces too large a chunk is
/// refused.
pub open spec fn email_set_step(email_set: Guarded<JmapEmailSet>, bytes: Option<Seq<u8>>) -> Outcome<
    EmailSetOutputView,
    HttpFault<JmapEmailSetError>,
> {
    guarded_step(email_set.framing, bytes, email_set_outcome(email_set.exchange, bytes))
}

/// The exchange after that step.
pub open spec fn email_set_left(email_set: Guarded<JmapEmailSet>, bytes: Option<Seq<u8>>) -> Guarded<JmapEmailSet> {
    guarded_left(email_set, bytes, email_set_next(email_set.exchange, bytes))
}

/// Starts the exchange.
pub(crate) fn email_set_new(
    session: &JmapSession,
    auth: &HttpAuth,
    args: JmapEmailSetArgs,
) -> (r: Result<Guarded<JmapEmailSet>, HttpFault<JmapEmailSetError>>)
    ensures
        r == email_set_built(email_set_of(*session, auth@, args)),
        r matches Ok(email_set) ==> !email_set_over(email_set),
{
    guard(email_set_make(session, auth, args), false)
}

/// Takes one step, unless the reply is refused.
pub(crate) fn email_set_resume(email_set: &mut Guarded<JmapEmailSet>, bytes: Option<&[u8]>) -> (r:
    EmailCoroutineState<JmapStep, Result<EmailSetOutput, HttpFault<JmapEmailSetError>>>)
    requires
        !email_set_over(*old(email_set)),
    ensures
        r.outcome() == email_set_step(*old(email_set), fed(bytes)),
        *final(email_set) == email_set_left(*old(email_set), fed(bytes)),
        r is Yielded ==> !email_set_over(*final(email_set)),
{
    if !email_set.admits(bytes) {
        return EmailCoroutineState::Complete(Err(HttpFault::ChunkSize));
    }
    faulted(email_set_run(&mut email_set.exchange, bytes))
}

/// What a Mailbox/set asks for.
pub struct MailboxSetRequest {
    pub session: JmapSession,
    pub auth: Seq<char>,
    /// The mailbox to destroy.
    pub destroy: Seq<char>,
    /// Whether its emails are removed with it.
    pub remove_emails: bool,
}

/// The Mailbox/set exchange of `io_jmap`.
#[verifier::external_type_specification]
#[verifier::external_body]
pub struct ExJmapMailboxSet(JmapMailboxSet);

/// Why a Mailbox/set failed.
#[verifier::external_type_specification]
#[verifier::external_body]
pub struct ExJmapMailboxSetError(JmapMailboxSetError);

/// What [`JmapMailboxSet::new`] gives for a request.
pub uninterp spec fn mailbox_set_made(request: MailboxSetRequest) -> Result<JmapMailboxSet, JmapMailboxSetError>;

/// Whether the exchange is over: it is not to be resumed then.
pub uninterp spec fn mailbox_set_ended(mailbox_set: JmapMailboxSet) -> bool;

/// What the next step of a Mailbox/set exchange comes to: the ids destroyed.
pub uninterp spec fn mailbox_set_outcome(mailbox_set: JmapMailboxSet, bytes: Option<Seq<u8>>) -> Outcome<Seq<Seq<char>>, JmapMailboxSetError>;

/// The exchange after that step.
pub uninterp spec fn mailbox_set_next(mailbox_set: JmapMailboxSet, bytes: Option<Seq<u8>>) -> JmapMailboxSet;

/// Where the reply that the exchange reads stands.
pub uninterp spec fn mailbox_set_framing(mailbox_set: JmapMailboxSet) -> Framing;

/// [`JmapMailboxSet::new`] destroying one mailbox.
#[verifier::external_body]
fn mailbox_set_make(
    session: &JmapSession,
    auth: &HttpAuth,
    id: &str,
    remove_emails: bool,
) -> (r: Result<JmapMailboxSet, JmapMailboxSetError>)
    ensures
        r == mailbox_set_made(MailboxSetRequest {
                session: *session,
                auth: auth@,
                destroy: id@,
                remove_emails,
            }),
        r matches Ok(mailbox_set) ==> !mailbox_set_ended(mailbox_set) && mailbox_set_framing(mailbox_set) == (Framing::Unsent {
            streamed: false,
        }),
{
    let args = JmapMailboxSetArgs {
        destroy: Some(vec![id.to_owned()]),
        on_destroy_remove_emails: Some(remove_emails),
        ..Default::default()
    };
    JmapMailboxSet::new(session, &SecretString::from(auth.header.clone()), args)
}

/// One step of [`JmapMailboxSet`].
#[verifier::external_body]
fn mailbox_set_run(mailbox_set: &mut JmapMailboxSet, bytes: Option<&[u8]>) -> (r: EmailCoroutineState<
    JmapStep,
    Result<Vec<String>, JmapMailboxSetError>,
>)
    requires
        !mailbox_set_ended(*old(mailbox_set)),
        !mailbox_set_framing(*old(mailbox_set)).after(fed(bytes)).oversized(),
    ensures
        r.outcome() == mailbox_set_outcome(*old(mailbox_set), fed(bytes)),
        *final(mailbox_set) == mailbox_set_next(*old(mailbox_set), fed(bytes)),
        r is Yielded ==> {
            &&& !mailbox_set_ended(*final(mailbox_set))
            &&& mailbox_set_framing(*final(mailbox_set)) == mailbox_set_framing(*old(mailbox_set)).after(fed(bytes))
        },
{
    match mailbox_set.resume(bytes) {
        JmapCoroutineState::Yielded(JmapYield::WantsRead) => {
            EmailCoroutineState::Yielded(JmapStep::WantsRead)
        },
        JmapCoroutineState::Yielded(JmapYield::WantsWrite(out)) => {
            EmailCoroutineState::Yielded(JmapStep::WantsWrite(out))
        },
        JmapCoroutineState::Complete(Ok(output)) => {
            EmailCoroutineState::Complete(Ok(output.destroyed))
        },
        JmapCoroutineState::Complete(Err(err)) => EmailCoroutineState::Complete(Err(err)),
    }
}

/// The exchange for a request, and the framing of its reply.
pub open spec fn mailbox_set_built(request: MailboxSetRequest) -> Result<Guarded<JmapMailboxSet>, HttpFault<JmapMailboxSetError>> {
    guarded_built(mailbox_set_made(request), false)
}

/// Whether the exchange is not to be resumed: it is over, or its framing was
/// not followed.
pub open spec fn mailbox_set_over(mailbox_set: Guarded<JmapMailboxSet>) -> bool {
    mailbox_set_ended(mailbox_set.exchange) || mailbox_set_framing(mailbox_set.exchange) != mailbox_set.framing
}

/// What the next step comes to; a reply that announces too large a chunk is
/// refused.
pub open spec fn mailbox_set_step(mailbox_set: Guarded<JmapMailboxSet>, bytes: Option<Seq<u8>>) -> Outcome<
    Seq<Seq<char>>,
    HttpFault<JmapMailboxSetError>,
> {
    guarded_step(mailbox_set.framing, bytes, mailbox_set_outcome(mailbox_set.exchange, bytes))
}

/// The exchange after that step.
pub open spec fn mailbox_set_left(mailbox_set: Guarded<JmapMailboxSet>, bytes: Option<Seq<u8>>) -> Guarded<JmapMailboxSet> {
    guarded_left(mailbox_set, bytes, mailbox_set_next(mailbox_set.exchange, bytes))
}

/// Starts the exchange.
pub(crate) fn mailbox_set_new(
    session: &JmapSession,
    auth: &HttpAuth,
    id: &str,
    remove_emails: bool,
) -> (r: Result<Guarded<JmapMailboxSet>, HttpFault<JmapMailboxSetError>>)
    ensures
        r == mailbox_set_built(MailboxSetRequest {
                session: *session,
                auth: auth@,
                destroy: id@,
                remove_emails,
            }),
        r matches Ok(mailbox_set) ==> !mailbox_set_over(mailbox_set),
{
    guard(mailbox_set_make(session, auth, id, remove_emails), false)
}

/// Takes one step, unless the reply is refused.
pub(crate) fn mailbox_set_resume(mailbox_set: &mut Guarded<JmapMailboxSet>, bytes: Option<&[u8]>) -> (r:
    EmailCoroutineState<JmapStep, Result<Vec<String>, HttpFault<JmapMailboxSetError>>>)
    requires
        !mailbox_set_over(*old(mailbox_set)),
    ensures
        r.outcome() == mailbox_set_step(*old(mailbox_set), fed(bytes)),
        *final(mailbox_set) == mailbox_set_left(*old(mailbox_set), fed(bytes)),
        r is Yielded ==> !mailbox_set_over(*final(mailbox_set)),
{
    if !mailbox_set.admits(bytes) {
        return EmailCoroutineState::Complete(Err(HttpFault::ChunkSize));
    }
    faulted(mailbox_set_run(&mut mailbox_set.exchange, bytes))
}

/// What an upload asks for.
pub struct UploadRequest {
    pub auth: Seq<char>,
    pub url: Url,
    pub content_type: Seq<char>,
    pub data: Seq<u8>,
}

/// What an upload came to.
pub enum Uploaded {
    /// The id of the blob.
    Blob(String),
    /// The server answered with a redirection.
    Redirect,
}

/// What an [`Uploaded`] says.
pub enum UploadedView {
    Blob(Seq<char>),
    Redirect,
}

impl DeepView for Uploaded {
    type V = UploadedView;

    open spec fn deep_view(&self) -> UploadedView {
        match self {
            Uploaded::Blob(id) => UploadedView::Blob(id@),
            Uploaded::Redirect => UploadedView::Redirect,
        }
    }
}

/// The blob upload exchange of `io_jmap`.
#[verifier::external_type_specification]
#[verifier::external_body]
pub struct ExJmapBlobUpload(JmapBlobUpload);

/// Why a blob upload failed.
#[verifier::external_type_specification]
#[verifier::external_body]
pub struct ExJmapBlobUploadError(JmapBlobUploadError);

/// What [`JmapBlobUpload::new`] gives for a request.
pub uninterp spec fn upload_made(request: UploadRequest) -> JmapBlobUpload;

/// Whether the exchange is over: it is not to be resumed then.
pub uninterp spec fn upload_ended(upload: JmapBlobUpload) -> bool;

/// What the next step of an upload comes to.
pub uninterp spec fn upload_outcome(upload: JmapBlobUpload, bytes: Option<Seq<u8>>) -> Outcome<UploadedView, JmapBlobUploadError>;

/// The exchange after that step.
pub uninterp spec fn upload_next(upload: JmapBlobUpload, bytes: Option<Seq<u8>>) -> JmapBlobUpload;

/// Where the reply that the exchange reads stands.
pub uninterp spec fn upload_framing(upload: JmapBlobUpload) -> Framing;

/// [`JmapBlobUpload::new`].
#[verifier::external_body]
fn upload_make(auth: &HttpAuth, url: &Url, content_type: &str, data: Vec<u8>) -> (r:
    JmapBlobUpload)
    ensures
        r == upload_made(UploadRequest {
                auth: auth@,
                url: *url,
                content_type: content_type@,
                data: data@,
            }),
        !upload_ended(r),
        upload_framing(r) == (Framing::Unsent { streamed: false }),
{
    JmapBlobUpload::new(&SecretString::from(auth.header.clone()), url, content_type, data)
}

/// One step of [`JmapBlobUpload`]. A redirection ends the
/// exchange.
#[verifier::external_body]
fn upload_run(upload: &mut JmapBlobUpload, bytes: Option<&[u8]>) -> (r: EmailCoroutineState<
    JmapStep,
    Result<Uploaded, JmapBlobUploadError>,
>)
    requires
        !upload_ended(*old(upload)),
        !upload_framing(*old(upload)).after(fed(bytes)).oversized(),
    ensures
        r.outcome() == upload_outcome(*old(upload), fed(bytes)),
        *final(upload) == upload_next(*old(upload), fed(bytes)),
        r is Yielded ==> {
            &&& !upload_ended(*final(upload))
            &&& upload_framing(*final(upload)) == upload_framing(*old(upload)).after(fed(bytes))
        },
{
    match upload.resume(bytes) {
        JmapCoroutineState::Yielded(JmapRedirectYield::WantsRead) => {
            EmailCoroutineState::Yielded(JmapStep::WantsRead)
        },
        JmapCoroutineState::Yielded(JmapRedirectYield::WantsWrite(out)) => {
            EmailCoroutineState::Yielded(JmapStep::WantsWrite(out))
        },
        JmapCoroutineState::Yielded(JmapRedirectYield::WantsRedirect { .. }) => {
            EmailCoroutineState::Complete(Ok(Uploaded::Redirect))
        },
        JmapCoroutineState::Complete(Ok(output)) => {
            EmailCoroutineState::Complete(Ok(Uploaded::Blob(output.blob_id)))
        },
        JmapCoroutineState::Complete(Err(err)) => EmailCoroutineState::Complete(Err(err)),
    }
}

/// The exchange for a request, and the framing of its reply.
pub open spec fn upload_built(request: UploadRequest) -> Guarded<JmapBlobUpload> {
    Guarded { exchange: upload_made(request), framing: Framing::Unsent { streamed: false } }
}

/// Whether the exchange is not to be resumed: it is over, or its framing was
/// not followed.
pub open spec fn upload_over(upload: Guarded<JmapBlobUpload>) -> bool {
    upload_ended(upload.exchange) || upload_framing(upload.exchange) != upload.framing
}

/// What the next step comes to; a reply that announces too large a chunk is
/// refused.
pub open spec fn upload_step(upload: Guarded<JmapBlobUpload>, bytes: Option<Seq<u8>>) -> Outcome<
    UploadedView,
    HttpFault<JmapBlobUploadError>,
> {
    guarded_step(upload.framing, bytes, upload_outcome(upload.exchange, bytes))
}

/// The exchange after that step.
pub open spec fn upload_left(upload: Guarded<JmapBlobUpload>, bytes: Option<Seq<u8>>) -> Guarded<JmapBlobUpload> {
    guarded_left(upload, bytes, upload_next(upload.exchange, bytes))
}

/// Starts the exchange.
pub(crate) fn upload_new(
    auth: &HttpAuth,
    url: &Url,
    content_type: &str,
    data: Vec<u8>,
) -> (r: Guarded<JmapBlobUpload>)
    ensures
        r == upload_built(UploadRequest {
                auth: auth@,
                url: *url,
                content_type: content_type@,
                data: data@,
            }),
        !upload_over(r),
{
    Guarded { exchange: upload_make(auth, url, content_type, data), framing: Framing::Unsent { streamed: false } }
}

/// Takes one step, unless the reply is refused.
pub(crate) fn upload_resume(upload: &mut Guarded<JmapBlobUpload>, bytes: Option<&[u8]>) -> (r:
    EmailCoroutineState<JmapStep, Result<Uploaded, HttpFault<JmapBlobUploadError>>>)
    requires
        !upload_over(*old(upload)),
    ensures
        r.outcome() == upload_step(*old(upload), fed(bytes)),
        *final(upload) == upload_left(*old(upload), fed(bytes)),
        r is Yielded ==> !upload_over(*final(upload)),
{
    if !upload.admits(bytes) {
        return EmailCoroutineState::Complete(Err(HttpFault::ChunkSize));
    }
    faulted(upload_run(&mut upload.exchange, bytes))
}

/// What a download asks for.
pub struct DownloadRequest {
    pub auth: Seq<char>,
    pub url: Url,
}

/// What a download came to.
pub enum Downloaded {
    Data(Vec<u8>),
    /// The server answered with a redirection.
    Redirect,
}

/// What a [`Downloaded`] says.
pub enum DownloadedView {
    Data(Seq<u8>),
    Redirect,
}

impl DeepView for Downloaded {
    type V = DownloadedView;

    open spec fn deep_view(&self) -> DownloadedView {
        match self {
            Downloaded::Data(data) => DownloadedView::Data(data@),
            Downloaded::Redirect => DownloadedView::Redirect,
        }
    }
}

/// The blob download exchange of `io_jmap`.
#[verifier::external_type_specification]
#[verifier::external_body]
pub struct ExJmapBlobDownload(JmapBlobDownload);

/// Why a blob download failed.
#[verifier::external_type_specification]
#[verifier::external_body]
pub struct ExJmapBlobDownloadError(JmapBlobDownloadError);

/// What [`JmapBlobDownload::new`] gives for a request.
pub uninterp spec fn download_made(request: DownloadRequest) -> JmapBlobDownload;

/// Whether the exchange is over: it is not to be resumed then.
pub uninterp spec fn download_ended(download: JmapBlobDownload) -> bool;

/// What the next step of a download comes to.
pub uninterp spec fn download_outcome(download: JmapBlobDownload, bytes: Option<Seq<u8>>) -> Outcome<DownloadedView, JmapBlobDownloadError>;

/// The exchange after that step.
pub uninterp spec fn download_next(download: JmapBlobDownload, bytes: Option<Seq<u8>>) -> JmapBlobDownload;

/// Where the reply that the exchange reads stands.
pub uninterp spec fn download_framing(download: JmapBlobDownload) -> Framing;

/// [`JmapBlobDownload::new`].
#[verifier::external_body]
fn download_make(auth: &HttpAuth, url: &Url) -> (r: JmapBlobDownload)
    ensures
        r == download_made(DownloadRequest { auth: auth@, url: *url }),
        !download_ended(r),
        download_framing(r) == (Framing::Unsent { streamed: false }),
{
    JmapBlobDownload::new(&SecretString::from(auth.header.clone()), url)
}

/// One step of [`JmapBlobDownload`]. A redirection ends the
/// exchange.
#[verifier::external_body]
fn download_run(download: &mut JmapBlobDownload, bytes: Option<&[u8]>) -> (r: EmailCoroutineState<
    JmapStep,
    Result<Downloaded, JmapBlobDownloadError>,
>)
    requires
        !download_ended(*old(download)),
        !download_framing(*old(download)).after(fed(bytes)).oversized(),
    ensures
        r.outcome() == download_outcome(*old(download), fed(bytes)),
        *final(download) == download_next(*old(download), fed(bytes)),
        r is Yielded ==> {
            &&& !download_ended(*final(download))
            &&& download_framing(*final(download)) == download_framing(*old(download)).after(fed(bytes))
        },
{
    match download.resume(bytes) {
        JmapCoroutineState::Yielded(JmapRedirectYield::WantsRead) => {
            EmailCoroutineState::Yielded(JmapStep::WantsRead)
        },
        JmapCoroutineState::Yielded(JmapRedirectYield::WantsWrite(out)) => {
            EmailCoroutineState::Yielded(JmapStep::WantsWrite(out))
        },
        JmapCoroutineState::Yielded(JmapRedirectYield::WantsRedirect { .. }) => {
            EmailCoroutineState::Complete(Ok(Downloaded::Redirect))
        },
        JmapCoroutineState::Complete(Ok(output)) => {
            EmailCoroutineState::Complete(Ok(Downloaded::Data(output.data)))
        },
        JmapCoroutineState::Complete(Err(err)) => EmailCoroutineState::Complete(Err(err)),
    }
}

/// The exchange for a request, and the framing of its reply.
pub open spec fn download_built(request: DownloadRequest) -> Guarded<JmapBlobDownload> {
    Guarded { exchange: download_made(request), framing: Framing::Unsent { streamed: false } }
}

/// Whether the exchange is not to be resumed: it is over, or its framing was
/// not followed.
pub open spec fn download_over(download: Guarded<JmapBlobDownload>) -> bool {
    download_ended(download.exchange) || download_framing(download.exchange) != download.framing
}

/// What the next step comes to; a reply that announces too large a chunk is
/// refused.
pub open spec fn download_step(download: Guarded<JmapBlobDownload>, bytes: Option<Seq<u8>>) -> Outcome<
    DownloadedView,
    HttpFault<JmapBlobDownloadError>,
> {
    guarded_step(download.framing, bytes, download_outcome(download.exchange, bytes))
}

/// The exchange after that step.
pub open spec fn download_left(download: Guarded<JmapBlobDownload>, bytes: Option<Seq<u8>>) -> Guarded<JmapBlobDownload> {
    guarded_left(download, bytes, download_next(download.exchange, bytes))
}

/// Starts the exchange.
pub(crate) fn download_new(
    auth: &HttpAuth,
    url: &Url,
) -> (r: Guarded<JmapBlobDownload>)
    ensures
        r == download_built(DownloadRequest { auth: auth@, url: *url }),
        !download_over(r),
{
    Guarded { exchange: download_make(auth, url), framing: Framing::Unsent { streamed: false } }
}

/// Takes one step, unless the reply is refused.
pub(crate) fn download_resume(download: &mut Guarded<JmapBlobDownload>, bytes: Option<&[u8]>) -> (r:
    EmailCoroutineState<JmapStep, Result<Downloaded, HttpFault<JmapBlobDownloadError>>>)
    requires
        !download_over(*old(download)),
    ensures
        r.outcome() == download_step(*old(download), fed(bytes)),
        *final(download) == download_left(*old(download), fed(bytes)),
        r is Yielded ==> !download_over(*final(download)),
{
    if !download.admits(bytes) {
        return EmailCoroutineState::Complete(Err(HttpFault::ChunkSize));
    }
    faulted(download_run(&mut download.exchange, bytes))
}

/// What an Email/import asks for: one email from a blob.
pub struct ImportRequest {
    pub session: JmapSession,
    pub auth: Seq<char>,
    /// The client's name for the email.
    pub client_id: Seq<char>,
    pub blob_id: Seq<char>,
    /// The mailbox that the email goes to.
    pub mailbox: Seq<char>,
    /// The keywords of the email, `None` where none are given.
    pub keywords: Option<Set<Seq<char>>>,
}

/// What an Email/import came to.
pub struct ImportOutput {
    /// The client's name of each email created, with its id where one was
    /// given, in the order of the names.
    pub created: Vec<(String, Option<String>)>,
    /// The client's names of the emails not created.
    pub not_created: Vec<String>,
}

/// What an [`ImportOutput`] says.
pub struct ImportOutputView {
    pub created: Seq<(Seq<char>, Option<Seq<char>>)>,
    pub not_created: Seq<Seq<char>>,
}

impl DeepView for ImportOutput {
    type V = ImportOutputView;

    open spec fn deep_view(&self) -> ImportOutputView {
        ImportOutputView {
            created: self.created.deep_view(),
            not_created: self.not_created.deep_view(),
        }
    }
}

/// The Email/import exchange of `io_jmap`.
#[verifier::external_type_specification]
#[verifier::external_body]
pub struct ExJmapEmailImport(JmapEmailImport);

/// Why an Email/import failed.
#[verifier::external_type_specification]
#[verifier::external_body]
pub struct ExJmapEmailImportError(JmapEmailImportError);

/// What [`JmapEmailImport::new`] gives for a request.
pub uninterp spec fn import_made(request: ImportRequest) -> Result<JmapEmailImport, JmapEmailImportError>;

/// Whether the exchange is over: it is not to be resumed then.
pub uninterp spec fn import_ended(import: JmapEmailImport) -> bool;

/// What the next step of an Email/import exchange comes to.
pub uninterp spec fn import_outcome(import: JmapEmailImport, bytes: Option<Seq<u8>>) -> Outcome<ImportOutputView, JmapEmailImportError>;

/// The exchange after that step.
pub uninterp spec fn import_next(import: JmapEmailImport, bytes: Option<Seq<u8>>) -> JmapEmailImport;

/// Where the reply that the exchange reads stands.
pub uninterp spec fn import_framing(import: JmapEmailImport) -> Framing;

/// The words of an optional list.
pub open spec fn word_set(words: Option<Vec<String>>) -> Option<Set<Seq<char>>> {
    match words {
        Some(words) => Some(words.deep_view().to_set()),
        None => None,
    }
}

/// [`JmapEmailImport::new`] for one email without a date of receipt.
#[verifier::external_body]
fn import_make(
    session: &JmapSession,
    auth: &HttpAuth,
    client_id: &str,
    blob_id: String,
    mailbox: &str,
    keywords: Option<Vec<String>>,
) -> (r: Result<JmapEmailImport, JmapEmailImportError>)
    ensures
        r == import_made(ImportRequest {
                session: *session,
                auth: auth@,
                client_id: client_id@,
                blob_id: blob_id@,
                mailbox: mailbox@,
                keywords: word_set(keywords),
            }),
        r matches Ok(import) ==> !import_ended(import) && import_framing(import) == (Framing::Unsent {
            streamed: false,
        }),
{
    let args = JmapEmailImportArgs {
        blob_id,
        mailbox_ids: [(mailbox.to_owned(), true)].into(),
        keywords: keywords.map(|words| words.into_iter().map(|word| (word, true)).collect()),
        received_at: None,
    };
    let auth = SecretString::from(auth.header.clone());
    JmapEmailImport::new(session, &auth, [(client_id.to_owned(), args)].into())
}

/// One step of [`JmapEmailImport`].
#[verifier::external_body]
fn import_run(import: &mut JmapEmailImport, bytes: Option<&[u8]>) -> (r: EmailCoroutineState<
    JmapStep,
    Result<ImportOutput, JmapEmailImportError>,
>)
    requires
        !import_ended(*old(import)),
        !import_framing(*old(import)).after(fed(bytes)).oversized(),
    ensures
        r.outcome() == import_outcome(*old(import), fed(bytes)),
        *final(import) == import_next(*old(import), fed(bytes)),
        r is Yielded ==> {
            &&& !import_ended(*final(import))
            &&& import_framing(*final(import)) == import_framing(*old(import)).after(fed(bytes))
        },
{
    match import.resume(bytes) {
        JmapCoroutineState::Yielded(JmapYield::WantsRead) => {
            EmailCoroutineState::Yielded(JmapStep::WantsRead)
        },
        JmapCoroutineState::Yielded(JmapYield::WantsWrite(out)) => {
            EmailCoroutineState::Yielded(JmapStep::WantsWrite(out))
        },
        JmapCoroutineState::Complete(Ok(output)) => {
            EmailCoroutineState::Complete(Ok(ImportOutput {
                created: output.created.into_iter().map(|(name, email)| (name, email.id)).collect(),
                not_created: output.not_created.into_keys().collect(),
            }))
        },
        JmapCoroutineState::Complete(Err(err)) => EmailCoroutineState::Complete(Err(err)),
    }
}

/// The exchange for a request, and the framing of its reply.
pub open spec fn import_built(request: ImportRequest) -> Result<Guarded<JmapEmailImport>, HttpFault<JmapEmailImportError>> {
    guarded_built(import_made(request), false)
}

/// Whether the exchange is not to be resumed: it is over, or its framing was
/// not followed.
pub open spec fn import_over(import: Guarded<JmapEmailImport>) -> bool {
    import_ended(import.exchange) || import_framing(import.exchange) != import.framing
}

/// What the next step comes to; a reply that announces too large a chunk is
/// refused.
pub open spec fn import_step(import: Guarded<JmapEmailImport>, bytes: Option<Seq<u8>>) -> Outcome<
    ImportOutputView,
    HttpFault<JmapEmailImportError>,
> {
    guarded_step(import.framing, bytes, import_outcome(import.exchange, bytes))
}

/// The exchange after that step.
pub open spec fn import_left(import: Guarded<JmapEmailImport>, bytes: Option<Seq<u8>>) -> Guarded<JmapEmailImport> {
    guarded_left(import, bytes, import_next(import.exchange, bytes))
}

/// Starts the exchange.
pub(crate) fn import_new(
    session: &JmapSession,
    auth: &HttpAuth,
    client_id: &str,
    blob_id: String,
    mailbox: &str,
    keywords: Option<Vec<String>>,
) -> (r: Result<Guarded<JmapEmailImport>, HttpFault<JmapEmailImportError>>)
    ensures
        r == import_built(ImportRequest {
                session: *session,
                auth: auth@,
                client_id: client_id@,
                blob_id: blob_id@,
                mailbox: mailbox@,
                keywords: word_set(keywords),
            }),
        r matches Ok(import) ==> !import_over(import),
{
    guard(import_make(session, auth, client_id, blob_id, mailbox, keywords), false)
}

/// Takes one step, unless the reply is refused.
pub(crate) fn import_resume(import: &mut Guarded<JmapEmailImport>, bytes: Option<&[u8]>) -> (r:
    EmailCoroutineState<JmapStep, Result<ImportOutput, HttpFault<JmapEmailImportError>>>)
    requires
        !import_over(*old(import)),
    ensures
        r.outcome() == import_step(*old(import), fed(bytes)),
        *final(import) == import_left(*old(import), fed(bytes)),
        r is Yielded ==> !import_over(*final(import)),
{
    if !import.admits(bytes) {
        return EmailCoroutineState::Complete(Err(HttpFault::ChunkSize));
    }
    faulted(import_run(&mut import.exchange, bytes))
}

/// What an EmailSubmission/set asks for: to submit one email.
pub struct SubmissionRequest {
    pub session: JmapSession,
    pub auth: Seq<char>,
    /// The client's name for the submission.
    pub client_id: Seq<char>,
    pub identity_id: Seq<char>,
    pub email_id: Seq<char>,
}

/// The EmailSubmission/set exchange of `io_jmap`.
#[verifier::external_type_specification]
#[verifier::external_body]
pub struct ExJmapEmailSubmissionSet(JmapEmailSubmissionSet);

/// Why an EmailSubmission/set failed.
#[verifier::external_type_specification]
#[verifier::external_body]
pub struct ExJmapEmailSubmissionSetError(JmapEmailSubmissionSetError);

/// What [`JmapEmailSubmissionSet::new`] gives for a request.
pub uninterp spec fn submission_made(request: SubmissionRequest) -> Result<JmapEmailSubmissionSet, JmapEmailSubmissionSetError>;

/// Whether the exchange is over: it is not to be resumed then.
pub uninterp spec fn submission_ended(submission: JmapEmailSubmissionSet) -> bool;

/// What the next step of an EmailSubmission/set exchange comes to: the client's
/// names of the submissions that were not created.
pub uninterp spec fn submission_outcome(submission: JmapEmailSubmissionSet, bytes: Option<Seq<u8>>) -> Outcome<Seq<Seq<char>>, JmapEmailSubmissionSetError>;

/// The exchange after that step.
pub uninterp spec fn submission_next(submission: JmapEmailSubmissionSet, bytes: Option<Seq<u8>>) -> JmapEmailSubmissionSet;

/// Where the reply that the exchange reads stands.
pub uninterp spec fn submission_framing(submission: JmapEmailSubmissionSet) -> Framing;

/// [`JmapEmailSubmissionSet::new`] for one submission without an envelope.
#[verifier::external_body]
fn submission_make(
    session: &JmapSession,
    auth: &HttpAuth,
    client_id: &str,
    identity_id: &str,
    email_id: String,
) -> (r: Result<JmapEmailSubmissionSet, JmapEmailSubmissionSetError>)
    ensures
        r == submission_made(SubmissionRequest {
                session: *session,
                auth: auth@,
                client_id: client_id@,
                identity_id: identity_id@,
                email_id: email_id@,
            }),
        r matches Ok(submission) ==> !submission_ended(submission) && submission_framing(submission) == (Framing::Unsent {
            streamed: false,
        }),
{
    let identity_id = identity_id.to_owned();
    let submission = JmapEmailSubmissionCreate { identity_id, email_id, envelope: None };
    let auth = SecretString::from(auth.header.clone());
    JmapEmailSubmissionSet::new(session, &auth, [(client_id.to_owned(), submission)].into())
}

/// One step of [`JmapEmailSubmissionSet`].
#[verifier::external_body]
fn submission_run(submission: &mut JmapEmailSubmissionSet, bytes: Option<&[u8]>) -> (r: EmailCoroutineState<
    JmapStep,
    Result<Vec<String>, JmapEmailSubmissionSetError>,
>)
    requires
        !submission_ended(*old(submission)),
        !submission_framing(*old(submission)).after(fed(bytes)).oversized(),
    ensures
        r.outcome() == submission_outcome(*old(submission), fed(bytes)),
        *final(submission) == submission_next(*old(submission), fed(bytes)),
        r is Yielded ==> {
            &&& !submission_ended(*final(submission))
            &&& submission_framing(*final(submission)) == submission_framing(*old(submission)).after(fed(bytes))
        },
{
    match submission.resume(bytes) {
        JmapCoroutineState::Yielded(JmapYield::WantsRead) => {
            EmailCoroutineState::Yielded(JmapStep::WantsRead)
        },
        JmapCoroutineState::Yielded(JmapYield::WantsWrite(out)) => {
            EmailCoroutineState::Yielded(JmapStep::WantsWrite(out))
        },
        JmapCoroutineState::Complete(Ok(output)) => {
            EmailCoroutineState::Complete(Ok(output.not_created.into_keys().collect()))
        },
        JmapCoroutineState::Complete(Err(err)) => EmailCoroutineState::Complete(Err(err)),
    }
}

/// The exchange for a request, and the framing of its reply.
pub open spec fn submission_built(request: SubmissionRequest) -> Result<Guarded<JmapEmailSubmissionSet>, HttpFault<JmapEmailSubmissionSetError>> {
    guarded_built(submission_made(request), false)
}

/// Whether the exchange is not to be resumed: it is over, or its framing was
/// not followed.
pub open spec fn submission_over(submission: Guarded<JmapEmailSubmissionSet>) -> bool {
    submission_ended(submission.exchange) || submission_framing(submission.exchange) != submission.framing
}

/// What the next step comes to; a reply that announces too large a chunk is
/// refused.
pub open spec fn submission_step(submission: Guarded<JmapEmailSubmissionSet>, bytes: Option<Seq<u8>>) -> Outcome<
    Seq<Seq<char>>,
    HttpFault<JmapEmailSubmissionSetError>,
> {
    guarded_step(submission.framing, bytes, submission_outcome(submission.exchange, bytes))
}

/// The exchange after that step.
pub open spec fn submission_left(submission: Guarded<JmapEmailSubmissionSet>, bytes: Option<Seq<u8>>) -> Guarded<JmapEmailSubmissionSet> {
    guarded_left(submission, bytes, submission_next(submission.exchange, bytes))
}

/// Starts the exchange.
pub(crate) fn submission_new(
    session: &JmapSession,
    auth: &HttpAuth,
    client_id: &str,
    identity_id: &str,
    email_id: String,
) -> (r: Result<Guarded<JmapEmailSubmissionSet>, HttpFault<JmapEmailSubmissionSetError>>)
    ensures
        r == submission_built(SubmissionRequest {
                session: *session,
                auth: auth@,
                client_id: client_id@,
                identity_id: identity_id@,
                email_id: email_id@,
            }),
        r matches Ok(submission) ==> !submission_over(submission),
{
    guard(submission_make(session, auth, client_id, identity_id, email_id), false)
}

/// Takes one step, unless the reply is refused.
pub(crate) fn submission_resume(submission: &mut Guarded<JmapEmailSubmissionSet>, bytes: Option<&[u8]>) -> (r:
    EmailCoroutineState<JmapStep, Result<Vec<String>, HttpFault<JmapEmailSubmissionSetError>>>)
    requires
        !submission_over(*old(submission)),
    ensures
        r.outcome() == submission_step(*old(submission), fed(bytes)),
        *final(submission) == submission_left(*old(submission), fed(bytes)),
        r is Yielded ==> !submission_over(*final(submission)),
{
    if !submission.admits(bytes) {
        return EmailCoroutineState::Complete(Err(HttpFault::ChunkSize));
    }
    faulted(submission_run(&mut submission.exchange, bytes))
}

/// What an Email/get asks for.
pub struct EmailGetRequest {
    pub session: JmapSession,
    pub auth: Seq<char>,
    pub ids: Seq<Seq<char>>,
    pub properties: Seq<EmailProperty>,
}

/// The Email/get exchange of `io_jmap`.
#[verifier::external_type_specification]
#[verifier::external_body]
pub struct ExJmapEmailGet(JmapEmailGet);

/// Why an Email/get failed.
#[verifier::external_type_specification]
#[verifier::external_body]
pub struct ExJmapEmailGetError(JmapEmailGetError);

/// What [`JmapEmailGet::new`] gives for a request.
pub uninterp spec fn email_get_made(request: EmailGetRequest) -> Result<JmapEmailGet, JmapEmailGetError>;

/// Whether the exchange is over: it is not to be resumed then.
pub uninterp spec fn email_get_ended(email_get: JmapEmailGet) -> bool;

/// What the next step of an Email/get exchange comes to: the emails as they
/// came.
pub uninterp spec fn email_get_outcome(email_get: JmapEmailGet, bytes: Option<Seq<u8>>) -> Outcome<Seq<JmapEmail>, JmapEmailGetError>;

/// The exchange after that step.
pub uninterp spec fn email_get_next(email_get: JmapEmailGet, bytes: Option<Seq<u8>>) -> JmapEmailGet;

/// Where the reply that the exchange reads stands.
pub uninterp spec fn email_get_framing(email_get: JmapEmailGet) -> Framing;

/// [`JmapEmailGet::new`] without body values.
#[verifier::external_body]
fn email_get_make(
    session: &JmapSession,
    auth: &HttpAuth,
    ids: Vec<String>,
    properties: Vec<JmapEmailProperty>,
) -> (r: Result<JmapEmailGet, JmapEmailGetError>)
    ensures
        r == email_get_made(EmailGetRequest {
                session: *session,
                auth: auth@,
                ids: ids.deep_view(),
                properties: properties_content(properties@),
            }),
        r matches Ok(email_get) ==> !email_get_ended(email_get) && email_get_framing(email_get) == (Framing::Unsent {
            streamed: false,
        }),
{
    let opts = JmapEmailGetOptions { properties: Some(properties), ..Default::default() };
    JmapEmailGet::new(session, &SecretString::from(auth.header.clone()), ids, opts)
}

/// One step of [`JmapEmailGet`].
#[verifier::external_body]
fn email_get_run(email_get: &mut JmapEmailGet, bytes: Option<&[u8]>) -> (r: EmailCoroutineState<
    JmapStep,
    Result<EmailBatch, JmapEmailGetError>,
>)
    requires
        !email_get_ended(*old(email_get)),
        !email_get_framing(*old(email_get)).after(fed(bytes)).oversized(),
    ensures
        r.outcome() == email_get_outcome(*old(email_get), fed(bytes)),
        *final(email_get) == email_get_next(*old(email_get), fed(bytes)),
        r is Yielded ==> {
            &&& !email_get_ended(*final(email_get))
            &&& email_get_framing(*final(email_get)) == email_get_framing(*old(email_get)).after(fed(bytes))
        },
{
    match email_get.resume(bytes) {
        JmapCoroutineState::Yielded(JmapYield::WantsRead) => {
            EmailCoroutineState::Yielded(JmapStep::WantsRead)
        },
        JmapCoroutineState::Yielded(JmapYield::WantsWrite(out)) => {
            EmailCoroutineState::Yielded(JmapStep::WantsWrite(out))
        },
        JmapCoroutineState::Complete(Ok(output)) => {
            EmailCoroutineState::Complete(Ok(EmailBatch { emails: output.emails }))
        },
        JmapCoroutineState::Complete(Err(err)) => EmailCoroutineState::Complete(Err(err)),
    }
}

/// The exchange for a request, and the framing of its reply.
pub open spec fn email_get_built(request: EmailGetRequest) -> Result<Guarded<JmapEmailGet>, HttpFault<JmapEmailGetError>> {
    guarded_built(email_get_made(request), false)
}

/// Whether the exchange is not to be resumed: it is over, or its framing was
/// not followed.
pub open spec fn email_get_over(email_get: Guarded<JmapEmailGet>) -> bool {
    email_get_ended(email_get.exchange) || email_get_framing(email_get.exchange) != email_get.framing
}

/// What the next step comes to; a reply that announces too large a chunk is
/// refused.
pub open spec fn email_get_step(email_get: Guarded<JmapEmailGet>, bytes: Option<Seq<u8>>) -> Outcome<
    Seq<JmapEmail>,
    HttpFault<JmapEmailGetError>,
> {
    guarded_step(email_get.framing, bytes, email_get_outcome(email_get.exchange, bytes))
}

/// The exchange after that step.
pub open spec fn email_get_left(email_get: Guarded<JmapEmailGet>, bytes: Option<Seq<u8>>) -> Guarded<JmapEmailGet> {
    guarded_left(email_get, bytes, email_get_next(email_get.exchange, bytes))
}

/// Starts the exchange.
pub(crate) fn email_get_new(
    session: &JmapSession,
    auth: &HttpAuth,
    ids: Vec<String>,
    properties: Vec<JmapEmailProperty>,
) -> (r: Result<Guarded<JmapEmailGet>, HttpFault<JmapEmailGetError>>)
    ensures
        r == email_get_built(EmailGetRequest {
                session: *session,
                auth: auth@,
                ids: ids.deep_view(),
                properties: properties_content(properties@),
            }),
        r matches Ok(email_get) ==> !email_get_over(email_get),
{
    guard(email_get_make(session, auth, ids, properties), false)
}

/// Takes one step, unless the reply is refused.
pub(crate) fn email_get_resume(email_get: &mut Guarded<JmapEmailGet>, bytes: Option<&[u8]>) -> (r:
    EmailCoroutineState<JmapStep, Result<EmailBatch, HttpFault<JmapEmailGetError>>>)
    requires
        !email_get_over(*old(email_get)),
    ensures
        r.outcome() == email_get_step(*old(email_get), fed(bytes)),
        *final(email_get) == email_get_left(*old(email_get), fed(bytes)),
        r is Yielded ==> !email_get_over(*final(email_get)),
{
    if !email_get.admits(bytes) {
        return EmailCoroutineState::Complete(Err(HttpFault::ChunkSize));
    }
    faulted(email_get_run(&mut email_get.exchange, bytes))
}

/// What an Email/changes asks for.
pub struct ChangesRequest {
    pub session: JmapSession,
    pub auth: Seq<char>,
    /// The state since which changes are asked for.
    pub since: Seq<char>,
}

/// What an Email/changes came to.
#[derive(Debug)]
pub struct ChangesOutput {
    pub new_state: String,
    pub created: Vec<String>,
    pub updated: Vec<String>,
    pub destroyed: Vec<String>,
}

/// What a [`ChangesOutput`] says.
pub struct ChangesOutputView {
    pub new_state: Seq<char>,
    pub created: Seq<Seq<char>>,
    pub updated: Seq<Seq<char>>,
    pub destroyed: Seq<Seq<char>>,
}

impl DeepView for ChangesOutput {
    type V = ChangesOutputView;

    open spec fn deep_view(&self) -> ChangesOutputView {
        ChangesOutputView {
            new_state: self.new_state@,
            created: self.created.deep_view(),
            updated: self.updated.deep_view(),
            destroyed: self.destroyed.deep_view(),
        }
    }
}

/// The Email/changes exchange of `io_jmap`.
#[verifier::external_type_specification]
#[verifier::external_body]
pub struct ExJmapEmailChanges(JmapEmailChanges);

/// Why an Email/changes failed.
#[verifier::external_type_specification]
#[verifier::external_body]
pub struct ExJmapEmailChangesError(JmapEmailChangesError);

/// What [`JmapEmailChanges::new`] gives for a request.
pub uninterp spec fn changes_made(request: ChangesRequest) -> Result<JmapEmailChanges, JmapEmailChangesError>;

/// Whether the exchange is over: it is not to be resumed then.
pub uninterp spec fn changes_ended(changes: JmapEmailChanges) -> bool;

/// What the next step of an Email/changes exchange comes to.
pub uninterp spec fn changes_outcome(changes: JmapEmailChanges, bytes: Option<Seq<u8>>) -> Outcome<ChangesOutputView, JmapEmailChangesError>;

/// The exchange after that step.
pub uninterp spec fn changes_next(changes: JmapEmailChanges, bytes: Option<Seq<u8>>) -> JmapEmailChanges;

/// Where the reply that the exchange reads stands.
pub uninterp spec fn changes_framing(changes: JmapEmailChanges) -> Framing;

/// [`JmapEmailChanges::new`] without a limit.
#[verifier::external_body]
fn changes_make(session: &JmapSession, auth: &HttpAuth, since: &str) -> (r: Result<JmapEmailChanges, JmapEmailChangesError>)
    ensures
        r == changes_made(ChangesRequest { session: *session, auth: auth@, since: since@ }),
        r matches Ok(changes) ==> !changes_ended(changes) && changes_framing(changes) == (Framing::Unsent {
            streamed: false,
        }),
{
    let opts = JmapEmailChangesOptions::default();
    JmapEmailChanges::new(session, &SecretString::from(auth.header.clone()), since, opts)
}

/// One step of [`JmapEmailChanges`].
#[verifier::external_body]
fn changes_run(changes: &mut JmapEmailChanges, bytes: Option<&[u8]>) -> (r: EmailCoroutineState<
    JmapStep,
    Result<ChangesOutput, JmapEmailChangesError>,
>)
    requires
        !changes_ended(*old(changes)),
        !changes_framing(*old(changes)).after(fed(bytes)).oversized(),
    ensures
        r.outcome() == changes_outcome(*old(changes), fed(bytes)),
        *final(changes) == changes_next(*old(changes), fed(bytes)),
        r is Yielded ==> {
            &&& !changes_ended(*final(changes))
            &&& changes_framing(*final(changes)) == changes_framing(*old(changes)).after(fed(bytes))
        },
{
    match changes.resume(bytes) {
        JmapCoroutineState::Yielded(JmapYield::WantsRead) => {
            EmailCoroutineState::Yielded(JmapStep::WantsRead)
        },
        JmapCoroutineState::Yielded(JmapYield::WantsWrite(out)) => {
            EmailCoroutineState::Yielded(JmapStep::WantsWrite(out))
        },
        JmapCoroutineState::Complete(Ok(output)) => EmailCoroutineState::Complete(Ok(ChangesOutput {
            new_state: output.new_state,
            created: output.created,
            updated: output.updated,
            destroyed: output.destroyed,
        })),
        JmapCoroutineState::Complete(Err(err)) => EmailCoroutineState::Complete(Err(err)),
    }
}

/// The exchange for a request, and the framing of its reply.
pub open spec fn changes_built(request: ChangesRequest) -> Result<Guarded<JmapEmailChanges>, HttpFault<JmapEmailChangesError>> {
    guarded_built(changes_made(request), false)
}

/// Whether the exchange is not to be resumed: it is over, or its framing was
/// not followed.
pub open spec fn changes_over(changes: Guarded<JmapEmailChanges>) -> bool {
    changes_ended(changes.exchange) || changes_framing(changes.exchange) != changes.framing
}

/// What the next step comes to; a reply that announces too large a chunk is
/// refused.
pub open spec fn changes_step(changes: Guarded<JmapEmailChanges>, bytes: Option<Seq<u8>>) -> Outcome<
    ChangesOutputView,
    HttpFault<JmapEmailChangesError>,
> {
    guarded_step(changes.framing, bytes, changes_outcome(changes.exchange, bytes))
}

/// The exchange after that step.
pub open spec fn changes_left(changes: Guarded<JmapEmailChanges>, bytes: Option<Seq<u8>>) -> Guarded<JmapEmailChanges> {
    guarded_left(changes, bytes, changes_next(changes.exchange, bytes))
}

/// Starts the exchange.
pub(crate) fn changes_new(
    session: &JmapSession,
    auth: &HttpAuth,
    since: &str,
) -> (r: Result<Guarded<JmapEmailChanges>, HttpFault<JmapEmailChangesError>>)
    ensures
        r == changes_built(ChangesRequest { session: *session, auth: auth@, since: since@ }),
        r matches Ok(changes) ==> !changes_over(changes),
{
    guard(changes_make(session, auth, since), false)
}

/// Takes one step, unless the reply is refused.
pub(crate) fn changes_resume(changes: &mut Guarded<JmapEmailChanges>, bytes: Option<&[u8]>) -> (r:
    EmailCoroutineState<JmapStep, Result<ChangesOutput, HttpFault<JmapEmailChangesError>>>)
    requires
        !changes_over(*old(changes)),
    ensures
        r.outcome() == changes_step(*old(changes), fed(bytes)),
        *final(changes) == changes_left(*old(changes), fed(bytes)),
        r is Yielded ==> !changes_over(*final(changes)),
{
    if !changes.admits(bytes) {
        return EmailCoroutineState::Complete(Err(HttpFault::ChunkSize));
    }
    faulted(changes_run(&mut changes.exchange, bytes))
}

} // verus!
