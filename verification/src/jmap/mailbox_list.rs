//! JMAP mailbox listing: Mailbox/query batched with Mailbox/get. Counts only
//! widen the properties asked for; there is no further exchange.
use vstd::prelude::*;

use io_jmap::rfc8620::session::JmapSession;
use io_jmap::rfc8621::mailbox::query::{JmapMailboxQuery, JmapMailboxQueryError};

use crate::coroutine::{fed, EmailCoroutineState, JmapStep, Outcome};
use crate::http::{Guarded, HttpFault};
use crate::jmap::convert::text_or_empty;
use crate::jmap::wire::{
    mailbox_query_built, mailbox_query_left, mailbox_query_new, mailbox_query_over,
    mailbox_query_resume, mailbox_query_step, HttpAuth, JmapMailboxRow, JmapMailboxRowView, MailboxProperty,
    MailboxQueryRequest,
};
use crate::mailbox::{Mailbox, MailboxView};

verus! {

/// Errors produced by [`JmapMailboxList`].
#[derive(Debug)]
pub enum JmapMailboxListError {
    Query(HttpFault<JmapMailboxQueryError>),
}

/// I/O-free coroutine listing the mailboxes of a JMAP account.
pub struct JmapMailboxList {
    inner: Guarded<JmapMailboxQuery>,
}

impl View for JmapMailboxList {
    type V = Guarded<JmapMailboxQuery>;

    closed spec fn view(&self) -> Guarded<JmapMailboxQuery> {
        self.inner
    }
}

pub type Answer = Outcome<Seq<MailboxView>, JmapMailboxListError>;

/// What a resume returns.
pub type Step = EmailCoroutineState<JmapStep, Result<Vec<Mailbox>, JmapMailboxListError>>;

/// The query of a listing.
pub open spec fn list_request(session: JmapSession, auth: Seq<char>, with_counts: bool) -> MailboxQueryRequest {
    MailboxQueryRequest {
        session,
        auth,
        name: None,
        properties: if with_counts {
            seq![
                MailboxProperty::Id,
                MailboxProperty::Name,
                MailboxProperty::TotalEmails,
                MailboxProperty::UnreadEmails,
            ]
        } else {
            seq![MailboxProperty::Id, MailboxProperty::Name]
        },
    }
}

/// The shared mailbox of a JMAP one; counts that were not asked for are
/// zero.
pub open spec fn mailbox_of(row: JmapMailboxRowView) -> MailboxView {
    MailboxView {
        id: text_or_empty(row.id),
        name: text_or_empty(row.name),
        total: Some(row.total as u64),
        unread: Some(row.unread as u64),
    }
}

/// Converts a JMAP mailbox into a shared [`Mailbox`].
pub fn mailbox_from(row: &JmapMailboxRow) -> (r: Mailbox)
    ensures
        r.deep_view() == mailbox_of(row.deep_view()),
{
    let id = match &row.id {
        Some(id) => id.clone(),
        None => String::new(),
    };
    let name = match &row.name {
        Some(name) => name.clone(),
        None => String::new(),
    };
    proof {
        assert(id@ =~= text_or_empty(row.deep_view().id));
        assert(name@ =~= text_or_empty(row.deep_view().name));
    }
    Mailbox { id, name, total: Some(row.total as u64), unread: Some(row.unread as u64) }
}

/// The shared mailboxes of JMAP ones.
pub open spec fn mailboxes_of(rows: Seq<JmapMailboxRowView>) -> Seq<MailboxView> {
    rows.map_values(|row: JmapMailboxRowView| mailbox_of(row))
}

/// Converts JMAP mailboxes.
pub fn mailboxes_from(rows: &Vec<JmapMailboxRow>) -> (r: Vec<Mailbox>)
    ensures
        r.deep_view() == mailboxes_of(rows.deep_view()),
{
    let mut out: Vec<Mailbox> = Vec::new();
    let mut i: usize = 0;
    while i < rows.len()
        invariant
            i <= rows@.len(),
            out@.len() == i,
            forall|j: int|
                0 <= j < i ==> (#[trigger] out@[j]).deep_view() == mailbox_of(rows@[j].deep_view()),
        decreases rows@.len() - i,
    {
        out.push(mailbox_from(&rows[i]));
        i = i + 1;
    }
    proof {
        assert(out.deep_view() =~= mailboxes_of(rows.deep_view()));
    }
    out
}

/// The answer for what the query came to.
pub open spec fn answer_of(step: Outcome<Seq<JmapMailboxRowView>, HttpFault<JmapMailboxQueryError>>) -> Answer {
    match step {
        Outcome::Read => Outcome::Read,
        Outcome::Write(bytes) => Outcome::Write(bytes),
        Outcome::Done(rows) => Outcome::Done(mailboxes_of(rows)),
        Outcome::Failed(err) => Outcome::Failed(JmapMailboxListError::Query(err)),
    }
}

impl JmapMailboxList {
    pub fn new(session: &JmapSession, auth: &HttpAuth, with_counts: bool) -> (r: Result<
        JmapMailboxList,
        JmapMailboxListError,
    >)
        ensures
            ({
                let request = list_request(*session, auth@, with_counts);
                match mailbox_query_built(request) {
                    Ok(query) => r matches Ok(run) && run@ == query && !mailbox_query_over(query),
                    Err(cause) => r matches Err(err) && err == JmapMailboxListError::Query(cause),
                }
            }),
    {
        let mut properties: Vec<MailboxProperty> = Vec::new();
        properties.push(MailboxProperty::Id);
        properties.push(MailboxProperty::Name);
        if with_counts {
            properties.push(MailboxProperty::TotalEmails);
            properties.push(MailboxProperty::UnreadEmails);
        }
        proof {
            assert(properties@ =~= list_request(*session, auth@, with_counts).properties);
        }
        match mailbox_query_new(session, auth, None, &properties) {
            Ok(inner) => Ok(JmapMailboxList { inner }),
            Err(err) => Err(JmapMailboxListError::Query(err)),
        }
    }

    /// Advances the coroutine, which is not over: with no bytes at first
    /// and after a write, with what was read after a read.
    pub fn resume(&mut self, bytes: Option<&[u8]>) -> (r: Step)
        requires
            !mailbox_query_over(old(self)@),
        ensures
            r.outcome() == answer_of(mailbox_query_step(old(self)@, fed(bytes))),
            final(self)@ == mailbox_query_left(old(self)@, fed(bytes)),
            r is Yielded ==> !mailbox_query_over(final(self)@),
    {
        match mailbox_query_resume(&mut self.inner, bytes) {
            EmailCoroutineState::Yielded(step) => EmailCoroutineState::Yielded(step),
            EmailCoroutineState::Complete(Ok(rows)) => EmailCoroutineState::Complete(
                Ok(mailboxes_from(&rows)),
            ),
            EmailCoroutineState::Complete(Err(err)) => EmailCoroutineState::Complete(
                Err(JmapMailboxListError::Query(err)),
            ),
        }
    }
}

/// Every mailbox that the server told of is listed, in its place, under the id
/// and the name that it has, the counts as the server gives them.
pub proof fn law_every_mailbox_is_listed(rows: Seq<JmapMailboxRowView>)
    ensures
        mailboxes_of(rows).len() == rows.len(),
        forall|i: int|
            0 <= i < rows.len() ==> {
                let mailbox = #[trigger] mailboxes_of(rows)[i];
                &&& rows[i].id matches Some(id) ==> mailbox.id == id
                &&& rows[i].name matches Some(name) ==> mailbox.name == name
                &&& rows[i].id is None ==> mailbox.id.len() == 0
                &&& rows[i].name is None ==> mailbox.name.len() == 0
                &&& mailbox.total == Some(rows[i].total as u64)
                &&& mailbox.unread == Some(rows[i].unread as u64)
            },
{
}

/// Ids and names are always asked for, counts where they are wanted; every
/// mailbox is asked for, whatever its name.
pub proof fn law_counts_are_asked_for(session: JmapSession, auth: Seq<char>, with_counts: bool)
    ensures
        ({
            let request = list_request(session, auth, with_counts);
            &&& request.session == session && request.auth == auth && request.name is None
            &&& request.properties.contains(MailboxProperty::Id)
            &&& request.properties.contains(MailboxProperty::Name)
            &&& request.properties.contains(MailboxProperty::TotalEmails) <==> with_counts
            &&& request.properties.contains(MailboxProperty::UnreadEmails) <==> with_counts
        }),
{
    let list = list_request(session, auth, with_counts).properties;
    assert(list[0] == MailboxProperty::Id);
    assert(list[1] == MailboxProperty::Name);
    if with_counts {
        assert(list[2] == MailboxProperty::TotalEmails);
        assert(list[3] == MailboxProperty::UnreadEmails);
    }
}

} // verus!
