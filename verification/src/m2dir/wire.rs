//! What the m2dir coroutines have of `io_m2dir` and `mail_parser`, each call
//! behind a name for what it comes to.
use vstd::prelude::*;

use io_m2dir::coroutine::{M2dirArg, M2dirCoroutine, M2dirCoroutineState, M2dirYield};
use io_m2dir::entry::list::{M2dirEntryList, M2dirEntryListError, M2dirEntryListOptions};
use io_m2dir::m2dir::types::M2dir;
use io_m2dir::path::M2dirPath;
use mail_parser::MessageParser;

use crate::coroutine::{EmailCoroutineState, RawMessage};

verus! {

/// An m2dir.
#[verifier::external_type_specification]
#[verifier::external_body]
pub struct ExM2dir(M2dir);

/// What an m2dir exchange asks of its driver.
#[verifier::external_type_specification]
#[verifier::external_body]
pub struct ExM2dirYield(M2dirYield);

/// What the driver answers.
#[verifier::external_type_specification]
#[verifier::external_body]
pub struct ExM2dirArg(M2dirArg);

/// The directory of an m2dir.
pub uninterp spec fn m2dir_path(m2dir: M2dir) -> Seq<char>;

/// A path with one more segment behind a slash, of which there is one where
/// the path is not empty.
pub open spec fn path_with(path: Seq<char>, segment: Seq<char>) -> Seq<char> {
    if path.len() == 0 || path.last() == '/' {
        path + segment
    } else {
        path.push('/') + segment
    }
}

/// The file that holds the flags of an entry.
pub open spec fn flags_path(m2dir: M2dir, id: Seq<char>) -> Seq<char> {
    path_with(path_with(m2dir_path(m2dir), ".meta"@), id + ".flags"@)
}

/// [`M2dir::from_path`].
#[verifier::external_body]
pub(crate) fn open_m2dir(path: &str) -> (r: M2dir)
    ensures
        m2dir_path(r) == path@,
{
    M2dir::from_path(path)
}

/// [`M2dir::flags_path`]: the file `<id>.flags` under `.meta` in the
/// directory.
#[verifier::external_body]
pub(crate) fn flags_path_of(m2dir: &M2dir, id: &str) -> (r: String)
    ensures
        r@ == flags_path(*m2dir, id@),
{
    m2dir.flags_path(id).into_string()
}

/// An entry: its id and its file.
#[derive(Debug)]
pub struct Entry {
    pub id: String,
    pub path: String,
}

/// What an [`Entry`] says.
pub struct EntryView {
    pub id: Seq<char>,
    pub path: Seq<char>,
}

impl DeepView for Entry {
    type V = EntryView;

    open spec fn deep_view(&self) -> EntryView {
        EntryView { id: self.id@, path: self.path@ }
    }
}

/// The entry exchange of `io_m2dir`: it lists the entries of an m2dir.
#[verifier::external_type_specification]
#[verifier::external_body]
pub struct ExM2dirEntryList(M2dirEntryList);

/// Why a listing of entries failed.
#[verifier::external_type_specification]
#[verifier::external_body]
pub struct ExM2dirEntryListError(M2dirEntryListError);

/// What a step of a listing came to.
pub enum ListOutcome {
    Yield(M2dirYield),
    Done(Seq<EntryView>),
    Failed(M2dirEntryListError),
}

/// What a step came to.
pub open spec fn list_outcome(
    step: EmailCoroutineState<M2dirYield, Result<Vec<Entry>, M2dirEntryListError>>,
) -> ListOutcome {
    match step {
        EmailCoroutineState::Yielded(step) => ListOutcome::Yield(step),
        EmailCoroutineState::Complete(Ok(entries)) => ListOutcome::Done(entries.deep_view()),
        EmailCoroutineState::Complete(Err(err)) => ListOutcome::Failed(err),
    }
}

/// What [`M2dirEntryList::new`] builds for an m2dir.
pub uninterp spec fn list_started(m2dir: M2dir) -> M2dirEntryList;

/// What the next step of a listing comes to.
pub uninterp spec fn list_step(list: M2dirEntryList, arg: Option<M2dirArg>) -> ListOutcome;

/// The listing after that step.
pub uninterp spec fn list_left(list: M2dirEntryList, arg: Option<M2dirArg>) -> M2dirEntryList;

/// [`M2dirEntryList::new`].
#[verifier::external_body]
pub(crate) fn list_new(m2dir: &M2dir) -> (r: M2dirEntryList)
    ensures
        r == list_started(*m2dir),
{
    M2dirEntryList::new(m2dir.clone(), M2dirEntryListOptions::default())
}

/// One step of [`M2dirEntryList`].
#[verifier::external_body]
pub(crate) fn list_resume(list: &mut M2dirEntryList, arg: Option<M2dirArg>) -> (r: EmailCoroutineState<
    M2dirYield,
    Result<Vec<Entry>, M2dirEntryListError>,
>)
    ensures
        list_outcome(r) == list_step(*old(list), arg),
        *final(list) == list_left(*old(list), arg),
{
    match list.resume(arg) {
        M2dirCoroutineState::Yielded(step) => EmailCoroutineState::Yielded(step),
        M2dirCoroutineState::Complete(Ok(entries)) => EmailCoroutineState::Complete(Ok(
            entries.iter().map(|entry| Entry {
                id: entry.id().to_owned(),
                path: entry.path().as_str().to_owned(),
            }).collect(),
        )),
        M2dirCoroutineState::Complete(Err(err)) => EmailCoroutineState::Complete(Err(err)),
    }
}

/// The files that a request asks to read; `None` where it is another
/// request.
pub uninterp spec fn wanted_files(step: M2dirYield) -> Option<Set<Seq<char>>>;

/// [`M2dirYield::WantsFileRead`] for some files.
#[verifier::external_body]
pub(crate) fn want_files(paths: Vec<String>) -> (r: M2dirYield)
    ensures
        wanted_files(r) == Some(paths.deep_view().to_set()),
{
    M2dirYield::WantsFileRead(paths.into_iter().map(M2dirPath::new).collect())
}

/// The files that were read, in the order of their paths; `None` where the
/// answer is another one.
pub uninterp spec fn read_files(arg: M2dirArg) -> Option<Seq<(Seq<char>, Seq<u8>)>>;

/// Tells [`M2dirArg::FileRead`] from the other answers.
#[verifier::external_body]
pub(crate) fn files_of(arg: M2dirArg) -> (r: Option<Vec<(String, RawMessage)>>)
    ensures
        r.deep_view() == read_files(arg),
{
    match arg {
        M2dirArg::FileRead(files) => Some(
            files.into_iter().map(|(path, bytes)| (path.into_string(), RawMessage { bytes })).collect(),
        ),
        _ => None,
    }
}

/// An address of a header.
#[derive(Debug)]
pub struct HeaderAddress {
    pub name: Option<String>,
    pub address: Option<String>,
}

/// What a [`HeaderAddress`] says.
pub struct HeaderAddressView {
    pub name: Option<Seq<char>>,
    pub address: Option<Seq<char>>,
}

impl DeepView for HeaderAddress {
    type V = HeaderAddressView;

    open spec fn deep_view(&self) -> HeaderAddressView {
        HeaderAddressView { name: self.name.deep_view(), address: self.address.deep_view() }
    }
}

/// What an envelope needs of a message.
#[derive(Debug)]
pub struct Headers {
    pub message_id: Option<String>,
    pub subject: Option<String>,
    pub from: Vec<HeaderAddress>,
    pub to: Vec<HeaderAddress>,
    /// The `Date:` header as RFC 3339 writes it.
    pub date: Option<String>,
    /// The number of attachments, where the whole message was read.
    pub attachments: usize,
}

/// What a [`Headers`] says.
pub struct HeadersView {
    pub message_id: Option<Seq<char>>,
    pub subject: Option<Seq<char>>,
    pub from: Seq<HeaderAddressView>,
    pub to: Seq<HeaderAddressView>,
    pub date: Option<Seq<char>>,
    pub attachments: usize,
}

impl DeepView for Headers {
    type V = HeadersView;

    open spec fn deep_view(&self) -> HeadersView {
        HeadersView {
            message_id: self.message_id.deep_view(),
            subject: self.subject.deep_view(),
            from: self.from.deep_view(),
            to: self.to.deep_view(),
            date: self.date.deep_view(),
            attachments: self.attachments,
        }
    }
}

/// What [`MessageParser::parse`] reads in a message; `None` where it does
/// not take it.
pub uninterp spec fn parsed_message(raw: Seq<u8>) -> Option<HeadersView>;

/// What [`MessageParser::parse_headers`] reads in a message; `None` where it
/// does not take it.
pub uninterp spec fn parsed_headers(raw: Seq<u8>) -> Option<HeadersView>;

/// [`MessageParser::parse`].
#[verifier::external_body]
pub(crate) fn parse_message(raw: &[u8]) -> (r: Option<Headers>)
    ensures
        r.deep_view() == parsed_message(raw@),
{
    let message = MessageParser::default().parse(raw)?;
    let read = |a: &mail_parser::Addr| HeaderAddress {
        name: a.name().map(String::from), address: a.address().map(String::from),
    };
    Some(Headers {
        message_id: message.message_id().map(String::from),
        subject: message.subject().map(String::from),
        from: message.from().into_iter().flat_map(|list| list.iter()).map(read).collect(),
        to: message.to().into_iter().flat_map(|list| list.iter()).map(read).collect(),
        date: message.date().map(|date| date.to_rfc3339()),
        attachments: message.attachment_count(),
    })
}

/// [`MessageParser::parse_headers`].
#[verifier::external_body]
pub(crate) fn parse_headers(raw: &[u8]) -> (r: Option<Headers>)
    ensures
        r.deep_view() == parsed_headers(raw@),
{
    let message = MessageParser::default().parse_headers(raw)?;
    let read = |a: &mail_parser::Addr| HeaderAddress {
        name: a.name().map(String::from), address: a.address().map(String::from),
    };
    Some(Headers {
        message_id: message.message_id().map(String::from),
        subject: message.subject().map(String::from),
        from: message.from().into_iter().flat_map(|list| list.iter()).map(read).collect(),
        to: message.to().into_iter().flat_map(|list| list.iter()).map(read).collect(),
        date: message.date().map(|date| date.to_rfc3339()),
        attachments: message.attachment_count(),
    })
}

/// The flags of an entry lie in a file of its own: entries of different ids
/// have different files, in one directory below the m2dir.
pub proof fn law_flags_lie_apart(m2dir: M2dir, a: Seq<char>, b: Seq<char>)
    ensures
        flags_path(m2dir, a) == flags_path(m2dir, b) <==> a == b,
        m2dir_path(m2dir).len() > 0 && m2dir_path(m2dir).last() != '/' ==> flags_path(m2dir, a)
            == m2dir_path(m2dir) + "/.meta/"@ + a + ".flags"@,
{
    reveal_strlit(".meta");
    reveal_strlit("/.meta/");
    let path = m2dir_path(m2dir);
    let base = path_with(path, ".meta"@);
    let tail = ".flags"@;
    assert(base.last() == 'a');
    let front = base.push('/');
    assert(flags_path(m2dir, a) =~= front + a + tail);
    assert(flags_path(m2dir, b) =~= front + b + tail);
    if flags_path(m2dir, a) == flags_path(m2dir, b) {
        let n = front.len() as int;
        assert((front + a + tail).len() == (front + b + tail).len());
        assert((front + a + tail).subrange(n, n + a.len()) =~= a);
        assert((front + b + tail).subrange(n, n + b.len()) =~= b);
    }
    if path.len() > 0 && path.last() != '/' {
        assert(front =~= path + "/.meta/"@);
    }
}

} // verus!
