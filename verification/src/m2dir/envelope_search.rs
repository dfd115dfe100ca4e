//! m2dir envelope search: the entries are listed, their files read, and what
//! matches is sorted and paged on the client. Bodies are looked for in the
//! bytes that were read.
use vstd::prelude::*;

use io_m2dir::coroutine::{M2dirArg, M2dirYield};
use io_m2dir::entry::list::{M2dirEntryList, M2dirEntryListError};
use io_m2dir::m2dir::types::M2dir;

use crate::coroutine::{EmailCoroutineState, RawMessage};
use crate::envelope::{Envelope, EnvelopeView};
use crate::m2dir::convert::{envelope_from, envelope_of, meta_flags, parse_meta_flags};
use crate::m2dir::query::{
    effective, in_order, law_meets_what_is_asked_for, law_sorted, mail_of, matches_filter, meets,
    sort_envelopes, sorted,
};
use crate::m2dir::wire::{
    files_of, flags_path, flags_path_of, list_left, list_new, list_resume, list_started, list_step,
    open_m2dir, m2dir_path, parse_headers, parse_message, parsed_headers, parsed_message,
    read_files, want_files, wanted_files, Entry, EntryView, HeadersView, ListOutcome,
};
use crate::page::{law_first_page_by_default, page_of, paginate};
use crate::search::{
    asked_for, filter_of, flags_kept, sorters_of, SearchEmailsFilterQuery, SearchEmailsQuery, SearchEmailsSorter, SearchEmailsSorterKind,
    SearchEmailsSorterOrder,
};
use crate::text::{row, same_text};

verus! {

/// Errors produced by [`M2dirEnvelopeSearch`].
#[derive(Debug)]
pub enum M2dirEnvelopeSearchError {
    List(M2dirEntryListError),
    UnexpectedArg,
    ResumedAfterDone,
    /// The file whose message cannot be parsed.
    Parse(String),
}

/// What a search goes by.
pub struct Plan {
    pub m2dir: M2dir,
    pub filter: Option<SearchEmailsFilterQuery>,
    pub sort: Vec<SearchEmailsSorter>,
    pub page: Option<u32>,
    pub page_size: Option<u32>,
    pub with_attachment: bool,
}

/// Where a search stands.
pub enum State {
    Listing(M2dirEntryList),
    /// Waiting for the files of these entries.
    Reading(Vec<Entry>),
    Done,
}

/// A search under way: its plan and where it stands.
pub struct Searching {
    pub plan: Plan,
    pub state: State,
}

/// What a resume returns.
pub type Step = EmailCoroutineState<M2dirYield, Result<Vec<Envelope>, M2dirEnvelopeSearchError>>;

/// Files that were read: their paths and contents.
pub type Files = Seq<(Seq<char>, Seq<u8>)>;

/// Files without the first under a path.
pub open spec fn without_file(files: Files, path: Seq<char>) -> Files
    decreases files.len(),
{
    if files.len() == 0 {
        files
    } else if files[0].0 == path {
        files.skip(1)
    } else {
        seq![files[0]] + without_file(files.skip(1), path)
    }
}

/// The contents of a file, empty where it was not read.
pub open spec fn file_or_empty(files: Files, path: Seq<char>) -> Seq<u8> {
    match row(files, path) {
        Some(bytes) => bytes,
        None => seq![],
    }
}

impl Plan {
    /// What is read of a message.
    pub open spec fn headers(self, raw: Seq<u8>) -> Option<HeadersView> {
        if self.with_attachment {
            parsed_message(raw)
        } else {
            parsed_headers(raw)
        }
    }

    /// Whether a message is among those looked for.
    pub open spec fn keeps(self, envelope: EnvelopeView, raw: Seq<u8>) -> bool {
        match self.filter {
            Some(filter) => meets(envelope, raw, filter),
            None => true,
        }
    }

    /// The files of an entry: its message and its flags.
    pub open spec fn files_of(self, entry: EntryView) -> Set<Seq<char>> {
        set![entry.path, flags_path(self.m2dir, entry.id)]
    }

    /// The files of entries.
    pub open spec fn all_files(self, entries: Seq<EntryView>) -> Set<Seq<char>>
        decreases entries.len(),
    {
        if entries.len() == 0 {
            Set::empty()
        } else {
            self.all_files(entries.drop_last()).union(self.files_of(entries.last()))
        }
    }

    /// The envelopes of the entries that are looked for, in the order of the
    /// entries; each file serves once, and an entry without one is passed
    /// over. `Err` holds the first file whose message cannot be parsed.
    pub open spec fn hits(self, files: Files, entries: Seq<EntryView>) -> Result<
        Seq<EnvelopeView>,
        Seq<char>,
    >
        decreases entries.len(),
    {
        if entries.len() == 0 {
            Ok(seq![])
        } else {
            let entry = entries[0];
            match row(files, entry.path) {
                None => self.hits(files, entries.skip(1)),
                Some(raw) => {
                    let meta = flags_path(self.m2dir, entry.id);
                    let others = without_file(files, entry.path);
                    let flags = meta_flags(file_or_empty(others, meta));
                    match self.headers(raw) {
                        None => Err(entry.path),
                        Some(headers) => {
                            let envelope = envelope_of(
                                entry.id,
                                flags,
                                headers,
                                raw.len(),
                                self.with_attachment,
                            );
                            let first: Seq<EnvelopeView> = if self.keeps(envelope, raw) {
                                seq![envelope]
                            } else {
                                seq![]
                            };
                            match self.hits(without_file(others, meta), entries.skip(1)) {
                                Ok(more) => Ok(first + more),
                                Err(path) => Err(path),
                            }
                        },
                    }
                },
            }
        }
    }

    /// The page asked for, of the hits in order.
    pub open spec fn result(self, hits: Seq<EnvelopeView>) -> Seq<EnvelopeView> {
        page_of(sorted(hits, effective(self.sort@)), self.page, self.page_size)
    }
}

/// Whether a resume completes with these envelopes.
pub open spec fn gives(r: Step, envelopes: Seq<EnvelopeView>) -> bool {
    r matches EmailCoroutineState::Complete(Ok(own)) && own.deep_view() == envelopes
}

impl Searching {
    /// What a resume does: where it leaves the search and what it returns.
    pub open spec fn resumed(self, arg: Option<M2dirArg>, post: Searching, r: Step) -> bool {
        &&& post.plan == self.plan
        &&& match self.state {
            State::Listing(list) => match list_step(list, arg) {
                ListOutcome::Yield(step) => post.state == State::Listing(list_left(list, arg)) && r
                    == Step::Yielded(step),
                ListOutcome::Done(entries) => if entries.len() == 0 {
                    post.state is Done && gives(r, seq![])
                } else {
                    &&& post.state matches State::Reading(own) && own.deep_view() == entries
                    &&& r matches EmailCoroutineState::Yielded(step) && wanted_files(step) == Some(
                        self.plan.all_files(entries),
                    )
                },
                ListOutcome::Failed(err) => post.state is Done && r == Step::Complete(
                    Err(M2dirEnvelopeSearchError::List(err)),
                ),
            },
            State::Reading(entries) => match arg {
                Some(arg) if read_files(arg) is Some => {
                    &&& post.state is Done
                    &&& match self.plan.hits(read_files(arg)->0, entries.deep_view()) {
                        Ok(hits) => gives(r, self.plan.result(hits)),
                        Err(path) => r matches EmailCoroutineState::Complete(
                            Err(M2dirEnvelopeSearchError::Parse(own)),
                        ) && own@ == path,
                    }
                },
                _ => post.state == self.state && r == Step::Complete(
                    Err(M2dirEnvelopeSearchError::UnexpectedArg),
                ),
            },
            State::Done => post.state is Done && r == Step::Complete(
                Err(M2dirEnvelopeSearchError::ResumedAfterDone),
            ),
        }
    }
}

/// Takes the first file under a path out of files.
fn take_file(files: &mut Vec<(String, RawMessage)>, path: &str) -> (r: Option<RawMessage>)
    ensures
        r.deep_view() == row(old(files).deep_view(), path@),
        final(files).deep_view() == without_file(old(files).deep_view(), path@),
{
    let ghost all = files.deep_view();
    proof {
        assert(all.skip(0) =~= all);
        assert(all.take(0) + without_file(all, path@) =~= without_file(all, path@));
    }
    let mut i: usize = 0;
    while i < files.len()
        invariant
            i <= files@.len(),
            all == files.deep_view(),
            all == old(files).deep_view(),
            row(all, path@) == row(all.skip(i as int), path@),
            without_file(all, path@) == all.take(i as int) + without_file(
                all.skip(i as int),
                path@,
            ),
        decreases files@.len() - i,
    {
        let ghost rest = all.skip(i as int);
        proof {
            assert(rest[0] == files@[i as int].deep_view());
            assert(rest.skip(1) =~= all.skip(i + 1));
        }
        if same_text(files[i].0.as_str(), path) {
            let (_, file) = files.remove(i);
            proof {
                assert(file.deep_view() == rest[0].1);
                assert(files.deep_view() =~= all.take(i as int) + all.skip(i + 1));
            }
            return Some(file);
        }
        proof {
            assert(all.take(i as int) + (seq![rest[0]] + without_file(all.skip(i + 1), path@))
                =~= all.take(i + 1) + without_file(all.skip(i + 1), path@));
        }
        i = i + 1;
    }
    proof {
        assert(all.take(all.len() as int) + without_file(all.skip(all.len() as int), path@) =~= all);
    }
    None
}

/// I/O-free coroutine searching the messages of an m2dir.
pub struct M2dirEnvelopeSearch {
    plan: Plan,
    state: State,
}

impl View for M2dirEnvelopeSearch {
    type V = Searching;

    closed spec fn view(&self) -> Searching {
        Searching { plan: self.plan, state: self.state }
    }
}

/// The parts of a query: its filter and its sorters.
pub open spec fn parts_of(query: Option<SearchEmailsQuery>) -> (
    Option<SearchEmailsFilterQuery>,
    Seq<SearchEmailsSorter>,
) {
    (filter_of(query), sorters_of(query))
}

impl M2dirEnvelopeSearch {
    /// `path` is the directory of the m2dir.
    pub fn new(
        path: &str,
        query: Option<SearchEmailsQuery>,
        page: Option<u32>,
        page_size: Option<u32>,
        with_attachment: bool,
    ) -> (r: M2dirEnvelopeSearch)
        ensures
            m2dir_path(r@.plan.m2dir) == path@,
            (r@.plan.filter, r@.plan.sort@) == parts_of(query),
            r@.plan.page == page,
            r@.plan.page_size == page_size,
            r@.plan.with_attachment == with_attachment,
            r@.state == State::Listing(list_started(r@.plan.m2dir)),
    {
        let m2dir = open_m2dir(path);
        let list = list_new(&m2dir);
        let mut filter: Option<SearchEmailsFilterQuery> = None;
        let mut sort: Vec<SearchEmailsSorter> = Vec::new();
        proof {
            assert(sort@ =~= seq![]);
        }
        if let Some(query) = query {
            filter = query.filter;
            if let Some(chain) = query.sort {
                sort = chain;
            }
        }
        let plan = Plan { m2dir, filter, sort, page, page_size, with_attachment };
        M2dirEnvelopeSearch { plan, state: State::Listing(list) }
    }

    /// The files of the entries.
    fn paths(&self, entries: &Vec<Entry>) -> (r: Vec<String>)
        ensures
            r.deep_view().to_set() == self@.plan.all_files(entries.deep_view()),
    {
        let ghost all = entries.deep_view();
        let ghost plan = self.plan;
        let mut out: Vec<String> = Vec::new();
        proof {
            assert(all.take(0) =~= seq![]);
            assert(out.deep_view().to_set() =~= Set::empty());
        }
        let mut i: usize = 0;
        while i < entries.len()
            invariant
                i <= entries@.len(),
                all == entries.deep_view(),
                plan == self.plan,
                out.deep_view().to_set() == plan.all_files(all.take(i as int)),
            decreases entries@.len() - i,
        {
            let ghost was = out.deep_view();
            let message = entries[i].path.clone();
            let meta = flags_path_of(&self.plan.m2dir, entries[i].id.as_str());
            let ghost views = (message@, meta@);
            out.push(message);
            out.push(meta);
            proof {
                assert(all.take(i + 1).drop_last() =~= all.take(i as int));
                assert(all.take(i + 1).last() == entries@[i as int].deep_view());
                let now = out.deep_view();
                assert(now =~= was.push(views.0).push(views.1));
                assert forall|p: Seq<char>| now.to_set().contains(p) == (was.to_set().contains(p) || p
                    == views.0 || p == views.1) by {
                    if now.contains(p) {
                        let k = choose|k: int| 0 <= k < now.len() && now[k] == p;
                        if k < was.len() {
                            assert(was[k] == p);
                        }
                    }
                    if was.contains(p) {
                        let k = choose|k: int| 0 <= k < was.len() && was[k] == p;
                        assert(now[k] == p);
                    }
                    assert(now[was.len() as int] == views.0);
                    assert(now[(was.len() + 1) as int] == views.1);
                }
                assert(now.to_set() =~= plan.all_files(all.take(i + 1)));
            }
            i = i + 1;
        }
        proof {
            assert(all.take(all.len() as int) =~= all);
        }
        out
    }

    /// Reads the entries out of their files and keeps those looked for.
    fn collect(&self, files: Vec<(String, RawMessage)>, entries: &Vec<Entry>) -> (r: Result<
        Vec<Envelope>,
        String,
    >)
        ensures
            match r {
                Ok(hits) => self@.plan.hits(files.deep_view(), entries.deep_view()) == Ok::<
                    _,
                    Seq<char>,
                >(hits.deep_view()),
                Err(path) => self@.plan.hits(files.deep_view(), entries.deep_view()) == Err::<
                    Seq<EnvelopeView>,
                    _,
                >(path@),
            },
    {
        let ghost plan = self.plan;
        let ghost all = entries.deep_view();
        let ghost total = plan.hits(files.deep_view(), all);
        let mut files = files;
        let mut out: Vec<Envelope> = Vec::new();
        proof {
            assert(all.skip(0) =~= all);
            assert(out.deep_view() =~= seq![]);
            if let Ok(more) = total {
                assert(out.deep_view() + more =~= more);
            }
        }
        let mut i: usize = 0;
        #[verifier::loop_isolation(false)]
        while i < entries.len()
            invariant
                i <= entries@.len(),
                all == entries.deep_view(),
                plan == self.plan,
                total == (match plan.hits(files.deep_view(), all.skip(i as int)) {
                    Ok(more) => Ok::<_, Seq<char>>(out.deep_view() + more),
                    Err(path) => Err::<Seq<EnvelopeView>, _>(path),
                }),
            decreases entries@.len() - i,
        {
            let ghost rest = all.skip(i as int);
            let ghost was = out.deep_view();
            proof {
                assert(rest[0] == entries@[i as int].deep_view());
                assert(rest.skip(1) =~= all.skip(i + 1));
            }
            let entry = &entries[i];
            let ghost held = files.deep_view();
            if let Some(body) = take_file(&mut files, entry.path.as_str()) {
                let meta = flags_path_of(&self.plan.m2dir, entry.id.as_str());
                let ghost others = files.deep_view();
                let flags = match take_file(&mut files, meta.as_str()) {
                    Some(file) => parse_meta_flags(file.bytes.as_slice()),
                    None => {
                        let none: [u8; 0] = [];
                        proof {
                            assert(none@ =~= seq![]);
                        }
                        parse_meta_flags(&none)
                    },
                };
                proof {
                    assert(flags@ == meta_flags(file_or_empty(others, meta@)));
                }
                let headers = if self.plan.with_attachment {
                    parse_message(body.bytes.as_slice())
                } else {
                    parse_headers(body.bytes.as_slice())
                };
                match headers {
                    None => return Err(entry.path.clone()),
                    Some(headers) => {
                        let envelope = envelope_from(
                            entry.id.as_str(),
                            flags,
                            &headers,
                            body.bytes.len(),
                            self.plan.with_attachment,
                        );
                        let keep = match &self.plan.filter {
                            Some(filter) => matches_filter(&envelope, body.bytes.as_slice(), filter),
                            None => true,
                        };
                        let ghost view = envelope.deep_view();
                        if keep {
                            out.push(envelope);
                            proof {
                                assert(out.deep_view() =~= was.push(view));
                                if let Ok(more) = plan.hits(files.deep_view(), all.skip(i + 1)) {
                                    assert(was.push(view) + more =~= was + (seq![view] + more));
                                }
                            }
                        } else {
                            proof {
                                if let Ok(more) = plan.hits(files.deep_view(), all.skip(i + 1)) {
                                    assert(was + more =~= was + (seq![] + more));
                                }
                            }
                        }
                    },
                }
            } else {
                proof {
                    lemma_without_absent(held, entry.path@);
                }
            }
            i = i + 1;
        }
        proof {
            assert(out.deep_view() + seq![] =~= out.deep_view());
        }
        Ok(out)
    }

    /// Advances the coroutine: with no answer at first, then with the answer
    /// to what it asked for.
    pub fn resume(&mut self, arg: Option<M2dirArg>) -> (r: Step)
        ensures
            old(self)@.resumed(arg, final(self)@, r),
    {
        let mut state = State::Done;
        core::mem::swap(&mut self.state, &mut state);
        match state {
            State::Listing(mut list) => match list_resume(&mut list, arg) {
                EmailCoroutineState::Yielded(step) => {
                    self.state = State::Listing(list);
                    EmailCoroutineState::Yielded(step)
                },
                EmailCoroutineState::Complete(Ok(entries)) => {
                    if entries.len() == 0 {
                        let none: Vec<Envelope> = Vec::new();
                        proof {
                            assert(none.deep_view() =~= seq![]);
                        }
                        return EmailCoroutineState::Complete(Ok(none));
                    }
                    let paths = self.paths(&entries);
                    self.state = State::Reading(entries);
                    EmailCoroutineState::Yielded(want_files(paths))
                },
                EmailCoroutineState::Complete(Err(err)) => EmailCoroutineState::Complete(
                    Err(M2dirEnvelopeSearchError::List(err)),
                ),
            },
            State::Reading(entries) => {
                let files = match arg {
                    Some(arg) => files_of(arg),
                    None => None,
                };
                match files {
                    None => {
                        self.state = State::Reading(entries);
                        EmailCoroutineState::Complete(Err(M2dirEnvelopeSearchError::UnexpectedArg))
                    },
                    Some(files) => match self.collect(files, &entries) {
                        Err(path) => EmailCoroutineState::Complete(
                            Err(M2dirEnvelopeSearchError::Parse(path)),
                        ),
                        Ok(hits) => {
                            let hits = if self.plan.sort.len() == 0 {
                                let newest: [SearchEmailsSorter; 1] = [
                                    SearchEmailsSorter(
                                        SearchEmailsSorterKind::Date,
                                        SearchEmailsSorterOrder::Descending,
                                    ),
                                ];
                                proof {
                                    assert(newest@ =~= effective(self.plan.sort@));
                                }
                                sort_envelopes(&hits, &newest)
                            } else {
                                sort_envelopes(&hits, self.plan.sort.as_slice())
                            };
                            EmailCoroutineState::Complete(
                                Ok(paginate(&hits, self.plan.page, self.plan.page_size)),
                            )
                        },
                    },
                }
            },
            State::Done => EmailCoroutineState::Complete(
                Err(M2dirEnvelopeSearchError::ResumedAfterDone),
            ),
        }
    }
}

/// Files are the same without one that is not among them.
proof fn lemma_without_absent(files: Files, path: Seq<char>)
    requires
        row(files, path) is None,
    ensures
        without_file(files, path) == files,
    decreases files.len(),
{
    if files.len() > 0 {
        lemma_without_absent(files.skip(1), path);
        assert(seq![files[0]] + files.skip(1) =~= files);
    }
}

proof fn lemma_without_file(files: Files, path: Seq<char>, other: Seq<char>)
    requires
        path != other,
    ensures
        row(without_file(files, path), other) == row(files, other),
    decreases files.len(),
{
    if files.len() > 0 {
        lemma_without_file(files.skip(1), path, other);
        if files[0].0 != path {
            let rest = without_file(files.skip(1), path);
            assert((seq![files[0]] + rest).skip(1) =~= rest);
        }
    }
}

/// Whether entries have files of their own: no message or flags file serves
/// two of them.
pub open spec fn apart(plan: Plan, entries: Seq<EntryView>) -> bool {
    &&& forall|i: int, j: int|
        0 <= i < j < entries.len() ==> (#[trigger] entries[i]).path != (#[trigger] entries[j]).path
            && flags_path(plan.m2dir, entries[i].id) != flags_path(plan.m2dir, entries[j].id)
    &&& forall|i: int, j: int|
        0 <= i < entries.len() && 0 <= j < entries.len() ==> (#[trigger] entries[i]).path != flags_path(
            plan.m2dir,
            (#[trigger] entries[j]).id,
        )
}

/// The envelope of an entry whose message was read.
pub open spec fn entry_envelope(plan: Plan, files: Files, entry: EntryView) -> EnvelopeView {
    let raw = row(files, entry.path)->0;
    envelope_of(
        entry.id,
        meta_flags(file_or_empty(files, flags_path(plan.m2dir, entry.id))),
        plan.headers(raw)->0,
        raw.len(),
        plan.with_attachment,
    )
}

/// A search hits every entry whose message was read and is one looked for,
/// with the flags of its own flags file, in the order of the entries; and no
/// other.
pub proof fn law_hits_are_those_looked_for(plan: Plan, files: Files, entries: Seq<EntryView>)
    requires
        apart(plan, entries),
    ensures
        plan.hits(files, entries) matches Ok(hits) ==> hits == entries.filter(
            |entry: EntryView|
                row(files, entry.path) matches Some(raw) && plan.keeps(
                    entry_envelope(plan, files, entry),
                    raw,
                ),
        ).map_values(|entry: EntryView| entry_envelope(plan, files, entry)),
        plan.hits(files, entries) matches Err(path) ==> exists|i: int|
            0 <= i < entries.len() && (#[trigger] entries[i]).path == path && (row(files, path) matches Some(
                raw,
            ) && plan.headers(raw) is None),
        plan.hits(files, entries) is Ok ==> forall|i: int|
            0 <= i < entries.len() ==> (row(files, (#[trigger] entries[i]).path) matches Some(raw)
                ==> plan.headers(raw) is Some),
{
    lemma_hits(plan, files, files, entries);
}

proof fn lemma_hits(plan: Plan, files: Files, left: Files, entries: Seq<EntryView>)
    requires
        apart(plan, entries),
        forall|i: int|
            0 <= i < entries.len() ==> row(left, (#[trigger] entries[i]).path) == row(
                files,
                entries[i].path,
            ) && row(left, flags_path(plan.m2dir, entries[i].id)) == row(
                files,
                flags_path(plan.m2dir, entries[i].id),
            ),
    ensures
        plan.hits(left, entries) matches Ok(hits) ==> hits == entries.filter(
            |entry: EntryView|
                row(files, entry.path) matches Some(raw) && plan.keeps(
                    entry_envelope(plan, files, entry),
                    raw,
                ),
        ).map_values(|entry: EntryView| entry_envelope(plan, files, entry)),
        plan.hits(left, entries) matches Err(path) ==> exists|i: int|
            0 <= i < entries.len() && (#[trigger] entries[i]).path == path && (row(files, path) matches Some(
                raw,
            ) && plan.headers(raw) is None),
        plan.hits(left, entries) is Ok ==> forall|i: int|
            0 <= i < entries.len() ==> (row(files, (#[trigger] entries[i]).path) matches Some(raw)
                ==> plan.headers(raw) is Some),
    decreases entries.len(),
{
    reveal(Seq::filter);
    let keep = |entry: EntryView|
        row(files, entry.path) matches Some(raw) && plan.keeps(entry_envelope(plan, files, entry), raw);
    let read = |entry: EntryView| entry_envelope(plan, files, entry);
    if entries.len() == 0 {
        assert(entries.filter(keep).map_values(read) =~= seq![]);
    } else {
        let entry = entries[0];
        let rest = entries.skip(1);
        let meta = flags_path(plan.m2dir, entry.id);
        assert forall|i: int| 0 <= i < rest.len() implies rest[i] == entries[i + 1] by {}
        assert(apart(plan, rest)) by {
            assert forall|i: int, j: int| 0 <= i < j < rest.len() implies (#[trigger] rest[i]).path != (
            #[trigger] rest[j]).path && flags_path(plan.m2dir, rest[i].id) != flags_path(
                plan.m2dir,
                rest[j].id,
            ) by {
                assert(entries[i + 1].path != entries[j + 1].path);
            }
            assert forall|i: int, j: int| 0 <= i < rest.len() && 0 <= j < rest.len() implies (
            #[trigger] rest[i]).path != flags_path(plan.m2dir, (#[trigger] rest[j]).id) by {
                assert(entries[i + 1].path != flags_path(plan.m2dir, entries[j + 1].id));
            }
        }
        assert(row(left, entries[0].path) == row(files, entries[0].path));
        assert(entries[0].path != flags_path(plan.m2dir, entries[0].id));
        let next = if row(left, entry.path) is None {
            left
        } else {
            without_file(without_file(left, entry.path), meta)
        };
        assert forall|i: int| 0 <= i < rest.len() implies row(next, (#[trigger] rest[i]).path) == row(
            files,
            rest[i].path,
        ) && row(next, flags_path(plan.m2dir, rest[i].id)) == row(
            files,
            flags_path(plan.m2dir, rest[i].id),
        ) by {
            let e = entries[i + 1];
            assert(rest[i] == e);
            assert(entries[0].path != entries[i + 1].path);
            assert(entries[i + 1].path != flags_path(plan.m2dir, entries[0].id));
            assert(entries[0].path != flags_path(plan.m2dir, entries[i + 1].id));
            assert(row(left, entries[i + 1].path) == row(files, entries[i + 1].path));
            let others = without_file(left, entry.path);
            lemma_without_file(left, entry.path, e.path);
            lemma_without_file(left, entry.path, flags_path(plan.m2dir, e.id));
            lemma_without_file(others, meta, e.path);
            lemma_without_file(others, meta, flags_path(plan.m2dir, e.id));
        }
        lemma_without_file(left, entry.path, meta);
        lemma_hits(plan, files, next, rest);
        let one = seq![entry];
        assert(entries =~= one + rest);
        Seq::filter_distributes_over_add(one, rest, keep);
        assert(one.drop_last() =~= seq![]);
        assert(one.drop_last().filter(keep) =~= seq![]);
        assert(one.last() == entry);
        assert(one.filter(keep) =~= if keep(entry) {
            one
        } else {
            seq![]
        });
        assert(entries.filter(keep).map_values(read) =~= one.filter(keep).map_values(read)
            + rest.filter(keep).map_values(read));
        if plan.hits(left, entries) is Err {
            let path = plan.hits(left, entries)->Err_0;
            if row(left, entry.path) is Some && plan.headers(row(left, entry.path)->0) is None {
                assert(entries[0].path == path);
            } else {
                assert(plan.hits(next, rest) == plan.hits(left, entries));
                let i = choose|i: int|
                    0 <= i < rest.len() && (#[trigger] rest[i]).path == path && (row(files, path) matches Some(
                        raw,
                    ) && plan.headers(raw) is None);
                assert(entries[i + 1].path == path);
            }
        } else {
            assert forall|i: int| 0 <= i < entries.len() implies (row(
                files,
                (#[trigger] entries[i]).path,
            ) matches Some(raw) ==> plan.headers(raw) is Some) by {
                if i > 0 {
                    assert(rest[i - 1] == entries[i]);
                }
            }
            if row(left, entry.path) is Some {
                let envelope = entry_envelope(plan, files, entry);
                assert(keep(entry) <==> plan.keeps(envelope, row(left, entry.path)->0));
                assert(one.filter(keep).map_values(read) =~= if keep(entry) {
                    seq![envelope]
                } else {
                    seq![]
                });
            } else {
                assert(one.filter(keep).map_values(read) =~= seq![]);
                assert(plan.hits(left, entries) == plan.hits(next, rest));
            }
        }
    }
}

/// The files that are read for entries are the message and the flags of
/// each, and nothing else.
pub proof fn law_files_asked_for(plan: Plan, entries: Seq<EntryView>, path: Seq<char>)
    ensures
        plan.all_files(entries).contains(path) <==> exists|i: int|
            0 <= i < entries.len() && ((#[trigger] entries[i]).path == path || flags_path(
                plan.m2dir,
                entries[i].id,
            ) == path),
    decreases entries.len(),
{
    if entries.len() > 0 {
        let most = entries.drop_last();
        law_files_asked_for(plan, most, path);
        assert(entries[entries.len() - 1] == entries.last());
        if plan.all_files(most).contains(path) {
            let i = choose|i: int|
                0 <= i < most.len() && ((#[trigger] most[i]).path == path || flags_path(
                    plan.m2dir,
                    most[i].id,
                ) == path);
            assert(entries[i] == most[i]);
        }
        if exists|i: int|
            0 <= i < entries.len() && ((#[trigger] entries[i]).path == path || flags_path(
                plan.m2dir,
                entries[i].id,
            ) == path) {
            let i = choose|i: int|
                0 <= i < entries.len() && ((#[trigger] entries[i]).path == path || flags_path(
                    plan.m2dir,
                    entries[i].id,
                ) == path);
            if i < most.len() {
                assert(most[i] == entries[i]);
            }
        }
    }
}

/// A search gives a page of the hits in order, and nothing that is no hit;
/// without a page size it gives every hit.
pub proof fn law_result_is_a_page_in_order(plan: Plan, hits: Seq<EnvelopeView>)
    ensures
        in_order(sorted(hits, effective(plan.sort@)), effective(plan.sort@)),
        sorted(hits, effective(plan.sort@)).to_multiset() =~= hits.to_multiset(),
        plan.page_size is None ==> plan.result(hits) == sorted(hits, effective(plan.sort@)),
        forall|i: int|
            0 <= i < plan.result(hits).len() ==> hits.contains(#[trigger] plan.result(hits)[i]),
{
    law_sorted(hits, effective(plan.sort@));
    law_first_page_by_default(sorted(hits, effective(plan.sort@)), plan.page_size);
    let all = sorted(hits, effective(plan.sort@));
    assert forall|i: int| 0 <= i < plan.result(hits).len() implies hits.contains(
        #[trigger] plan.result(hits)[i],
    ) by {
        assert(all.contains(plan.result(hits)[i]));
        all.to_multiset_ensures();
        hits.to_multiset_ensures();
        assert(all.to_multiset().count(plan.result(hits)[i]) > 0);
    }
}

/// Without a filter every message is looked for, and with one exactly those
/// that the filter asks for. Attachments are counted in a whole message; where
/// they are not asked for the headers do.
pub proof fn law_looked_for(plan: Plan, envelope: EnvelopeView, raw: Seq<u8>)
    requires
        plan.filter matches Some(filter) ==> flags_kept(filter),
    ensures
        plan.filter is None ==> plan.keeps(envelope, raw),
        plan.filter matches Some(filter) ==> (plan.keeps(envelope, raw) <==> asked_for(
            filter,
            mail_of(envelope, raw),
        )),
        plan.with_attachment ==> plan.headers(raw) == parsed_message(raw),
        !plan.with_attachment ==> plan.headers(raw) == parsed_headers(raw),
{
    if let Some(filter) = plan.filter {
        law_meets_what_is_asked_for(envelope, raw, filter);
    }
}

} // verus!
