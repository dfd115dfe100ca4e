//! IMAP envelope-search coroutine: SELECT (or EXAMINE), then UID SORT (RFC
//! 5256) and UID FETCH (RFC 3501 section 6.4.5).
//!
//! Pages are counted from 1 and cut out of the sorted UID list before the
//! FETCH, whose responses are put back into that order.
use vstd::prelude::*;

use io_imap::codec::fragmentizer::Fragmentizer;
use io_imap::rfc3501::examine::{ImapMailboxExamine, ImapMailboxExamineError};
use io_imap::rfc3501::fetch::{ImapMessageFetch, ImapMessageFetchError};
use io_imap::rfc3501::select::{ImapMailboxSelect, ImapMailboxSelectError};
use io_imap::rfc5256::sort::{ImapMessageSort, ImapMessageSortError};

use crate::coroutine::{
    fed, hands_over, resumed, EmailCoroutineState, ImapStep, Outcome, Stages,
};
use crate::envelope::{Envelope, EnvelopeView};
use crate::imap::convert::{
    lemma_list_is_set, parse_mailbox, transmissible, uids_ok, InvalidMailboxName,
};
use crate::imap::envelope_list::{build_item_names, item_names};
use crate::imap::fetch::{
    envelope_from, envelope_of, read_rows, row_views, FetchItem, FetchItemView, FetchRow, FetchRowView,
};
use crate::imap::search_key::{
    criteria, optional_key, search_keys, sort_criteria, wire_key, InvalidFilter, SearchKey,
    SortCriterion,
};
use crate::imap::wire::{
    examine_left, examine_new, examine_request, examine_resume, examine_step, fetch_left,
    fetch_new, fetch_request, fetch_resume, fetch_step, select_left, select_new, select_request,
    select_resume, select_step, sequence_set, sort_can, sort_left, sort_new, sort_request,
    sort_resume, sort_step, text_items, FetchItemName, FetchRequest, SortRequest,
};
use crate::page::{page_of, paginate_uids};
use crate::search::{filter_of, sorters_of, SearchEmailsQuery};
use crate::text::{comma_joined, decimals, joined, lemma_numbers};

verus! {

/// Errors produced by [`ImapEnvelopeSearch`].
#[derive(Debug)]
pub enum ImapEnvelopeSearchError {
    Select(ImapMailboxSelectError),
    Examine(ImapMailboxExamineError),
    Sort(ImapMessageSortError),
    Fetch(ImapMessageFetchError),
    InvalidMailbox(String),
    InvalidFilter(InvalidFilter),
    InvalidUidSet(String),
    ResumedAfterDone,
}

/// The UID in a FETCH response: its first UID item.
pub open spec fn first_uid(items: Seq<FetchItemView>) -> Option<u32>
    decreases items.len(),
{
    if items.len() == 0 {
        None
    } else {
        match items[0] {
            FetchItemView::Uid(uid) => Some(uid),
            _ => first_uid(items.drop_first()),
        }
    }
}

/// The UID that a FETCH response is about; without a UID item its sequence
/// number stands for it.
pub open spec fn row_uid(row: FetchRowView) -> u32 {
    match first_uid(row.items) {
        Some(uid) => uid,
        None => row.seq,
    }
}

/// The last response about a UID.
pub open spec fn last_row(rows: Seq<FetchRowView>, uid: u32) -> Option<FetchRowView>
    decreases rows.len(),
{
    if rows.len() == 0 {
        None
    } else if row_uid(rows.last()) == uid {
        Some(rows.last())
    } else {
        last_row(rows.drop_last(), uid)
    }
}

/// The envelopes of the responses in the order asked for, without the UIDs
/// that the server skipped.
pub open spec fn reordered(rows: Seq<FetchRowView>, order: Seq<u32>) -> Seq<EnvelopeView>
    decreases order.len(),
{
    if order.len() == 0 {
        seq![]
    } else {
        let before = reordered(rows, order.drop_last());
        match last_row(rows, order.last()) {
            Some(row) => before.push(envelope_of(row.seq, row.items)),
            None => before,
        }
    }
}

proof fn lemma_first_uid(items: Seq<FetchItemView>, n: int)
    requires
        0 <= n <= items.len(),
        forall|i: int| 0 <= i < n ==> !((#[trigger] items[i]) is Uid),
    ensures
        first_uid(items) == first_uid(items.subrange(n, items.len() as int)),
    decreases n,
{
    if n > 0 {
        let rest = items.drop_first();
        assert(!(items[0] is Uid));
        assert forall|i: int| 0 <= i < n - 1 implies !((#[trigger] rest[i]) is Uid) by {
            assert(rest[i] == items[i + 1]);
        }
        lemma_first_uid(rest, n - 1);
        assert(rest.subrange(n - 1, rest.len() as int) =~= items.subrange(n, items.len() as int));
    } else {
        assert(items.subrange(0, items.len() as int) =~= items);
    }
}

/// The UID that a FETCH response is about.
pub fn uid_of_row(row: &FetchRow) -> (r: u32)
    ensures
        r == row_uid(row.deep_view()),
{
    let ghost items = row.items.deep_view();
    let mut i: usize = 0;
    while i < row.items.len()
        invariant
            i <= row.items@.len(),
            items == row.items.deep_view(),
            forall|j: int| 0 <= j < i ==> !((#[trigger] items[j]) is Uid),
        decreases row.items@.len() - i,
    {
        proof {
            assert(items[i as int] == row.items@[i as int].deep_view());
        }
        if let FetchItem::Uid(uid) = &row.items[i] {
            proof {
                lemma_first_uid(items, i as int);
                assert(items.subrange(i as int, items.len() as int)[0] == items[i as int]);
            }
            return *uid;
        }
        i = i + 1;
    }
    proof {
        lemma_first_uid(items, items.len() as int);
    }
    row.seq
}

/// The last response about a UID.
pub fn find_row(rows: &Vec<FetchRow>, uid: u32) -> (r: Option<usize>)
    ensures
        match r {
            Some(i) => i < rows@.len() && last_row(rows.deep_view(), uid) == Some(
                rows@[i as int].deep_view(),
            ),
            None => last_row(rows.deep_view(), uid) is None,
        },
{
    let ghost all = rows.deep_view();
    let mut n: usize = rows.len();
    proof {
        assert(all.subrange(0, n as int) =~= all);
    }
    while n > 0
        invariant
            n <= rows@.len(),
            all == rows.deep_view(),
            last_row(all, uid) == last_row(all.subrange(0, n as int), uid),
        decreases n,
    {
        proof {
            assert(all.subrange(0, n as int).last() == rows@[n - 1].deep_view());
            assert(all.subrange(0, n as int).drop_last() =~= all.subrange(0, n - 1));
        }
        if uid_of_row(&rows[n - 1]) == uid {
            return Some(n - 1);
        }
        n = n - 1;
    }
    None
}

/// Puts FETCH responses into the requested UID order, dropping UIDs the
/// server skipped.
pub fn reorder_envelopes(rows: &Vec<FetchRow>, order: &Vec<u32>) -> (r: Vec<Envelope>)
    ensures
        r.deep_view() == reordered(rows.deep_view(), order@),
{
    let mut out: Vec<Envelope> = Vec::new();
    proof {
        assert(out.deep_view() =~= seq![]);
        assert(order@.subrange(0, 0) =~= seq![]);
    }
    let mut i: usize = 0;
    while i < order.len()
        invariant
            i <= order@.len(),
            out.deep_view() == reordered(rows.deep_view(), order@.subrange(0, i as int)),
        decreases order@.len() - i,
    {
        proof {
            assert(order@.subrange(0, i + 1).drop_last() =~= order@.subrange(0, i as int));
            assert(order@.subrange(0, i + 1).last() == order@[i as int]);
        }
        let ghost before = out.deep_view();
        if let Some(k) = find_row(rows, order[i]) {
            let envelope = envelope_from(rows[k].seq, &rows[k].items);
            let ghost last = envelope.deep_view();
            out.push(envelope);
            proof {
                assert(out.deep_view() =~= before.push(last));
            }
        }
        i = i + 1;
    }
    proof {
        assert(order@.subrange(0, order@.len() as int) =~= order@);
    }
    out
}

/// The exchange that opens the mailbox.
pub enum Opening {
    Select(ImapMailboxSelect),
    /// Read-only.
    Examine(ImapMailboxExamine),
}

impl Opening {
    /// The mailbox being opened, `None` once the exchange is over.
    pub open spec fn request(self) -> Option<Seq<char>> {
        match self {
            Opening::Select(select) => select_request(select),
            Opening::Examine(examine) => examine_request(examine),
        }
    }

    /// What the next step of the exchange comes to.
    pub open spec fn step(self, fragmentizer: Fragmentizer, bytes: Option<Seq<u8>>) -> Outcome<
        Option<u32>,
        ImapEnvelopeSearchError,
    > {
        match self {
            Opening::Select(select) => match select_step(select, fragmentizer, bytes) {
                Outcome::Read => Outcome::Read,
                Outcome::Write(out) => Outcome::Write(out),
                Outcome::Done(exists) => Outcome::Done(exists),
                Outcome::Failed(err) => Outcome::Failed(ImapEnvelopeSearchError::Select(err)),
            },
            Opening::Examine(examine) => match examine_step(examine, fragmentizer, bytes) {
                Outcome::Read => Outcome::Read,
                Outcome::Write(out) => Outcome::Write(out),
                Outcome::Done(exists) => Outcome::Done(exists),
                Outcome::Failed(err) => Outcome::Failed(ImapEnvelopeSearchError::Examine(err)),
            },
        }
    }

    /// Where the next step leaves the exchange, and the parser with it.
    pub open spec fn stepped(self, fragmentizer: Fragmentizer, bytes: Option<Seq<u8>>) -> (
        Opening,
        Fragmentizer,
    ) {
        match self {
            Opening::Select(select) => {
                let (select, parsed) = select_left(select, fragmentizer, bytes);
                (Opening::Select(select), parsed)
            },
            Opening::Examine(examine) => {
                let (examine, parsed) = examine_left(examine, fragmentizer, bytes);
                (Opening::Examine(examine), parsed)
            },
        }
    }

    fn resume(&mut self, fragmentizer: &mut Fragmentizer, bytes: Option<&[u8]>) -> (r:
        EmailCoroutineState<ImapStep, Result<Option<u32>, ImapEnvelopeSearchError>>)
        requires
            old(self).request() is Some,
        ensures
            r.outcome() == old(self).step(*old(fragmentizer), fed(bytes)),
            (*final(self), *final(fragmentizer)) == old(self).stepped(
                *old(fragmentizer),
                fed(bytes),
            ),
            r is Yielded ==> final(self).request() == old(self).request(),
    {
        match self {
            Opening::Select(select) => match select_resume(select, fragmentizer, bytes) {
                EmailCoroutineState::Yielded(step) => EmailCoroutineState::Yielded(step),
                EmailCoroutineState::Complete(Ok(exists)) => EmailCoroutineState::Complete(Ok(exists)),
                EmailCoroutineState::Complete(Err(err)) => EmailCoroutineState::Complete(
                    Err(ImapEnvelopeSearchError::Select(err)),
                ),
            },
            Opening::Examine(examine) => match examine_resume(examine, fragmentizer, bytes) {
                EmailCoroutineState::Yielded(step) => EmailCoroutineState::Yielded(step),
                EmailCoroutineState::Complete(Ok(exists)) => EmailCoroutineState::Complete(Ok(exists)),
                EmailCoroutineState::Complete(Err(err)) => EmailCoroutineState::Complete(
                    Err(ImapEnvelopeSearchError::Examine(err)),
                ),
            },
        }
    }
}

/// What a search does once its mailbox is open.
pub struct SearchPlan {
    pub page: Option<u32>,
    pub page_size: Option<u32>,
    pub item_names: Vec<FetchItemName>,
    pub key: SearchKey,
    pub criteria: Vec<SortCriterion>,
    pub fallback: bool,
}

/// Where a search stands.
pub enum State {
    Opening { open: Opening, plan: SearchPlan },
    Sorting { sort: ImapMessageSort, plan: SearchPlan },
    Fetching { fetch: ImapMessageFetch, order: Vec<u32> },
    Done,
}

impl State {
    /// Whether the exchange under way is not over, and what comes after it
    /// can travel.
    pub open spec fn live(self) -> bool {
        match self {
            State::Opening { open, plan } => open.request() is Some && plan.key.content().ok()
                && plan.criteria@.len() > 0,
            State::Sorting { sort, plan } => sort_request(sort) is Some,
            State::Fetching { fetch, .. } => fetch_request(fetch) is Some,
            State::Done => true,
        }
    }

    /// Where a step leaves the exchange under way, and the parser with it.
    pub open spec fn stepped(self, fragmentizer: Fragmentizer, bytes: Option<Seq<u8>>) -> (
        State,
        Fragmentizer,
    ) {
        match self {
            State::Opening { open, plan } => {
                let (open, parsed) = open.stepped(fragmentizer, bytes);
                (State::Opening { open, plan }, parsed)
            },
            State::Sorting { sort, plan } => {
                let (sort, parsed) = sort_left(sort, fragmentizer, bytes);
                (State::Sorting { sort, plan }, parsed)
            },
            State::Fetching { fetch, order } => {
                let (fetch, parsed) = fetch_left(fetch, fragmentizer, bytes);
                (State::Fetching { fetch, order }, parsed)
            },
            State::Done => (self, fragmentizer),
        }
    }
}

pub type SearchOutcome = Outcome<Seq<EnvelopeView>, ImapEnvelopeSearchError>;

/// What a resume of a search returns.
pub type SearchStep = EmailCoroutineState<ImapStep, Result<Vec<Envelope>, ImapEnvelopeSearchError>>;

/// What follows a sorted list of UIDs: the end where the page is empty, else
/// a FETCH of the page.
pub open spec fn sorted(
    uids: Seq<u32>,
    plan: SearchPlan,
    post: State,
    answer: Option<SearchOutcome>,
) -> bool {
    let page = page_of(uids, plan.page, plan.page_size);
    if page.len() == 0 {
        post is Done && answer == Some(SearchOutcome::Done(seq![]))
    } else {
        &&& answer is None
        &&& post matches State::Fetching { fetch, order }
        &&& order@ == page
        &&& fetch_request(fetch) == Some(
            FetchRequest {
                set: text_items(joined(decimals(page), seq![','])),
                items: plan.item_names@,
                uid: true,
            },
        )
    }
}

impl Stages for State {
    type Context = Fragmentizer;

    type Answer = SearchOutcome;

    open spec fn rank(self) -> nat {
        match self {
            State::Opening { .. } => 3,
            State::Sorting { .. } => 2,
            State::Fetching { .. } => 1,
            State::Done => 0,
        }
    }

    open spec fn stage(
        self,
        fragmentizer: Fragmentizer,
        bytes: Option<Seq<u8>>,
        post: State,
        left: Fragmentizer,
        answer: Option<SearchOutcome>,
    ) -> bool {
        let (kept, parsed) = self.stepped(fragmentizer, bytes);
        &&& left == parsed
        &&& match self {
            State::Opening { open, plan } => match open.step(fragmentizer, bytes) {
                Outcome::Done(exists) => if exists is None || exists == Some(0u32) {
                    post is Done && answer == Some(SearchOutcome::Done(seq![]))
                } else {
                    &&& answer is None
                    &&& post matches State::Sorting { sort, plan: then }
                    &&& then == plan
                    &&& sort_request(sort) == Some(
                        SortRequest {
                            criteria: plan.criteria@,
                            key: plan.key.content(),
                            uid: true,
                            fallback: plan.fallback,
                        },
                    )
                },
                Outcome::Failed(err) => post is Done && answer == Some(SearchOutcome::Failed(err)),
                wait => post == kept && answer is Some && answer->0.forwards(wait),
            },
            State::Sorting { sort, plan } => match sort_step(sort, fragmentizer, bytes) {
                Outcome::Done(uids) => sorted(uids, plan, post, answer),
                Outcome::Failed(err) => post is Done && answer == Some(
                    SearchOutcome::Failed(ImapEnvelopeSearchError::Sort(err)),
                ),
                wait => {
                    &&& post matches State::Sorting { sort: next, plan: then }
                    &&& then == plan && sort_request(next) == sort_request(sort)
                    &&& answer is Some && exists|step: Outcome<Seq<u32>, ImapMessageSortError>|
                        #[trigger] sort_can(sort, fragmentizer, bytes, step, next)
                            && answer->0.forwards(step)
                    &&& !sort_request(sort)->0.fallback ==> post == kept && answer->0.forwards(wait)
                },
            },
            State::Fetching { fetch, order } => match fetch_step(fetch, fragmentizer, bytes) {
                Outcome::Done(rows) => post is Done && answer == Some(
                    SearchOutcome::Done(reordered(row_views(rows), order@)),
                ),
                Outcome::Failed(err) => post is Done && answer == Some(
                    SearchOutcome::Failed(ImapEnvelopeSearchError::Fetch(err)),
                ),
                wait => post == kept && answer is Some && answer->0.forwards(wait),
            },
            State::Done => post is Done && answer == Some(
                SearchOutcome::Failed(ImapEnvelopeSearchError::ResumedAfterDone),
            ),
        }
    }
}

/// I/O-free coroutine listing the envelopes that match a shared search
/// query.
pub struct ImapEnvelopeSearch {
    state: State,
}

impl View for ImapEnvelopeSearch {
    type V = State;

    closed spec fn view(&self) -> State {
        self.state
    }
}

/// Whether `plan` is the one for a query.
pub open spec fn planned(
    plan: SearchPlan,
    query: Option<SearchEmailsQuery>,
    page: Option<u32>,
    page_size: Option<u32>,
    with_attachment: bool,
    sort_fallback: bool,
) -> bool {
    &&& plan.page == page
    &&& plan.page_size == page_size
    &&& plan.item_names@ == item_names(with_attachment)
    &&& optional_key(filter_of(query)) == Ok::<_, crate::imap::search_key::InvalidFilterView>(
        plan.key.content(),
    )
    &&& plan.criteria@ == criteria(sorters_of(query))
    &&& plan.fallback == sort_fallback
}

/// What the query of a constructor says.
pub open spec fn given(query: Option<&SearchEmailsQuery>) -> Option<SearchEmailsQuery> {
    match query {
        Some(query) => Some(*query),
        None => None,
    }
}

/// Why a search cannot be built: the mailbox name, and then the filter.
pub open spec fn refused(
    err: ImapEnvelopeSearchError,
    mailbox: Seq<char>,
    query: Option<SearchEmailsQuery>,
) -> bool {
    match err {
        ImapEnvelopeSearchError::InvalidMailbox(name) => !transmissible(mailbox) && name@ == mailbox,
        ImapEnvelopeSearchError::InvalidFilter(err) => transmissible(mailbox) && optional_key(
            filter_of(query),
        ) == Err::<crate::imap::search_key::SearchKeyView, _>(err.deep_view()),
        _ => false,
    }
}

fn make_plan(
    query: Option<&SearchEmailsQuery>,
    page: Option<u32>,
    page_size: Option<u32>,
    with_attachment: bool,
    sort_fallback: bool,
) -> (r: Result<SearchPlan, InvalidFilter>)
    ensures
        match r {
            Ok(plan) => {
                &&& planned(plan, given(query), page, page_size, with_attachment, sort_fallback)
                &&& plan.key.content().ok()
                &&& plan.criteria@.len() > 0
            },
            Err(err) => optional_key(filter_of(given(query))) == Err::<
                crate::imap::search_key::SearchKeyView,
                _,
            >(err.deep_view()),
        },
{
    let key = match query {
        Some(query) => match &query.filter {
            Some(filter) => search_keys(Some(filter)),
            None => search_keys(None),
        },
        None => search_keys(None),
    };
    let key = match key {
        Ok(key) => key,
        Err(err) => return Err(err),
    };
    let criteria = match query {
        Some(query) => match &query.sort {
            Some(chain) => sort_criteria(Some(chain.as_slice())),
            None => sort_criteria(None),
        },
        None => sort_criteria(None),
    };
    let item_names = build_item_names(with_attachment);
    Ok(SearchPlan { page, page_size, item_names, key, criteria, fallback: sort_fallback })
}

impl ImapEnvelopeSearch {
    #[verifier::type_invariant]
    closed spec fn inv(self) -> bool {
        self.state.live()
    }

    /// `page_size = None` returns the full result set; `page = None` is
    /// treated as page 1. `with_attachment = true` additionally fetches
    /// `BODYSTRUCTURE`; `sort_fallback = true` sorts here instead of asking
    /// the server.
    pub fn new(
        mailbox: &str,
        query: Option<&SearchEmailsQuery>,
        page: Option<u32>,
        page_size: Option<u32>,
        with_attachment: bool,
        sort_fallback: bool,
    ) -> (r: Result<ImapEnvelopeSearch, ImapEnvelopeSearchError>)
        ensures
            match r {
                Ok(search) => {
                    &&& search@ matches State::Opening { open, plan }
                    &&& open is Select
                    &&& open.request() == Some(mailbox@)
                    &&& transmissible(mailbox@)
                    &&& planned(plan, given(query), page, page_size, with_attachment, sort_fallback)
                },
                Err(err) => refused(err, mailbox@, given(query)),
            },
    {
        let mailbox = match parse_mailbox(mailbox) {
            Ok(mailbox) => mailbox,
            Err(InvalidMailboxName(name)) => {
                return Err(ImapEnvelopeSearchError::InvalidMailbox(name));
            },
        };
        match make_plan(query, page, page_size, with_attachment, sort_fallback) {
            Ok(plan) => {
                let open = Opening::Select(select_new(&mailbox));
                Ok(ImapEnvelopeSearch { state: State::Opening { open, plan } })
            },
            Err(err) => Err(ImapEnvelopeSearchError::InvalidFilter(err)),
        }
    }

    /// Read-only variant: issues `EXAMINE` instead of `SELECT`.
    pub fn read_only(
        mailbox: &str,
        query: Option<&SearchEmailsQuery>,
        page: Option<u32>,
        page_size: Option<u32>,
        with_attachment: bool,
        sort_fallback: bool,
    ) -> (r: Result<ImapEnvelopeSearch, ImapEnvelopeSearchError>)
        ensures
            match r {
                Ok(search) => {
                    &&& search@ matches State::Opening { open, plan }
                    &&& open is Examine
                    &&& open.request() == Some(mailbox@)
                    &&& transmissible(mailbox@)
                    &&& planned(plan, given(query), page, page_size, with_attachment, sort_fallback)
                },
                Err(err) => refused(err, mailbox@, given(query)),
            },
    {
        let mailbox = match parse_mailbox(mailbox) {
            Ok(mailbox) => mailbox,
            Err(InvalidMailboxName(name)) => {
                return Err(ImapEnvelopeSearchError::InvalidMailbox(name));
            },
        };
        match make_plan(query, page, page_size, with_attachment, sort_fallback) {
            Ok(plan) => {
                let open = Opening::Examine(examine_new(&mailbox));
                Ok(ImapEnvelopeSearch { state: State::Opening { open, plan } })
            },
            Err(err) => Err(ImapEnvelopeSearchError::InvalidFilter(err)),
        }
    }

    /// What a step of the SORT exchange leads to: I/O is asked for as the
    /// exchange asks for it, a failure ends the search, and a sorted list
    /// leads to a FETCH of its page.
    fn after_sort(
        &mut self,
        sort: ImapMessageSort,
        plan: SearchPlan,
        step: EmailCoroutineState<ImapStep, Result<Vec<u32>, ImapMessageSortError>>,
    ) -> (r: Option<SearchStep>)
        requires
            old(self)@ is Done,
            step is Yielded ==> sort_request(sort) is Some,
            step matches EmailCoroutineState::Complete(Ok(uids)) ==> forall|i: int|
                0 <= i < uids@.len() ==> #[trigger] uids@[i] != 0,
        ensures
            match step {
                EmailCoroutineState::Yielded(io) => {
                    &&& final(self)@ == (State::Sorting { sort, plan })
                    &&& r == Some(SearchStep::Yielded(io))
                },
                EmailCoroutineState::Complete(Ok(uids)) => sorted(
                    uids@,
                    plan,
                    final(self)@,
                    match r {
                        Some(step) => Some(step.outcome()),
                        None => None,
                    },
                ),
                EmailCoroutineState::Complete(Err(err)) => {
                    &&& final(self)@ is Done
                    &&& r == Some(SearchStep::Complete(Err(ImapEnvelopeSearchError::Sort(err))))
                },
            },
    {
        match step {
            EmailCoroutineState::Yielded(io) => {
                self.state = State::Sorting { sort, plan };
                Some(EmailCoroutineState::Yielded(io))
            },
            EmailCoroutineState::Complete(Ok(uids)) => {
                let page = paginate_uids(&uids, plan.page, plan.page_size);
                if page.len() == 0 {
                    let none: Vec<Envelope> = Vec::new();
                    proof {
                        assert(none.deep_view() =~= seq![]);
                    }
                    return Some(EmailCoroutineState::Complete(Ok(none)));
                }
                proof {
                    assert(uids_ok(page@));
                    lemma_list_is_set(page@);
                }
                let text = comma_joined(&page);
                match sequence_set(&text) {
                    Some(set) => {
                        let fetch = fetch_new(set, &plan.item_names, true);
                        self.state = State::Fetching { fetch, order: page };
                        None
                    },
                    None => Some(
                        EmailCoroutineState::Complete(
                            Err(ImapEnvelopeSearchError::InvalidUidSet(text)),
                        ),
                    ),
                }
            },
            EmailCoroutineState::Complete(Err(err)) => Some(
                EmailCoroutineState::Complete(Err(ImapEnvelopeSearchError::Sort(err))),
            ),
        }
    }

    /// Advances the search: with no bytes at first and after a write, with
    /// what was read after a read.
    pub fn resume(&mut self, fragmentizer: &mut Fragmentizer, bytes: Option<&[u8]>) -> (r: SearchStep)
        ensures
            resumed(old(self)@, *old(fragmentizer), fed(bytes), final(self)@, *final(fragmentizer), r.outcome()),
        decreases old(self)@.rank(),
    {
        proof {
            use_type_invariant(&*self);
        }
        let ghost pre = self@;
        let ghost f = *fragmentizer;
        let mut state = State::Done;
        core::mem::swap(&mut self.state, &mut state);
        match state {
            State::Opening { mut open, plan } => match open.resume(fragmentizer, bytes) {
                EmailCoroutineState::Yielded(step) => {
                    self.state = State::Opening { open, plan };
                    EmailCoroutineState::Yielded(step)
                },
                EmailCoroutineState::Complete(Ok(exists)) => {
                    let exists: u32 = match exists {
                        Some(n) => n,
                        None => 0,
                    };
                    if exists == 0 {
                        let none: Vec<Envelope> = Vec::new();
                        proof {
                            assert(none.deep_view() =~= seq![]);
                        }
                        return EmailCoroutineState::Complete(Ok(none));
                    }
                    let sort = sort_new(&plan.criteria, wire_key(&plan.key), true, plan.fallback);
                    self.state = State::Sorting { sort, plan };
                    proof {
                        assert(hands_over(pre, f, fed(bytes), self@, *fragmentizer));
                    }
                    self.resume(fragmentizer, None)
                },
                EmailCoroutineState::Complete(Err(err)) => EmailCoroutineState::Complete(Err(err)),
            },
            State::Sorting { mut sort, plan } => {
                let step = sort_resume(&mut sort, fragmentizer, bytes);
                proof {
                    if let EmailCoroutineState::Complete(Ok(uids)) = &step {
                        lemma_numbers(*uids);
                    }
                }
                match self.after_sort(sort, plan, step) {
                    Some(r) => r,
                    None => {
                        proof {
                            assert(hands_over(pre, f, fed(bytes), self@, *fragmentizer));
                        }
                        self.resume(fragmentizer, None)
                    },
                }
            },
            State::Fetching { mut fetch, order } => {
                match fetch_resume(&mut fetch, fragmentizer, bytes) {
                    EmailCoroutineState::Yielded(step) => {
                        self.state = State::Fetching { fetch, order };
                        EmailCoroutineState::Yielded(step)
                    },
                    EmailCoroutineState::Complete(Ok(rows)) => {
                        let rows = read_rows(&rows);
                        EmailCoroutineState::Complete(Ok(reorder_envelopes(&rows, &order)))
                    },
                    EmailCoroutineState::Complete(Err(err)) => EmailCoroutineState::Complete(
                        Err(ImapEnvelopeSearchError::Fetch(err)),
                    ),
                }
            },
            State::Done => EmailCoroutineState::Complete(
                Err(ImapEnvelopeSearchError::ResumedAfterDone),
            ),
        }
    }
}

/// A search gives no envelope but of the responses, and one at most for
/// each UID asked for.
pub proof fn law_reordered_within_order(rows: Seq<FetchRowView>, order: Seq<u32>)
    ensures
        reordered(rows, order).len() <= order.len(),
        (forall|i: int| 0 <= i < order.len() ==> last_row(rows, #[trigger] order[i]) is Some)
            ==> reordered(rows, order).len() == order.len() && forall|i: int|
            0 <= i < order.len() ==> #[trigger] reordered(rows, order)[i] == envelope_of(
                last_row(rows, order[i])->0.seq,
                last_row(rows, order[i])->0.items,
            ),
    decreases order.len(),
{
    if order.len() > 0 {
        law_reordered_within_order(rows, order.drop_last());
        if forall|i: int| 0 <= i < order.len() ==> last_row(rows, #[trigger] order[i]) is Some {
            let most = order.drop_last();
            assert forall|i: int| 0 <= i < most.len() implies last_row(rows, #[trigger] most[i]) is Some by {
                assert(most[i] == order[i]);
            }
            assert(order[order.len() - 1] == order.last());
            assert forall|i: int| 0 <= i < order.len() implies #[trigger] reordered(rows, order)[i]
                == envelope_of(
                last_row(rows, order[i])->0.seq,
                last_row(rows, order[i])->0.items,
            ) by {
                if i < order.len() - 1 {
                    assert(most[i] == order[i]);
                    assert(reordered(rows, most)[i] == reordered(rows, order)[i]);
                }
            }
        }
    }
}

/// The UID that a response is about is the first it gives, or else its
/// sequence number.
pub proof fn law_row_uid(row: FetchRowView, k: int)
    ensures
        0 <= k < row.items.len() && row.items[k] is Uid && (forall|j: int|
            0 <= j < k ==> !(#[trigger] row.items[j] is Uid)) ==> row_uid(row) == row.items[k]->Uid_0,
        (forall|j: int| 0 <= j < row.items.len() ==> !(#[trigger] row.items[j] is Uid)) ==> row_uid(row)
            == row.seq,
{
    if 0 <= k < row.items.len() && (forall|j: int| 0 <= j < k ==> !(#[trigger] row.items[j] is Uid)) {
        lemma_first_uid(row.items, k);
        let rest = row.items.subrange(k, row.items.len() as int);
        assert(rest[0] == row.items[k]);
    }
    if forall|j: int| 0 <= j < row.items.len() ==> !(#[trigger] row.items[j] is Uid) {
        lemma_first_uid(row.items, row.items.len() as int);
    }
}

/// The last response about a UID is one about it, and none behind it is.
pub proof fn law_last_row(rows: Seq<FetchRowView>, uid: u32)
    ensures
        match last_row(rows, uid) {
            Some(row) => exists|i: int|
                0 <= i < rows.len() && #[trigger] rows[i] == row && row_uid(row) == uid && forall|j: int|
                    i < j < rows.len() ==> row_uid(#[trigger] rows[j]) != uid,
            None => forall|i: int| 0 <= i < rows.len() ==> row_uid(#[trigger] rows[i]) != uid,
        },
    decreases rows.len(),
{
    if rows.len() > 0 {
        let most = rows.drop_last();
        let n = rows.len() - 1;
        assert(rows[n] == rows.last());
        if row_uid(rows.last()) != uid {
            law_last_row(most, uid);
            match last_row(most, uid) {
                Some(row) => {
                    let i = choose|i: int|
                        0 <= i < most.len() && #[trigger] most[i] == row && row_uid(row) == uid
                            && forall|j: int| i < j < most.len() ==> row_uid(#[trigger] most[j]) != uid;
                    assert(rows[i] == row);
                    assert forall|j: int| i < j < rows.len() implies row_uid(#[trigger] rows[j]) != uid by {
                        if j < n {
                            assert(most[j] == rows[j]);
                        }
                    }
                },
                None => {
                    assert forall|i: int| 0 <= i < rows.len() implies row_uid(#[trigger] rows[i]) != uid by {
                        if i < n {
                            assert(most[i] == rows[i]);
                        }
                    }
                },
            }
        }
    }
}

/// A search gives, for the UIDs in the order asked for, the envelope of the
/// last response about each; a UID without a response is left out, and
/// nothing else.
pub proof fn law_search_keeps_the_order(rows: Seq<FetchRowView>, order: Seq<u32>)
    ensures
        reordered(rows, order) == order.filter(
            |uid: u32| exists|i: int| 0 <= i < rows.len() && row_uid(#[trigger] rows[i]) == uid,
        ).map_values(
            |uid: u32| envelope_of(last_row(rows, uid)->0.seq, last_row(rows, uid)->0.items),
        ),
    decreases order.len(),
{
    reveal(Seq::filter);
    let keep = |uid: u32| exists|i: int| 0 <= i < rows.len() && row_uid(#[trigger] rows[i]) == uid;
    let read = |uid: u32| envelope_of(last_row(rows, uid)->0.seq, last_row(rows, uid)->0.items);
    if order.len() == 0 {
        assert(reordered(rows, order) =~= order.filter(keep).map_values(read));
    } else {
        law_search_keeps_the_order(rows, order.drop_last());
        law_last_row(rows, order.last());
        assert(keep(order.last()) <==> last_row(rows, order.last()) is Some);
        let before = order.drop_last().filter(keep);
        assert(before.push(order.last()).map_values(read) =~= before.map_values(read).push(
            read(order.last()),
        ));
    }
}

/// What is found is what the server sent for the page of the UIDs that it
/// found and sorted, in that order, once the mailbox has been opened.
pub proof fn law_found_is_the_servers(
    pre: State,
    fragmentizer: Fragmentizer,
    bytes: Option<Seq<u8>>,
    post: State,
    left: Fragmentizer,
    answer: SearchOutcome,
)
    requires
        resumed(pre, fragmentizer, bytes, post, left, answer),
    ensures
        answer is Done ==> post is Done && !(pre is Done),
        pre matches State::Fetching { fetch, order } ==> (answer matches SearchOutcome::Done(list) ==> (
        fetch_step(fetch, fragmentizer, bytes) matches Outcome::Done(rows) && list == reordered(
            row_views(rows),
            order@,
        ))),
        pre matches State::Sorting { sort, plan } ==> (answer matches SearchOutcome::Done(list) ==> (
        sort_step(sort, fragmentizer, bytes) matches Outcome::Done(uids) && (page_of(
            uids,
            plan.page,
            plan.page_size,
        ).len() == 0 ==> list.len() == 0) && (page_of(uids, plan.page, plan.page_size).len() > 0
            ==> exists|fetch: ImapMessageFetch|
            #[trigger] fetch_request(fetch) == Some(
                (FetchRequest {
                    set: text_items(
                        joined(decimals(page_of(uids, plan.page, plan.page_size)), seq![',']),
                    ),
                    items: plan.item_names@,
                    uid: true,
                }),
            ) && (fetch_step(fetch, sort_left(sort, fragmentizer, bytes).1, None) matches Outcome::Done(
                rows,
            ) && list == reordered(row_views(rows), page_of(uids, plan.page, plan.page_size)))))),
        pre matches State::Opening { open, .. } ==> (answer matches SearchOutcome::Done(list) ==> (
        open.step(fragmentizer, bytes) matches Outcome::Done(exists) && ((exists is None || exists
            == Some(0u32)) ==> list.len() == 0))),
    decreases pre.rank(),
{
    if !pre.stage(fragmentizer, bytes, post, left, Some(answer)) {
        let (mid, between) = choose|mid: State, between: Fragmentizer|
            #[trigger] hands_over(pre, fragmentizer, bytes, mid, between) && resumed(
                mid,
                between,
                None,
                post,
                left,
                answer,
            );
        law_found_is_the_servers(mid, between, None, post, left, answer);
    }
}

/// What an exchange fails with is told and ends the run, what the last one
/// waits for is passed on as it is; a run that is over stays over.
pub proof fn law_failures_are_told(
    pre: State,
    fragmentizer: Fragmentizer,
    bytes: Option<Seq<u8>>,
    post: State,
    left: Fragmentizer,
    answer: SearchOutcome,
)
    requires
        resumed(pre, fragmentizer, bytes, post, left, answer),
    ensures
        pre matches State::Opening { open, .. } ==> {
            &&& open.step(fragmentizer, bytes) is Read ==> answer is Read
            &&& open.step(fragmentizer, bytes) matches Outcome::Write(out) ==> answer
                == SearchOutcome::Write(out)
            &&& open.step(fragmentizer, bytes) matches Outcome::Failed(err) ==> post is Done && answer
                == SearchOutcome::Failed(err)
        },
        pre matches State::Sorting { sort, .. } ==> (sort_step(
            sort,
            fragmentizer,
            bytes,
        ) matches Outcome::Failed(err) ==> post is Done && answer == SearchOutcome::Failed(
            ImapEnvelopeSearchError::Sort(err),
        )),
        pre matches State::Fetching { fetch, .. } ==> {
            &&& fetch_step(fetch, fragmentizer, bytes) is Read ==> answer is Read
            &&& fetch_step(fetch, fragmentizer, bytes) matches Outcome::Write(out) ==> answer
                == SearchOutcome::Write(out)
            &&& fetch_step(fetch, fragmentizer, bytes) matches Outcome::Failed(err) ==> post is Done
                && answer == SearchOutcome::Failed(ImapEnvelopeSearchError::Fetch(err))
        },
        pre is Done ==> post is Done && answer == SearchOutcome::Failed(
            ImapEnvelopeSearchError::ResumedAfterDone,
        ),
{
    if !pre.stage(fragmentizer, bytes, post, left, Some(answer)) {
        let (mid, between) = choose|mid: State, between: Fragmentizer|
            #[trigger] hands_over(pre, fragmentizer, bytes, mid, between) && resumed(
                mid,
                between,
                None,
                post,
                left,
                answer,
            );
        assert(pre.stage(fragmentizer, bytes, mid, between, None));
    }
}

} // verus!
