//! IMAP list-envelopes coroutine.
//!
//! Composes `SELECT <mailbox>` with a windowed `FETCH <window> (UID FLAGS
//! ENVELOPE RFC822.SIZE [BODYSTRUCTURE])` (RFC 3501 section 6.4.5). Page 1
//! is the most recent window (highest sequence numbers).
use vstd::prelude::*;

use io_imap::codec::fragmentizer::Fragmentizer;
use io_imap::rfc3501::fetch::{ImapMessageFetch, ImapMessageFetchError};
use io_imap::rfc3501::select::{ImapMailboxSelect, ImapMailboxSelectError};

use crate::coroutine::{
    fed, hands_over, resumed, EmailBackend, EmailCoroutine, EmailCoroutineArg, EmailCoroutineState,
    ImapStep, Outcome, Stages,
};
use crate::envelope::{Envelope, EnvelopeView};
use crate::imap::convert::{
    lemma_list_is_set, lemma_range_is_set, parse_mailbox, range_text, transmissible, uids_ok,
    InvalidMailboxName,
};
use crate::imap::fetch::{envelope_from, envelope_of, read_rows, row_views, FetchRow, FetchRowView};
use crate::imap::wire::{
    fetch_left, fetch_new, fetch_request, fetch_resume, fetch_step, select_left, select_new,
    select_request, select_resume, select_step, sequence_set, text_item, text_items, FetchItemName,
    FetchRequest, SetBound, SetItem,
};
use crate::page::page_number;
use crate::text::{
    decimal, decimal_of, decimals, joined, law_decimal_reads_back, lemma_decimal, lemma_split_first,
};

verus! {

/// Errors produced by [`ImapEnvelopeList`].
#[derive(Debug)]
pub enum ImapEnvelopeListError {
    Select(ImapMailboxSelectError),
    Fetch(ImapMessageFetchError),
    InvalidMailbox(String),
    InvalidWindow(String),
    InvalidArg,
    ResumedAfterDone,
}

/// The items that an envelope is read from; the structure only where
/// attachments are to be told.
pub open spec fn item_names(with_attachment: bool) -> Seq<FetchItemName> {
    let names = seq![
        FetchItemName::Uid,
        FetchItemName::Flags,
        FetchItemName::Envelope,
        FetchItemName::Rfc822Size,
    ];
    if with_attachment {
        names.push(FetchItemName::BodyStructure)
    } else {
        names
    }
}

/// Builds the FETCH item-name list.
pub fn build_item_names(with_attachment: bool) -> (r: Vec<FetchItemName>)
    ensures
        r@ == item_names(with_attachment),
{
    let mut names: Vec<FetchItemName> = Vec::new();
    names.push(FetchItemName::Uid);
    names.push(FetchItemName::Flags);
    names.push(FetchItemName::Envelope);
    names.push(FetchItemName::Rfc822Size);
    if with_attachment {
        names.push(FetchItemName::BodyStructure);
    }
    names
}

/// The first and the last sequence number on a page, the newest messages
/// first; no last one stands for all that follow. `None` for a page that
/// holds nothing.
pub open spec fn window(exists: u32, page: Option<u32>, page_size: Option<u32>) -> Option<
    (nat, Option<nat>),
> {
    match page_size {
        _ if exists == 0 => None,
        None => Some((1, None)),
        Some(size) => {
            let end = exists - (page_number(page) - 1) * size;
            if size == 0 || end <= 0 {
                None
            } else if end < size {
                Some((1, Some(end as nat)))
            } else {
                Some(((end - size + 1) as nat, Some(end as nat)))
            }
        },
    }
}

/// The window of a page as a sequence set.
pub open spec fn window_text(exists: u32, page: Option<u32>, page_size: Option<u32>) -> Option<
    Seq<char>,
> {
    match window(exists, page, page_size) {
        Some((start, end)) => Some(range_text(start, end)),
        None => None,
    }
}

/// Computes the IMAP sequence set for `(page, page_size)` against `exists`.
/// `None` means an empty window.
pub fn compute_window(exists: u32, page: Option<u32>, page_size: Option<u32>) -> (r: Option<String>)
    ensures
        r.deep_view() == window_text(exists, page, page_size),
{
    if exists == 0 {
        return None;
    }
    let page: u32 = match page {
        Some(n) if n > 0 => n,
        _ => 1,
    };
    let mut text = String::new();
    let size: u32 = match page_size {
        Some(size) => size,
        None => {
            text.append("1:*");
            proof {
                reveal_strlit("1:*");
                assert(text@ =~= range_text(1, None));
            }
            return Some(text);
        },
    };
    if size == 0 {
        return None;
    }
    proof {
        assert((page - 1) * size <= 0xffff_ffff * 0xffff_ffff) by (nonlinear_arith)
            requires
                0 <= page - 1 <= 0xffff_ffff,
                0 <= size <= 0xffff_ffff,
        ;
    }
    let skip: u64 = (page as u64 - 1) * (size as u64);
    if skip >= exists as u64 {
        return None;
    }
    let end: u32 = exists - skip as u32;
    let start: u32 = if end < size {
        1
    } else {
        end - (size - 1)
    };
    text.append(&decimal_of(start as u64));
    text.push(':');
    text.append(&decimal_of(end as u64));
    proof {
        assert(text@ =~= range_text(start as nat, Some(end as nat)));
    }
    Some(text)
}

/// Envelopes of FETCH responses, the last one first.
pub open spec fn listed(rows: Seq<FetchRowView>) -> Seq<EnvelopeView> {
    Seq::new(
        rows.len(),
        |i: int| envelope_of(rows[rows.len() - 1 - i].seq, rows[rows.len() - 1 - i].items),
    )
}

/// Folds FETCH responses, given in the order of their sequence numbers,
/// into envelopes with the freshest first.
pub fn list_rows(rows: &Vec<FetchRow>) -> (r: Vec<Envelope>)
    ensures
        r.deep_view() == listed(rows.deep_view()),
{
    let mut out: Vec<Envelope> = Vec::new();
    let n: usize = rows.len();
    let mut i: usize = 0;
    while i < n
        invariant
            i <= n,
            n == rows@.len(),
            out@.len() == i,
            forall|j: int|
                0 <= j < i ==> (#[trigger] out@[j]).deep_view() == listed(rows.deep_view())[j],
        decreases n - i,
    {
        let row = &rows[n - 1 - i];
        proof {
            assert(rows.deep_view()[n - 1 - i] == row.deep_view());
        }
        out.push(envelope_from(row.seq, &row.items));
        i = i + 1;
    }
    proof {
        assert(out.deep_view() =~= listed(rows.deep_view()));
    }
    out
}

/// Where a listing stands.
pub enum State {
    Selecting {
        select: ImapMailboxSelect,
        page: Option<u32>,
        page_size: Option<u32>,
        item_names: Vec<FetchItemName>,
    },
    Fetching { fetch: ImapMessageFetch },
    Done,
}

/// What a resume returns.
pub type Step = EmailCoroutineState<ImapStep, Result<Vec<Envelope>, ImapEnvelopeListError>>;

/// I/O-free coroutine listing envelopes from a mailbox.
pub struct ImapEnvelopeList {
    state: State,
}

impl View for ImapEnvelopeList {
    type V = State;

    closed spec fn view(&self) -> State {
        self.state
    }
}

impl State {
    /// Whether the exchange under way is not over.
    pub open spec fn live(self) -> bool {
        match self {
            State::Selecting { select, .. } => select_request(select) is Some,
            State::Fetching { fetch } => fetch_request(fetch) is Some,
            State::Done => true,
        }
    }

    /// Where a step leaves the exchange under way, and the parser with it.
    pub open spec fn stepped(self, fragmentizer: Fragmentizer, bytes: Option<Seq<u8>>) -> (
        State,
        Fragmentizer,
    ) {
        match self {
            State::Selecting { select, page, page_size, item_names } => {
                let (select, parsed) = select_left(select, fragmentizer, bytes);
                (State::Selecting { select, page, page_size, item_names }, parsed)
            },
            State::Fetching { fetch } => {
                let (fetch, parsed) = fetch_left(fetch, fragmentizer, bytes);
                (State::Fetching { fetch }, parsed)
            },
            State::Done => (self, fragmentizer),
        }
    }
}

pub type ListOutcome = Outcome<Seq<EnvelopeView>, ImapEnvelopeListError>;

impl Stages for State {
    type Context = Fragmentizer;

    type Answer = ListOutcome;

    open spec fn rank(self) -> nat {
        match self {
            State::Selecting { .. } => 2,
            State::Fetching { .. } => 1,
            State::Done => 0,
        }
    }

    open spec fn stage(
        self,
        fragmentizer: Fragmentizer,
        bytes: Option<Seq<u8>>,
        post: State,
        left: Fragmentizer,
        answer: Option<ListOutcome>,
    ) -> bool {
        let (kept, parsed) = self.stepped(fragmentizer, bytes);
        &&& left == parsed
        &&& match self {
            State::Selecting { select, page, page_size, item_names } => match select_step(
                select,
                fragmentizer,
                bytes,
            ) {
                Outcome::Done(exists) => match window_text(
                    match exists {
                        Some(n) => n,
                        None => 0,
                    },
                    page,
                    page_size,
                ) {
                    Some(text) => {
                        &&& answer is None
                        &&& post matches State::Fetching { fetch }
                        &&& fetch_request(fetch) == Some(
                            FetchRequest {
                                set: text_items(text),
                                items: item_names@,
                                uid: false,
                            },
                        )
                    },
                    None => post is Done && answer == Some(ListOutcome::Done(seq![])),
                },
                Outcome::Failed(err) => post is Done && answer == Some(
                    ListOutcome::Failed(ImapEnvelopeListError::Select(err)),
                ),
                wait => post == kept && answer is Some && answer->0.forwards(wait),
            },
            State::Fetching { fetch } => match fetch_step(fetch, fragmentizer, bytes) {
                Outcome::Done(rows) => post is Done && answer == Some(
                    ListOutcome::Done(listed(row_views(rows))),
                ),
                Outcome::Failed(err) => post is Done && answer == Some(
                    ListOutcome::Failed(ImapEnvelopeListError::Fetch(err)),
                ),
                wait => post == kept && answer is Some && answer->0.forwards(wait),
            },
            State::Done => post is Done && answer == Some(
                ListOutcome::Failed(ImapEnvelopeListError::ResumedAfterDone),
            ),
        }
    }
}

impl ImapEnvelopeList {
    #[verifier::type_invariant]
    closed spec fn inv(self) -> bool {
        self.state.live()
    }

    /// `page_size = None` fetches the whole mailbox; `page = None` is
    /// treated as page 1. `with_attachment = true` additionally fetches
    /// `BODYSTRUCTURE` to populate [`Envelope::has_attachment`].
    pub fn new(
        mailbox: &str,
        page: Option<u32>,
        page_size: Option<u32>,
        with_attachment: bool,
    ) -> (r: Result<ImapEnvelopeList, ImapEnvelopeListError>)
        ensures
            match r {
                Ok(list) => {
                    &&& transmissible(mailbox@)
                    &&& list@ matches State::Selecting { select, page: p, page_size: s, item_names: n }
                    &&& select_request(select) == Some(mailbox@)
                    &&& p == page
                    &&& s == page_size
                    &&& n@ == item_names(with_attachment)
                },
                Err(ImapEnvelopeListError::InvalidMailbox(name)) => !transmissible(mailbox@) && name@
                    == mailbox@,
                Err(_) => false,
            },
    {
        match parse_mailbox(mailbox) {
            Ok(mailbox) => {
                let select = select_new(&mailbox);
                let item_names = build_item_names(with_attachment);
                Ok(ImapEnvelopeList { state: State::Selecting { select, page, page_size, item_names } })
            },
            Err(InvalidMailboxName(name)) => Err(ImapEnvelopeListError::InvalidMailbox(name)),
        }
    }

    /// Advances the listing: with no bytes at first and after a write, with
    /// what was read after a read.
    pub fn resume(&mut self, fragmentizer: &mut Fragmentizer, bytes: Option<&[u8]>) -> (r: Step)
        ensures
            resumed(old(self)@, *old(fragmentizer), fed(bytes), final(self)@, *final(fragmentizer), r.outcome()),
        decreases old(self)@.rank(),
    {
        proof {
            use_type_invariant(&*self);
        }
        let ghost pre = self@;
        let ghost f = *fragmentizer;
        let mut state = State::Done;
        core::mem::swap(&mut self.state, &mut state);
        match state {
            State::Selecting { mut select, page, page_size, item_names } => {
                match select_resume(&mut select, fragmentizer, bytes) {
                    EmailCoroutineState::Yielded(step) => {
                        self.state = State::Selecting { select, page, page_size, item_names };
                        EmailCoroutineState::Yielded(step)
                    },
                    EmailCoroutineState::Complete(Ok(exists)) => {
                        let exists: u32 = match exists {
                            Some(n) => n,
                            None => 0,
                        };
                        let window = match compute_window(exists, page, page_size) {
                            Some(window) => window,
                            None => {
                                let none: Vec<Envelope> = Vec::new();
                                proof {
                                    assert(none.deep_view() =~= seq![]);
                                }
                                return EmailCoroutineState::Complete(Ok(none));
                            },
                        };
                        proof {
                            law_window_is_sequence_set(exists, page, page_size);
                        }
                        match sequence_set(&window) {
                            Some(set) => {
                                let fetch = fetch_new(set, &item_names, false);
                                self.state = State::Fetching { fetch };
                                let ghost mid = self@;
                                let ghost parsed = *fragmentizer;
                                proof {
                                    assert(hands_over(pre, f, fed(bytes), mid, parsed));
                                }
                                self.resume(fragmentizer, None)
                            },
                            None => EmailCoroutineState::Complete(
                                Err(ImapEnvelopeListError::InvalidWindow(window)),
                            ),
                        }
                    },
                    EmailCoroutineState::Complete(Err(err)) => EmailCoroutineState::Complete(
                        Err(ImapEnvelopeListError::Select(err)),
                    ),
                }
            },
            State::Fetching { mut fetch } => match fetch_resume(&mut fetch, fragmentizer, bytes) {
                EmailCoroutineState::Yielded(step) => {
                    self.state = State::Fetching { fetch };
                    EmailCoroutineState::Yielded(step)
                },
                EmailCoroutineState::Complete(Ok(rows)) => {
                    let rows = read_rows(&rows);
                    EmailCoroutineState::Complete(Ok(list_rows(&rows)))
                },
                EmailCoroutineState::Complete(Err(err)) => EmailCoroutineState::Complete(
                    Err(ImapEnvelopeListError::Fetch(err)),
                ),
            },
            State::Done => EmailCoroutineState::Complete(
                Err(ImapEnvelopeListError::ResumedAfterDone),
            ),
        }
    }
}

/// A computed window is always a valid sequence set.
pub proof fn law_window_is_sequence_set(exists: u32, page: Option<u32>, page_size: Option<u32>)
    ensures
        window_text(exists, page, page_size) matches Some(text)
            ==> crate::imap::convert::sequence_set_text(text),
{
    if let Some((start, end)) = window(exists, page, page_size) {
        if let Some(size) = page_size {
            let n = page_number(page) - 1;
            assert(n * size >= 0) by (nonlinear_arith)
                requires
                    n >= 0,
                    size >= 0,
            ;
        }
        lemma_range_is_set(start, end);
    }
}

/// Whether a message stands on a page.
pub open spec fn on_page(n: int, exists: u32, page: u32, size: u32) -> bool {
    window(exists, Some(page), Some(size)) matches Some((start, end)) && start <= n && (end matches Some(
        end,
    ) ==> n <= end)
}

/// Every message of a mailbox stands on exactly one page, and pages hold no
/// other numbers.
pub proof fn law_pages_partition(n: int, exists: u32, page: u32, size: u32)
    requires
        page >= 1,
        size >= 1,
    ensures
        on_page(n, exists, page, size) <==> 1 <= n <= exists && page == (exists - n) / (size as int) + 1,
{
    let p = page - 1;
    let s = size as int;
    let end = exists - p * s;
    let d = exists - n;
    if on_page(n, exists, page, size) {
        assert(p * s >= 0) by (nonlinear_arith)
            requires
                p >= 0,
                s >= 1,
        ;
        assert(p * s <= d < (p + 1) * s) by (nonlinear_arith)
            requires
                end == exists - p * s,
                d == exists - n,
                n <= end,
                n > end - s,
        ;
        assert(d / s == p) by (nonlinear_arith)
            requires
                p * s <= d < (p + 1) * s,
                s >= 1,
        ;
    }
    if 1 <= n <= exists && page == d / s + 1 {
        assert(p * s <= d < (p + 1) * s) by (nonlinear_arith)
            requires
                p == d / s,
                s >= 1,
                d >= 0,
        ;
        assert(n <= end && n > end - s) by (nonlinear_arith)
            requires
                p * s <= d < (p + 1) * s,
                end == exists - p * s,
                d == exists - n,
        ;
    }
}

impl EmailCoroutine for ImapEnvelopeList {
    type Yield = ImapStep;

    type Return = Result<Vec<Envelope>, ImapEnvelopeListError>;

    const BACKEND: EmailBackend = EmailBackend::Imap;

    open spec fn ready(self) -> bool {
        true
    }

    open spec fn advances(
        pre: ImapEnvelopeList,
        arg: EmailCoroutineArg<'_>,
        post: ImapEnvelopeList,
        left: Option<Fragmentizer>,
        r: Step,
    ) -> bool {
        match arg {
            EmailCoroutineArg::Imap { fragmentizer, bytes } => {
                &&& left matches Some(left)
                &&& resumed(pre@, *fragmentizer, fed(bytes), post@, left, r.outcome())
            },
            _ => post == pre && r == Step::Complete(Err(ImapEnvelopeListError::InvalidArg)),
        }
    }

    fn resume(&mut self, arg: EmailCoroutineArg<'_>) -> (r: Step) {
        match arg {
            EmailCoroutineArg::Imap { fragmentizer, bytes } => ImapEnvelopeList::resume(self, fragmentizer, bytes),
            _ => EmailCoroutineState::Complete(Err(ImapEnvelopeListError::InvalidArg)),
        }
    }
}

/// The range from one number to another is read as just that.
pub proof fn lemma_range_items(start: nat, end: Option<nat>)
    requires
        0 < start <= u32::MAX,
        end matches Some(end) ==> 0 < end <= u32::MAX,
    ensures
        text_items(range_text(start, end)) == seq![
            SetItem::Range(
                SetBound::Number(start as u32),
                match end {
                    Some(end) => SetBound::Number(end as u32),
                    None => SetBound::Last,
                },
            ),
        ],
{
    lemma_range_is_set(start, end);
    law_decimal_reads_back(start as u32);
    match end {
        Some(end) => {
            law_decimal_reads_back(end as u32);
        },
        None => {
            assert(seq!['*'][0] == '*');
        },
    }
    assert(text_items(range_text(start, end)) =~= seq![text_item(range_text(start, end))]);
}

/// The messages that a sequence set names, where the mailbox holds `exists`.
pub open spec fn names(item: SetItem, n: int, exists: u32) -> bool {
    let bound = |b: SetBound|
        match b {
            SetBound::Number(k) => k as int,
            SetBound::Last => exists as int,
        };
    match item {
        SetItem::Single(b) => n == bound(b),
        SetItem::Range(a, b) => bound(a) <= n <= bound(b),
    }
}

/// What is fetched for a page are just the messages of that page: counted
/// from the newest, those behind the pages before and no more than the size
/// of one. Without a page size it is the whole mailbox.
pub proof fn law_window_names_the_page(exists: u32, page: Option<u32>, page_size: Option<u32>, n: int)
    requires
        1 <= n <= exists,
    ensures
        page_size is None ==> (window_text(exists, page, page_size) matches Some(text) && text_items(text).len()
            == 1 && names(text_items(text)[0], n, exists)),
        page_size matches Some(size) ==> {
            let newer = exists - n;
            let before = (if page is None || page == Some(0u32) {
                0
            } else {
                page->0 - 1
            }) * size;
            let on_it = before <= newer < before + size;
            match window_text(exists, page, page_size) {
                Some(text) => text_items(text).len() == 1 && (names(text_items(text)[0], n, exists)
                    <==> on_it),
                None => !on_it,
            }
        },
{
    if let Some(size) = page_size {
        let p = page_number(page) - 1;
        assert(p * size >= 0) by (nonlinear_arith)
            requires
                p >= 0,
                size >= 0,
        ;
    }
    if let Some((start, end)) = window(exists, page, page_size) {
        lemma_range_items(start, end);
    }
}

/// A listing gives one envelope for each response, that of the last response
/// first; so what has the greater sequence number comes first.
pub proof fn law_listed_newest_first(rows: Seq<FetchRowView>, i: int)
    requires
        0 <= i < rows.len(),
    ensures
        listed(rows).len() == rows.len(),
        listed(rows)[rows.len() - 1 - i] == envelope_of(rows[i].seq, rows[i].items),
{
}

/// Every listing asks for what an envelope is made of, and for the structure
/// exactly where attachments are to be told.
pub proof fn law_items_asked_for(with_attachment: bool)
    ensures
        item_names(with_attachment).contains(FetchItemName::Uid),
        item_names(with_attachment).contains(FetchItemName::Flags),
        item_names(with_attachment).contains(FetchItemName::Envelope),
        item_names(with_attachment).contains(FetchItemName::Rfc822Size),
        item_names(with_attachment).contains(FetchItemName::BodyStructure) <==> with_attachment,
        !item_names(with_attachment).contains(FetchItemName::BodyPeek),
        item_names(with_attachment).no_duplicates(),
{
    let names = item_names(with_attachment);
    assert(names[0] == FetchItemName::Uid && names[1] == FetchItemName::Flags && names[2]
        == FetchItemName::Envelope && names[3] == FetchItemName::Rfc822Size);
    if with_attachment {
        assert(names[4] == FetchItemName::BodyStructure);
    }
}

/// What is listed is what the server sent for the window of the page, by
/// sequence number, once the mailbox has been opened.
pub proof fn law_list_is_the_servers(
    pre: State,
    fragmentizer: Fragmentizer,
    bytes: Option<Seq<u8>>,
    post: State,
    left: Fragmentizer,
    answer: ListOutcome,
)
    requires
        resumed(pre, fragmentizer, bytes, post, left, answer),
    ensures
        answer is Done ==> post is Done && !(pre is Done),
        pre matches State::Fetching { fetch } ==> (answer matches ListOutcome::Done(list) ==> (fetch_step(
            fetch,
            fragmentizer,
            bytes,
        ) matches Outcome::Done(rows) && list == listed(row_views(rows)))),
        pre matches State::Selecting { select, page, page_size, item_names } ==> (
        answer matches ListOutcome::Done(list) ==> select_step(select, fragmentizer, bytes) is Done && (
        list.len() > 0 ==> (select_step(select, fragmentizer, bytes) matches Outcome::Done(Some(exists))
            && window_text(exists, page, page_size) matches Some(text) && exists|fetch: ImapMessageFetch|
            #[trigger] fetch_request(fetch) == Some(
                (FetchRequest { set: text_items(text), items: item_names@, uid: false }),
            ) && (fetch_step(fetch, select_left(select, fragmentizer, bytes).1, None) matches Outcome::Done(
                rows,
            ) && list == listed(row_views(rows)))))),
    decreases pre.rank(),
{
    if !pre.stage(fragmentizer, bytes, post, left, Some(answer)) {
        let (mid, between) = choose|mid: State, between: Fragmentizer|
            #[trigger] hands_over(pre, fragmentizer, bytes, mid, between) && resumed(
                mid,
                between,
                None,
                post,
                left,
                answer,
            );
        law_list_is_the_servers(mid, between, None, post, left, answer);
    }
}

/// UIDs written down one after the other are read as just those, in their
/// order.
pub proof fn law_uids_are_written_down(uids: Seq<u32>)
    requires
        uids_ok(uids),
    ensures
        text_items(joined(decimals(uids), seq![','])) == uids.map_values(
            |uid: u32| SetItem::Single(SetBound::Number(uid)),
        ),
{
    lemma_list_is_set(uids);
    let parts = decimals(uids);
    let items = text_items(joined(parts, seq![',']));
    assert forall|i: int| 0 <= i < uids.len() implies #[trigger] items[i] == SetItem::Single(
        SetBound::Number(uids[i]),
    ) by {
        law_decimal_reads_back(uids[i]);
        lemma_decimal(uids[i] as nat);
        assert(parts[i] == decimal(uids[i] as nat));
        assert(!parts[i].contains(':')) by {
            if parts[i].contains(':') {
                let k = parts[i].index_of(':');
                assert('0' <= parts[i][k] && parts[i][k] <= '9');
            }
        }
        lemma_split_first(parts[i], Seq::empty(), ':');
    }
    assert(items =~= uids.map_values(|uid: u32| SetItem::Single(SetBound::Number(uid))));
}

/// What an exchange waits for is passed on as it is, and what it fails with is
/// told and ends the run; a run that is over stays over.
pub proof fn law_waits_and_failures_are_told(
    pre: State,
    fragmentizer: Fragmentizer,
    bytes: Option<Seq<u8>>,
    post: State,
    left: Fragmentizer,
    answer: ListOutcome,
)
    requires
        resumed(pre, fragmentizer, bytes, post, left, answer),
    ensures
        pre matches State::Selecting { select, .. } ==> {
            &&& select_step(select, fragmentizer, bytes) is Read ==> answer is Read
            &&& select_step(select, fragmentizer, bytes) matches Outcome::Write(out) ==> answer == ListOutcome::Write(out)
            &&& select_step(select, fragmentizer, bytes) matches Outcome::Failed(err) ==> post is Done && answer == ListOutcome::Failed(
                ImapEnvelopeListError::Select(err),
            )
        },
        pre matches State::Fetching { fetch } ==> {
            &&& fetch_step(fetch, fragmentizer, bytes) is Read ==> answer is Read
            &&& fetch_step(fetch, fragmentizer, bytes) matches Outcome::Write(out) ==> answer == ListOutcome::Write(out)
            &&& fetch_step(fetch, fragmentizer, bytes) matches Outcome::Failed(err) ==> post is Done && answer == ListOutcome::Failed(
                ImapEnvelopeListError::Fetch(err),
            )
        },
        pre is Done ==> post is Done && answer == ListOutcome::Failed(ImapEnvelopeListError::ResumedAfterDone),
{
    if !pre.stage(fragmentizer, bytes, post, left, Some(answer)) {
        let (mid, between) = choose|mid: State, between: Fragmentizer|
            #[trigger] hands_over(pre, fragmentizer, bytes, mid, between) && resumed(
                mid,
                between,
                None,
                post,
                left,
                answer,
            );
        assert(pre.stage(fragmentizer, bytes, mid, between, None));
    }
}

} // verus!
