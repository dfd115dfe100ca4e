//! IMAP message-get coroutine: optional SELECT, then `UID FETCH <uid>
//! (BODY.PEEK[])` (RFC 3501 section 6.4.5).
use vstd::prelude::*;

use io_imap::codec::fragmentizer::Fragmentizer;
use io_imap::rfc3501::fetch::{ImapMessageFetch, ImapMessageFetchError};
use io_imap::rfc3501::select::{ImapMailboxSelect, ImapMailboxSelectError};

use crate::coroutine::{
    fed, hands_over, resumed, EmailCoroutineState, ImapStep, Outcome, RawMessage, Stages,
};
use crate::imap::convert::{
    parse_mailbox, parse_uids, transmissible, uid_of, InvalidMailboxName, InvalidUidSet,
};
use crate::imap::fetch::{read_rows, row_views, FetchItem, FetchItemView, FetchRow, FetchRowView};
use crate::imap::wire::{
    fetch_left, fetch_new, fetch_request, fetch_resume, fetch_step, select_left, select_new,
    select_request, select_resume, select_step, uid_items, uid_sequence_set, FetchItemName,
    FetchRequest,
};

verus! {

/// Errors produced by [`ImapMessageGet`].
#[derive(Debug)]
pub enum ImapMessageGetError {
    Select(ImapMailboxSelectError),
    Fetch(ImapMessageFetchError),
    InvalidMailbox(String),
    InvalidUid(String),
    EmptyUidSet,
    EmptyBody,
    ResumedAfterDone,
}

/// The first body among FETCH items that is not NIL.
pub open spec fn body_of(items: Seq<FetchItemView>) -> Option<Seq<u8>>
    decreases items.len(),
{
    if items.len() == 0 {
        None
    } else {
        match items[0] {
            FetchItemView::Body(Some(data)) => Some(data),
            _ => body_of(items.drop_first()),
        }
    }
}

/// The first body among FETCH responses.
pub open spec fn first_body(rows: Seq<FetchRowView>) -> Option<Seq<u8>>
    decreases rows.len(),
{
    if rows.len() == 0 {
        None
    } else {
        match body_of(rows[0].items) {
            Some(data) => Some(data),
            None => first_body(rows.drop_first()),
        }
    }
}

fn item_body(items: &Vec<FetchItem>, from: usize) -> (r: Option<Vec<u8>>)
    requires
        from <= items@.len(),
    ensures
        crate::text::optional_bytes(r) == body_of(
            items.deep_view().subrange(from as int, items@.len() as int),
        ),
    decreases items@.len() - from,
{
    let ghost rest = items.deep_view().subrange(from as int, items@.len() as int);
    if from == items.len() {
        return None;
    }
    proof {
        assert(rest[0] == items@[from as int].deep_view());
        assert(rest.drop_first() =~= items.deep_view().subrange(from + 1, items@.len() as int));
    }
    if let FetchItem::Body(Some(data)) = &items[from] {
        let mut out: Vec<u8> = Vec::new();
        out.extend_from_slice(data);
        proof {
            assert(out@ =~= data@);
        }
        return Some(out);
    }
    item_body(items, from + 1)
}

/// Picks the first body among FETCH responses.
pub fn take_body(rows: &Vec<FetchRow>) -> (r: Option<Vec<u8>>)
    ensures
        crate::text::optional_bytes(r) == first_body(rows.deep_view()),
{
    let ghost all = rows.deep_view();
    proof {
        assert(all.subrange(0, all.len() as int) =~= all);
    }
    let mut i: usize = 0;
    while i < rows.len()
        invariant
            i <= rows@.len(),
            all == rows.deep_view(),
            first_body(all) == first_body(all.subrange(i as int, all.len() as int)),
        decreases rows@.len() - i,
    {
        proof {
            let rest = all.subrange(i as int, all.len() as int);
            assert(rest[0] == rows@[i as int].deep_view());
            assert(rest.drop_first() =~= all.subrange(i + 1, all.len() as int));
            let items = rows@[i as int].items.deep_view();
            assert(items.subrange(0, items.len() as int) =~= items);
        }
        let body = item_body(&rows[i].items, 0);
        if body.is_some() {
            return body;
        }
        i = i + 1;
    }
    None
}

/// I/O-free coroutine fetching one message's raw RFC 5322 bytes.
pub struct ImapMessageGet {
    state: State,
}

/// Where a message get stands.
pub enum State {
    Selecting { select: ImapMailboxSelect, fetch: ImapMessageFetch },
    Fetching { fetch: ImapMessageFetch },
    Done,
}

impl State {
    /// Whether the exchanges under way and to come are not over.
    pub open spec fn live(self) -> bool {
        match self {
            State::Selecting { select, fetch } => select_request(select) is Some && fetch_request(
                fetch,
            ) is Some,
            State::Fetching { fetch } => fetch_request(fetch) is Some,
            State::Done => true,
        }
    }

    /// Where a step leaves the exchange under way, and the parser with it.
    pub open spec fn stepped(self, fragmentizer: Fragmentizer, bytes: Option<Seq<u8>>) -> (
        State,
        Fragmentizer,
    ) {
        match self {
            State::Selecting { select, fetch } => {
                let (select, parsed) = select_left(select, fragmentizer, bytes);
                (State::Selecting { select, fetch }, parsed)
            },
            State::Fetching { fetch } => {
                let (fetch, parsed) = fetch_left(fetch, fragmentizer, bytes);
                (State::Fetching { fetch }, parsed)
            },
            State::Done => (self, fragmentizer),
        }
    }
}

pub type Answer = Outcome<Seq<u8>, ImapMessageGetError>;

/// What a resume returns.
pub type Step = EmailCoroutineState<ImapStep, Result<RawMessage, ImapMessageGetError>>;

impl Stages for State {
    type Context = Fragmentizer;

    type Answer = Answer;

    open spec fn rank(self) -> nat {
        match self {
            State::Selecting { .. } => 2,
            State::Fetching { .. } => 1,
            State::Done => 0,
        }
    }

    open spec fn stage(
        self,
        fragmentizer: Fragmentizer,
        bytes: Option<Seq<u8>>,
        post: State,
        left: Fragmentizer,
        answer: Option<Answer>,
    ) -> bool {
        let (kept, parsed) = self.stepped(fragmentizer, bytes);
        &&& left == parsed
        &&& match self {
            State::Selecting { select, fetch } => match select_step(select, fragmentizer, bytes) {
                Outcome::Done(_) => post == (State::Fetching { fetch }) && answer is None,
                Outcome::Failed(err) => post is Done && answer == Some(
                    Answer::Failed(ImapMessageGetError::Select(err)),
                ),
                wait => post == kept && answer is Some && answer->0.forwards(wait),
            },
            State::Fetching { fetch } => match fetch_step(fetch, fragmentizer, bytes) {
                Outcome::Done(rows) => post is Done && answer == Some(
                    match first_body(row_views(rows)) {
                        Some(body) => Answer::Done(body),
                        None => Answer::Failed(ImapMessageGetError::EmptyBody),
                    },
                ),
                Outcome::Failed(err) => post is Done && answer == Some(
                    Answer::Failed(ImapMessageGetError::Fetch(err)),
                ),
                wait => post == kept && answer is Some && answer->0.forwards(wait),
            },
            State::Done => post is Done && answer == Some(
                Answer::Failed(ImapMessageGetError::ResumedAfterDone),
            ),
        }
    }
}

impl View for ImapMessageGet {
    type V = State;

    closed spec fn view(&self) -> State {
        self.state
    }
}

impl ImapMessageGet {
    #[verifier::type_invariant]
    closed spec fn inv(self) -> bool {
        self.state.live()
    }

    pub fn new(mailbox: &str, id: &str, auto_select: bool) -> (r: Result<
        ImapMessageGet,
        ImapMessageGetError,
    >)
        ensures
            match r {
                Ok(run) => {
                    let request = Some(
                        FetchRequest {
                            set: uid_items(seq![uid_of(id@)->0]),
                            items: seq![FetchItemName::BodyPeek],
                            uid: true,
                        },
                    );
                    &&& transmissible(mailbox@) && uid_of(id@) is Some
                    &&& match run@ {
                        State::Selecting { select, fetch } => auto_select && select_request(select)
                            == Some(mailbox@) && fetch_request(fetch) == request,
                        State::Fetching { fetch } => !auto_select && fetch_request(fetch) == request,
                        State::Done => false,
                    }
                },
                Err(ImapMessageGetError::InvalidMailbox(name)) => !transmissible(mailbox@) && name@
                    == mailbox@,
                Err(ImapMessageGetError::InvalidUid(name)) => transmissible(mailbox@) && uid_of(id@)
                    is None && name@ == id@,
                Err(_) => false,
            },
    {
        let mailbox = match parse_mailbox(mailbox) {
            Ok(mailbox) => mailbox,
            Err(InvalidMailboxName(name)) => {
                return Err(ImapMessageGetError::InvalidMailbox(name));
            },
        };
        let ids: [&str; 1] = [id];
        proof {
            assert(ids@ =~= seq![id]);
            assert(ids@.drop_first() =~= seq![]);
            reveal_with_fuel(crate::imap::convert::first_bad, 2);
        }
        let uids = match parse_uids(&ids) {
            Ok(uids) => uids,
            Err(InvalidUidSet::Empty) => return Err(ImapMessageGetError::EmptyUidSet),
            Err(InvalidUidSet::Invalid(id)) => return Err(ImapMessageGetError::InvalidUid(id)),
        };
        proof {
            assert(uids@ =~= seq![uid_of(id@)->0]);
        }
        let mut names: Vec<FetchItemName> = Vec::new();
        names.push(FetchItemName::BodyPeek);
        proof {
            assert(names@ =~= seq![FetchItemName::BodyPeek]);
        }
        let fetch = fetch_new(uid_sequence_set(&uids), &names, true);
        let state = if auto_select {
            State::Selecting { select: select_new(&mailbox), fetch }
        } else {
            State::Fetching { fetch }
        };
        Ok(ImapMessageGet { state })
    }

    /// Advances the coroutine: with no bytes at first and after a write,
    /// with what was read after a read.
    pub fn resume(&mut self, fragmentizer: &mut Fragmentizer, bytes: Option<&[u8]>) -> (r: Step)
        ensures
            resumed(old(self)@, *old(fragmentizer), fed(bytes), final(self)@, *final(fragmentizer), r.outcome()),
        decreases old(self)@.rank(),
    {
        proof {
            use_type_invariant(&*self);
        }
        let ghost pre = self@;
        let ghost f = *fragmentizer;
        let mut state = State::Done;
        core::mem::swap(&mut self.state, &mut state);
        match state {
            State::Selecting { mut select, fetch } => {
                match select_resume(&mut select, fragmentizer, bytes) {
                    EmailCoroutineState::Yielded(step) => {
                        self.state = State::Selecting { select, fetch };
                        EmailCoroutineState::Yielded(step)
                    },
                    EmailCoroutineState::Complete(Ok(_)) => {
                        self.state = State::Fetching { fetch };
                        proof {
                            assert(hands_over(pre, f, fed(bytes), self@, *fragmentizer));
                        }
                        self.resume(fragmentizer, None)
                    },
                    EmailCoroutineState::Complete(Err(err)) => EmailCoroutineState::Complete(
                        Err(ImapMessageGetError::Select(err)),
                    ),
                }
            },
            State::Fetching { mut fetch } => match fetch_resume(&mut fetch, fragmentizer, bytes) {
                EmailCoroutineState::Yielded(step) => {
                    self.state = State::Fetching { fetch };
                    EmailCoroutineState::Yielded(step)
                },
                EmailCoroutineState::Complete(Ok(rows)) => {
                    let rows = read_rows(&rows);
                    match take_body(&rows) {
                        Some(raw) => EmailCoroutineState::Complete(Ok(RawMessage { bytes: raw })),
                        None => EmailCoroutineState::Complete(Err(ImapMessageGetError::EmptyBody)),
                    }
                },
                EmailCoroutineState::Complete(Err(err)) => EmailCoroutineState::Complete(
                    Err(ImapMessageGetError::Fetch(err)),
                ),
            },
            State::Done => EmailCoroutineState::Complete(Err(ImapMessageGetError::ResumedAfterDone)),
        }
    }
}

/// The message is the first body that any response gives and that is not
/// NIL; there is none exactly where no response gives one.
pub proof fn law_body_is_the_first_given(rows: Seq<FetchRowView>)
    ensures
        match first_body(rows) {
            Some(data) => exists|i: int, k: int|
                0 <= i < rows.len() && 0 <= k < rows[i].items.len() && #[trigger] rows[i].items[k]
                    == FetchItemView::Body(Some(data)) && no_body_before(rows, i, k),
            None => no_body_before(rows, rows.len() as int, 0),
        },
    decreases rows.len(),
{
    if rows.len() > 0 {
        let rest = rows.drop_first();
        lemma_body_of(rows[0].items);
        law_body_is_the_first_given(rest);
        match body_of(rows[0].items) {
            Some(data) => {
                let k = choose|k: int|
                    0 <= k < rows[0].items.len() && #[trigger] rows[0].items[k] == FetchItemView::Body(
                        Some(data),
                    ) && forall|j: int|
                        0 <= j < k ==> !(#[trigger] rows[0].items[j] matches FetchItemView::Body(Some(_)));
                assert(no_body_before(rows, 0, k));
            },
            None => {
                match first_body(rest) {
                    Some(data) => {
                        let (i, k) = choose|i: int, k: int|
                            0 <= i < rest.len() && 0 <= k < rest[i].items.len()
                                && #[trigger] rest[i].items[k] == FetchItemView::Body(Some(data))
                                && no_body_before(rest, i, k);
                        assert(rows[i + 1].items[k] == rest[i].items[k]);
                        lemma_no_body_later(rows, i, k);
                    },
                    None => {
                        lemma_no_body_later(rows, rest.len() as int, 0);
                    },
                }
            },
        }
    }
}

/// Whether no response before the place gives a body that is not NIL.
pub open spec fn no_body_before(rows: Seq<FetchRowView>, i: int, k: int) -> bool {
    forall|a: int, c: int|
        0 <= a < rows.len() && 0 <= c < rows[a].items.len() && (a < i || a == i && c < k)
            ==> !(#[trigger] rows[a].items[c] matches FetchItemView::Body(Some(_)))
}

proof fn lemma_no_body_later(rows: Seq<FetchRowView>, i: int, k: int)
    requires
        rows.len() > 0,
        no_body_before(rows.drop_first(), i, k),
        body_of(rows[0].items) is None,
    ensures
        no_body_before(rows, i + 1, k),
{
    lemma_body_of(rows[0].items);
    let rest = rows.drop_first();
    assert forall|a: int, c: int|
        0 <= a < rows.len() && 0 <= c < rows[a].items.len() && (a < i + 1 || a == i + 1 && c < k) implies !(
    #[trigger] rows[a].items[c] matches FetchItemView::Body(Some(_))) by {
        if a > 0 {
            assert(rest[a - 1].items[c] == rows[a].items[c]);
        }
    }
}

proof fn lemma_body_of(items: Seq<FetchItemView>)
    ensures
        match body_of(items) {
            Some(data) => exists|k: int|
                0 <= k < items.len() && #[trigger] items[k] == FetchItemView::Body(Some(data))
                    && forall|j: int|
                    0 <= j < k ==> !(#[trigger] items[j] matches FetchItemView::Body(Some(_))),
            None => forall|k: int|
                0 <= k < items.len() ==> !(#[trigger] items[k] matches FetchItemView::Body(Some(_))),
        },
    decreases items.len(),
{
    if items.len() > 0 {
        let rest = items.drop_first();
        lemma_body_of(rest);
        if let FetchItemView::Body(Some(data)) = items[0] {
            assert(items[0] == FetchItemView::Body(Some(data)));
        } else {
            match body_of(rest) {
                Some(data) => {
                    let k = choose|k: int|
                        0 <= k < rest.len() && #[trigger] rest[k] == FetchItemView::Body(Some(data))
                            && forall|j: int|
                            0 <= j < k ==> !(#[trigger] rest[j] matches FetchItemView::Body(Some(_)));
                    assert(items[k + 1] == rest[k]);
                    assert forall|j: int| 0 <= j < k + 1 implies !(#[trigger] items[j] matches FetchItemView::Body(
                    Some(_),
                    )) by {
                        if j > 0 {
                            assert(rest[j - 1] == items[j]);
                        }
                    }
                },
                None => {
                    assert forall|k: int| 0 <= k < items.len() implies !(#[trigger] items[k] matches FetchItemView::Body(
                    Some(_),
                    )) by {
                        if k > 0 {
                            assert(rest[k - 1] == items[k]);
                        }
                    }
                },
            }
        }
    }
}

/// The body given back is one that the server sent for the FETCH, after the
/// SELECT where there is one.
pub proof fn law_success_is_the_servers(
    pre: State,
    fragmentizer: Fragmentizer,
    bytes: Option<Seq<u8>>,
    post: State,
    left: Fragmentizer,
    answer: Answer,
)
    requires
        resumed(pre, fragmentizer, bytes, post, left, answer),
    ensures
        answer is Done ==> post is Done && !(pre is Done),
        pre matches State::Fetching { fetch } ==> (answer matches Answer::Done(body) ==> (fetch_step(
            fetch,
            fragmentizer,
            bytes,
        ) matches Outcome::Done(rows) && first_body(row_views(rows)) == Some(body))),
        pre matches State::Selecting { select, fetch } ==> (answer matches Answer::Done(body)
            ==> select_step(select, fragmentizer, bytes) is Done && (fetch_step(
            fetch,
            select_left(select, fragmentizer, bytes).1,
            None,
        ) matches Outcome::Done(rows) && first_body(row_views(rows)) == Some(body))),
    decreases pre.rank(),
{
    if !pre.stage(fragmentizer, bytes, post, left, Some(answer)) {
        let (mid, between) = choose|mid: State, between: Fragmentizer|
            #[trigger] hands_over(pre, fragmentizer, bytes, mid, between) && resumed(
                mid,
                between,
                None,
                post,
                left,
                answer,
            );
        law_success_is_the_servers(mid, between, None, post, left, answer);
    }
}

/// What an exchange waits for is passed on as it is, and what it fails with is
/// told and ends the run; a run that is over stays over.
pub proof fn law_waits_and_failures_are_told(
    pre: State,
    fragmentizer: Fragmentizer,
    bytes: Option<Seq<u8>>,
    post: State,
    left: Fragmentizer,
    answer: Answer,
)
    requires
        resumed(pre, fragmentizer, bytes, post, left, answer),
    ensures
        pre matches State::Selecting { select, .. } ==> {
            &&& select_step(select, fragmentizer, bytes) is Read ==> answer is Read
            &&& select_step(select, fragmentizer, bytes) matches Outcome::Write(out) ==> answer == Answer::Write(out)
            &&& select_step(select, fragmentizer, bytes) matches Outcome::Failed(err) ==> post is Done && answer == Answer::Failed(
                ImapMessageGetError::Select(err),
            )
        },
        pre matches State::Fetching { fetch } ==> {
            &&& fetch_step(fetch, fragmentizer, bytes) is Read ==> answer is Read
            &&& fetch_step(fetch, fragmentizer, bytes) matches Outcome::Write(out) ==> answer == Answer::Write(out)
            &&& fetch_step(fetch, fragmentizer, bytes) matches Outcome::Failed(err) ==> post is Done && answer == Answer::Failed(
                ImapMessageGetError::Fetch(err),
            )
        },
        pre is Done ==> post is Done && answer == Answer::Failed(ImapMessageGetError::ResumedAfterDone),
{
    if !pre.stage(fragmentizer, bytes, post, left, Some(answer)) {
        let (mid, between) = choose|mid: State, between: Fragmentizer|
            #[trigger] hands_over(pre, fragmentizer, bytes, mid, between) && resumed(
                mid,
                between,
                None,
                post,
                left,
                answer,
            );
        assert(pre.stage(fragmentizer, bytes, mid, between, None));
    }
}

/// Where the server sent no body, just that is told.
pub proof fn law_no_body_is_told(
    pre: State,
    fragmentizer: Fragmentizer,
    bytes: Option<Seq<u8>>,
    post: State,
    left: Fragmentizer,
    answer: Answer,
)
    requires
        resumed(pre, fragmentizer, bytes, post, left, answer),
    ensures
        pre matches State::Fetching { fetch } ==> (fetch_step(fetch, fragmentizer, bytes) matches Outcome::Done(
            rows,
        ) ==> (answer == Answer::Failed(ImapMessageGetError::EmptyBody) <==> first_body(row_views(rows))
            is None)),
{
    if !pre.stage(fragmentizer, bytes, post, left, Some(answer)) {
        let (mid, between) = choose|mid: State, between: Fragmentizer|
            #[trigger] hands_over(pre, fragmentizer, bytes, mid, between) && resumed(
                mid,
                between,
                None,
                post,
                left,
                answer,
            );
        assert(pre.stage(fragmentizer, bytes, mid, between, None));
    }
}

} // verus!
