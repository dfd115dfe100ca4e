//! IMAP mailbox-list coroutine: `LIST "" "*"`, then optionally one `STATUS
//! <mailbox> (MESSAGES UNSEEN)` per row (RFC 3501 sections 6.3.8 and
//! 6.3.10).
use vstd::prelude::*;

use io_imap::codec::fragmentizer::Fragmentizer;
use io_imap::rfc3501::list::{
    ImapMailboxList as InnerImapMailboxList, ImapMailboxListError as InnerImapMailboxListError,
};
use io_imap::rfc3501::status::{ImapMailboxStatus, ImapMailboxStatusError};

use crate::coroutine::{
    fed, hands_over, resumed, EmailCoroutineState, ImapStep, Outcome, Stages,
};
use crate::imap::convert::{parse_mailbox, transmissible, InvalidMailboxName};
use crate::imap::wire::{
    list_left, list_new, list_request, list_resume, list_step, status_left, status_new,
    status_request, status_resume, status_step, ListAttribute, ListName, ListRequest, ListRow,
    ListRowView, StatusItem, StatusName, StatusRequest,
};
use crate::mailbox::{Mailbox, MailboxView};
use crate::text::{read_utf8_lossy, utf8_lossy};

verus! {

/// Errors produced by [`ImapMailboxList`].
#[derive(Debug)]
pub enum ImapMailboxListError {
    List(InnerImapMailboxListError),
    Status(ImapMailboxStatusError),
    InvalidMailbox(String),
    ResumedAfterDone,
}

/// Whether a LIST row can be SELECTed.
pub open spec fn selectable(row: ListRowView) -> bool {
    !row.attributes.contains(ListAttribute::Noselect)
}

/// The shared shape of a LIST row; its name serves as its id.
pub open spec fn mailbox_of(row: ListRowView) -> MailboxView {
    let name = match row.name {
        Some(bytes) => utf8_lossy(bytes),
        None => "Inbox"@,
    };
    MailboxView { id: name, name, total: None, unread: None }
}

/// The mailboxes of LIST rows, without those that cannot be selected.
pub open spec fn mailboxes_of(rows: Seq<ListRowView>) -> Seq<MailboxView>
    decreases rows.len(),
{
    if rows.len() == 0 {
        seq![]
    } else {
        let before = mailboxes_of(rows.drop_last());
        if selectable(rows.last()) {
            before.push(mailbox_of(rows.last()))
        } else {
            before
        }
    }
}

/// A mailbox after a STATUS item.
pub open spec fn with_count(mailbox: MailboxView, item: StatusItem) -> MailboxView {
    match item {
        StatusItem::Messages(n) => MailboxView { total: Some(n as u64), ..mailbox },
        StatusItem::Unseen(n) => MailboxView { unread: Some(n as u64), ..mailbox },
        StatusItem::Other => mailbox,
    }
}

/// A mailbox after a STATUS response.
pub open spec fn with_counts(mailbox: MailboxView, items: Seq<StatusItem>) -> MailboxView
    decreases items.len(),
{
    if items.len() == 0 {
        mailbox
    } else {
        with_count(with_counts(mailbox, items.drop_last()), items.last())
    }
}

/// Whether a LIST row can be SELECTed. Containers flagged `\Noselect`
/// cannot hold messages.
pub fn is_selectable(row: &ListRow) -> (r: bool)
    ensures
        r == selectable(row.deep_view()),
{
    let mut i: usize = 0;
    while i < row.attributes.len()
        invariant
            i <= row.attributes@.len(),
            forall|j: int| 0 <= j < i ==> row.attributes@[j] != ListAttribute::Noselect,
        decreases row.attributes@.len() - i,
    {
        if let ListAttribute::Noselect = row.attributes[i] {
            proof {
                assert(row.attributes@.contains(row.attributes@[i as int]));
            }
            return false;
        }
        i = i + 1;
    }
    true
}

/// Converts one LIST row into the shared [`Mailbox`] shape.
pub fn mailbox_from(row: &ListRow) -> (r: Mailbox)
    ensures
        r.deep_view() == mailbox_of(row.deep_view()),
{
    let name = match &row.name {
        ListName::Inbox => "Inbox".to_owned(),
        ListName::Other(bytes) => read_utf8_lossy(bytes),
    };
    Mailbox { id: name.clone(), name, total: None, unread: None }
}

/// Converts LIST rows, without those that cannot be selected.
pub fn mailboxes_from(rows: &Vec<ListRow>) -> (r: Vec<Mailbox>)
    ensures
        r.deep_view() == mailboxes_of(rows.deep_view()),
{
    let mut out: Vec<Mailbox> = Vec::new();
    let ghost all = rows.deep_view();
    proof {
        assert(out.deep_view() =~= seq![]);
        assert(all.subrange(0, 0) =~= seq![]);
    }
    let mut i: usize = 0;
    while i < rows.len()
        invariant
            i <= rows@.len(),
            all == rows.deep_view(),
            out.deep_view() == mailboxes_of(all.subrange(0, i as int)),
        decreases rows@.len() - i,
    {
        proof {
            assert(all.subrange(0, i + 1).drop_last() =~= all.subrange(0, i as int));
            assert(all.subrange(0, i + 1).last() == rows@[i as int].deep_view());
        }
        let ghost before = out.deep_view();
        if is_selectable(&rows[i]) {
            let mailbox = mailbox_from(&rows[i]);
            let ghost last = mailbox.deep_view();
            out.push(mailbox);
            proof {
                assert(out.deep_view() =~= before.push(last));
            }
        }
        i = i + 1;
    }
    proof {
        assert(all.subrange(0, all.len() as int) =~= all);
    }
    out
}

/// Folds a STATUS response into the matching mailbox.
pub fn apply_status(mailbox: &mut Mailbox, items: &Vec<StatusItem>)
    ensures
        final(mailbox).deep_view() == with_counts(old(mailbox).deep_view(), items@),
{
    let ghost was = mailbox.deep_view();
    proof {
        assert(items@.subrange(0, 0) =~= seq![]);
    }
    let mut i: usize = 0;
    while i < items.len()
        invariant
            i <= items@.len(),
            mailbox.deep_view() == with_counts(was, items@.subrange(0, i as int)),
        decreases items@.len() - i,
    {
        proof {
            assert(items@.subrange(0, i + 1).drop_last() =~= items@.subrange(0, i as int));
            assert(items@.subrange(0, i + 1).last() == items@[i as int]);
        }
        match items[i] {
            StatusItem::Messages(n) => {
                mailbox.total = Some(n as u64);
            },
            StatusItem::Unseen(n) => {
                mailbox.unread = Some(n as u64);
            },
            StatusItem::Other => {},
        }
        i = i + 1;
    }
    proof {
        assert(items@.subrange(0, items@.len() as int) =~= items@);
    }
}

/// Where a listing stands.
pub enum State {
    Listing { list: InnerImapMailboxList, with_counts: bool },
    /// The counts of the mailbox at `cursor` are asked for.
    Counting { status: ImapMailboxStatus, cursor: usize, mailboxes: Vec<Mailbox> },
    Done,
}

impl State {
    /// Whether the exchange under way is not over, and is about a mailbox of
    /// the list.
    pub open spec fn live(self) -> bool {
        match self {
            State::Listing { list, .. } => list_request(list) is Some,
            State::Counting { status, cursor, mailboxes } => status_request(status) is Some && cursor
                < mailboxes@.len(),
            State::Done => true,
        }
    }

    /// Where a step leaves the exchange under way, and the parser with it.
    pub open spec fn stepped(self, fragmentizer: Fragmentizer, bytes: Option<Seq<u8>>) -> (
        State,
        Fragmentizer,
    ) {
        match self {
            State::Listing { list, with_counts } => {
                let (list, parsed) = list_left(list, fragmentizer, bytes);
                (State::Listing { list, with_counts }, parsed)
            },
            State::Counting { status, cursor, mailboxes } => {
                let (status, parsed) = status_left(status, fragmentizer, bytes);
                (State::Counting { status, cursor, mailboxes }, parsed)
            },
            State::Done => (self, fragmentizer),
        }
    }
}

pub type Answer = Outcome<Seq<MailboxView>, ImapMailboxListError>;

/// What a resume returns.
pub type Step = EmailCoroutineState<ImapStep, Result<Vec<Mailbox>, ImapMailboxListError>>;

/// Whether the counts of the mailbox at `cursor` are asked for next; a name
/// that cannot travel ends the listing.
pub open spec fn counts_next(
    mailboxes: Seq<MailboxView>,
    cursor: int,
    post: State,
    answer: Option<Answer>,
) -> bool {
    if transmissible(mailboxes[cursor].id) {
        &&& answer is None
        &&& post matches State::Counting { status, cursor: c, mailboxes: m }
        &&& status_request(status) == Some(
            StatusRequest {
                mailbox: mailboxes[cursor].id,
                items: seq![StatusName::Messages, StatusName::Unseen],
            },
        )
        &&& c == cursor
        &&& m.deep_view() == mailboxes
    } else {
        &&& post is Done
        &&& answer matches Some(Outcome::Failed(ImapMailboxListError::InvalidMailbox(name)))
        &&& name@ == mailboxes[cursor].id
    }
}

impl Stages for State {
    type Context = Fragmentizer;

    type Answer = Answer;

    open spec fn rank(self) -> nat {
        match self {
            State::Listing { .. } => 2,
            State::Counting { .. } => 1,
            State::Done => 0,
        }
    }

    open spec fn repeats(self, bytes: Option<Seq<u8>>) -> nat {
        match self {
            State::Counting { cursor, mailboxes, .. } => (mailboxes@.len() - cursor) as nat,
            _ => 0,
        }
    }

    open spec fn stage(
        self,
        fragmentizer: Fragmentizer,
        bytes: Option<Seq<u8>>,
        post: State,
        left: Fragmentizer,
        answer: Option<Answer>,
    ) -> bool {
        let (kept, parsed) = self.stepped(fragmentizer, bytes);
        &&& left == parsed
        &&& match self {
            State::Listing { list, with_counts } => match list_step(list, fragmentizer, bytes) {
                Outcome::Done(rows) => {
                    let mailboxes = mailboxes_of(rows);
                    if !with_counts || mailboxes.len() == 0 {
                        post is Done && answer == Some(Answer::Done(mailboxes))
                    } else {
                        counts_next(mailboxes, 0, post, answer)
                    }
                },
                Outcome::Failed(err) => post is Done && answer == Some(
                    Answer::Failed(ImapMailboxListError::List(err)),
                ),
                wait => post == kept && answer is Some && answer->0.forwards(wait),
            },
            State::Counting { status, cursor, mailboxes } => match status_step(
                status,
                fragmentizer,
                bytes,
            ) {
                Outcome::Done(items) => {
                    let all = mailboxes.deep_view().update(
                        cursor as int,
                        with_counts(mailboxes.deep_view()[cursor as int], items),
                    );
                    if cursor + 1 >= all.len() {
                        post is Done && answer == Some(Answer::Done(all))
                    } else {
                        counts_next(all, cursor + 1, post, answer)
                    }
                },
                Outcome::Failed(err) => post is Done && answer == Some(
                    Answer::Failed(ImapMailboxListError::Status(err)),
                ),
                wait => post == kept && answer is Some && answer->0.forwards(wait),
            },
            State::Done => post is Done && answer == Some(
                Answer::Failed(ImapMailboxListError::ResumedAfterDone),
            ),
        }
    }
}

/// I/O-free coroutine listing every IMAP mailbox visible to the session,
/// optionally enriched with per-mailbox counts.
pub struct ImapMailboxList {
    state: State,
}

impl View for ImapMailboxList {
    type V = State;

    closed spec fn view(&self) -> State {
        self.state
    }
}

impl ImapMailboxList {
    #[verifier::type_invariant]
    closed spec fn inv(self) -> bool {
        self.state.live()
    }

    /// With `with_counts`, [`Mailbox::total`] and [`Mailbox::unread`] are
    /// asked for too.
    pub fn new(with_counts: bool) -> (r: ImapMailboxList)
        ensures
            r@ matches State::Listing { list, with_counts: counts } && counts == with_counts
                && list_request(list) == Some(ListRequest { reference: seq![], pattern: seq!['*'] }),
    {
        proof {
            reveal_strlit("");
            reveal_strlit("*");
            assert(""@ =~= seq![]);
            assert("*"@ =~= seq!['*']);
        }
        ImapMailboxList { state: State::Listing { list: list_new("", "*"), with_counts } }
    }

    /// Asks for the counts of the mailbox at `cursor`.
    fn start_status(&mut self, mailboxes: Vec<Mailbox>, cursor: usize) -> (r: Option<Step>)
        requires
            old(self)@ is Done,
            cursor < mailboxes@.len(),
        ensures
            counts_next(
                mailboxes.deep_view(),
                cursor as int,
                final(self)@,
                match r {
                    Some(step) => Some(step.outcome()),
                    None => None,
                },
            ),
    {
        proof {
            assert(mailboxes.deep_view()[cursor as int] == mailboxes@[cursor as int].deep_view());
        }
        match parse_mailbox(&mailboxes[cursor].id) {
            Ok(mailbox) => {
                let mut names: Vec<StatusName> = Vec::new();
                names.push(StatusName::Messages);
                names.push(StatusName::Unseen);
                proof {
                    assert(names@ =~= seq![StatusName::Messages, StatusName::Unseen]);
                }
                let status = status_new(&mailbox, &names);
                self.state = State::Counting { status, cursor, mailboxes };
                None
            },
            Err(InvalidMailboxName(name)) => Some(
                EmailCoroutineState::Complete(Err(ImapMailboxListError::InvalidMailbox(name))),
            ),
        }
    }

    /// Advances the coroutine: with no bytes at first and after a write,
    /// with what was read after a read.
    pub fn resume(&mut self, fragmentizer: &mut Fragmentizer, bytes: Option<&[u8]>) -> (r: Step)
        ensures
            resumed(old(self)@, *old(fragmentizer), fed(bytes), final(self)@, *final(fragmentizer), r.outcome()),
        decreases old(self)@.rank(), old(self)@.repeats(fed(bytes)),
    {
        proof {
            use_type_invariant(&*self);
        }
        let ghost pre = self@;
        let ghost f = *fragmentizer;
        let mut state = State::Done;
        core::mem::swap(&mut self.state, &mut state);
        match state {
            State::Listing { mut list, with_counts } => {
                match list_resume(&mut list, fragmentizer, bytes) {
                    EmailCoroutineState::Yielded(step) => {
                        self.state = State::Listing { list, with_counts };
                        EmailCoroutineState::Yielded(step)
                    },
                    EmailCoroutineState::Complete(Ok(rows)) => {
                        let mailboxes = mailboxes_from(&rows);
                        proof {
                            assert(mailboxes.deep_view().len() == mailboxes@.len());
                        }
                        if !with_counts || mailboxes.len() == 0 {
                            return EmailCoroutineState::Complete(Ok(mailboxes));
                        }
                        match self.start_status(mailboxes, 0) {
                            Some(r) => r,
                            None => {
                                proof {
                                    assert(hands_over(pre, f, fed(bytes), self@, *fragmentizer));
                                }
                                self.resume(fragmentizer, None)
                            },
                        }
                    },
                    EmailCoroutineState::Complete(Err(err)) => EmailCoroutineState::Complete(
                        Err(ImapMailboxListError::List(err)),
                    ),
                }
            },
            State::Counting { mut status, cursor, mut mailboxes } => {
                match status_resume(&mut status, fragmentizer, bytes) {
                    EmailCoroutineState::Yielded(step) => {
                        self.state = State::Counting { status, cursor, mailboxes };
                        EmailCoroutineState::Yielded(step)
                    },
                    EmailCoroutineState::Complete(Ok(items)) => {
                        let ghost was = mailboxes.deep_view();
                        proof {
                            assert(items.deep_view() =~= items@);
                        }
                        apply_status(&mut mailboxes[cursor], &items);
                        proof {
                            assert(mailboxes.deep_view() =~= was.update(
                                cursor as int,
                                crate::imap::mailbox_list::with_counts(was[cursor as int], items@),
                            ));
                        }
                        if mailboxes.len() - cursor <= 1 {
                            return EmailCoroutineState::Complete(Ok(mailboxes));
                        }
                        match self.start_status(mailboxes, cursor + 1) {
                            Some(r) => r,
                            None => {
                                proof {
                                    assert(self@->mailboxes.deep_view().len() == was.len());
                                    assert(hands_over(pre, f, fed(bytes), self@, *fragmentizer));
                                }
                                self.resume(fragmentizer, None)
                            },
                        }
                    },
                    EmailCoroutineState::Complete(Err(err)) => EmailCoroutineState::Complete(
                        Err(ImapMailboxListError::Status(err)),
                    ),
                }
            },
            State::Done => EmailCoroutineState::Complete(Err(ImapMailboxListError::ResumedAfterDone)),
        }
    }
}

/// Counting changes counts only: a mailbox keeps its id and its name.
pub proof fn law_counts_keep_names(mailbox: MailboxView, items: Seq<StatusItem>)
    ensures
        with_counts(mailbox, items).id == mailbox.id,
        with_counts(mailbox, items).name == mailbox.name,
    decreases items.len(),
{
    if items.len() > 0 {
        law_counts_keep_names(mailbox, items.drop_last());
    }
}

/// Every mailbox that the server lists and that can be selected is given, in
/// the order of the server, under its name; no other is.
pub proof fn law_mailboxes_are_those_listed(rows: Seq<ListRowView>)
    ensures
        mailboxes_of(rows) == rows.filter(
            |row: ListRowView|
                forall|i: int|
                    0 <= i < row.attributes.len() ==> #[trigger] row.attributes[i]
                        != ListAttribute::Noselect,
        ).map_values(
            |row: ListRowView|
                {
                    let name = match row.name {
                        Some(bytes) => utf8_lossy(bytes),
                        None => "Inbox"@,
                    };
                    MailboxView { id: name, name, total: None, unread: None }
                },
        ),
    decreases rows.len(),
{
    reveal(Seq::filter);
    let keep = |row: ListRowView|
        forall|i: int|
            0 <= i < row.attributes.len() ==> #[trigger] row.attributes[i] != ListAttribute::Noselect;
    let read = |row: ListRowView|
        {
            let name = match row.name {
                Some(bytes) => utf8_lossy(bytes),
                None => "Inbox"@,
            };
            MailboxView { id: name, name, total: None, unread: None }
        };
    if rows.len() == 0 {
        assert(mailboxes_of(rows) =~= rows.filter(keep).map_values(read));
    } else {
        law_mailboxes_are_those_listed(rows.drop_last());
        let last = rows.last();
        assert(selectable(last) <==> keep(last)) by {
            if !selectable(last) {
                let i = choose|i: int|
                    0 <= i < last.attributes.len() && last.attributes[i] == ListAttribute::Noselect;
                assert(last.attributes[i] == ListAttribute::Noselect);
            }
            if !keep(last) {
                let i = choose|i: int|
                    0 <= i < last.attributes.len() && #[trigger] last.attributes[i]
                        == ListAttribute::Noselect;
                assert(last.attributes.contains(last.attributes[i]));
            }
        }
        let before = rows.drop_last().filter(keep);
        assert(before.push(last).map_values(read) =~= before.map_values(read).push(read(last)));
    }
}

/// The counts of a mailbox are the last ones that its STATUS gives: the total
/// by MESSAGES, the unread ones by UNSEEN; a count that it does not give
/// stays as it was.
pub proof fn law_counts_are_the_given_ones(mailbox: MailboxView, items: Seq<StatusItem>, k: int)
    ensures
        0 <= k < items.len() && items[k] is Messages && (forall|j: int|
            k < j < items.len() ==> !(#[trigger] items[j] is Messages)) ==> with_counts(mailbox, items).total
            == Some(items[k]->Messages_0 as u64),
        0 <= k < items.len() && items[k] is Unseen && (forall|j: int|
            k < j < items.len() ==> !(#[trigger] items[j] is Unseen)) ==> with_counts(mailbox, items).unread
            == Some(items[k]->Unseen_0 as u64),
        (forall|j: int| 0 <= j < items.len() ==> !(#[trigger] items[j] is Messages)) ==> with_counts(
            mailbox,
            items,
        ).total == mailbox.total,
        (forall|j: int| 0 <= j < items.len() ==> !(#[trigger] items[j] is Unseen)) ==> with_counts(
            mailbox,
            items,
        ).unread == mailbox.unread,
    decreases items.len(),
{
    if items.len() > 0 {
        let most = items.drop_last();
        law_counts_are_the_given_ones(mailbox, most, k);
        assert(items[items.len() - 1] == items.last());
        assert forall|j: int| 0 <= j < most.len() implies most[j] == items[j] by {}
        if 0 <= k < most.len() {
            if forall|j: int| k < j < items.len() ==> !(#[trigger] items[j] is Messages) {
                assert forall|j: int| k < j < most.len() implies !(#[trigger] most[j] is Messages) by {
                    assert(items[j] == most[j]);
                }
            }
            if forall|j: int| k < j < items.len() ==> !(#[trigger] items[j] is Unseen) {
                assert forall|j: int| k < j < most.len() implies !(#[trigger] most[j] is Unseen) by {
                    assert(items[j] == most[j]);
                }
            }
        }
        if forall|j: int| 0 <= j < items.len() ==> !(#[trigger] items[j] is Messages) {
            assert forall|j: int| 0 <= j < most.len() implies !(#[trigger] most[j] is Messages) by {
                assert(items[j] == most[j]);
            }
        }
        if forall|j: int| 0 <= j < items.len() ==> !(#[trigger] items[j] is Unseen) {
            assert forall|j: int| 0 <= j < most.len() implies !(#[trigger] most[j] is Unseen) by {
                assert(items[j] == most[j]);
            }
        }
    }
}

/// A listing gives every mailbox that the server told of, in the server's
/// order, under its own id and name; with counts each is asked for its own, and
/// the counts of those already asked stay.
pub proof fn law_every_mailbox_is_listed(
    pre: State,
    fragmentizer: Fragmentizer,
    bytes: Option<Seq<u8>>,
    post: State,
    left: Fragmentizer,
    answer: Answer,
)
    requires
        resumed(pre, fragmentizer, bytes, post, left, answer),
        pre matches State::Counting { cursor, mailboxes, .. } ==> cursor < mailboxes@.len(),
    ensures
        answer is Done ==> post is Done && !(pre is Done),
        pre matches State::Counting { status, cursor, mailboxes } ==> (answer matches Answer::Done(list)
            ==> {
            let before = mailboxes.deep_view();
            &&& list.len() == before.len()
            &&& forall|i: int|
                0 <= i < list.len() ==> (#[trigger] list[i]).id == before[i].id && list[i].name
                    == before[i].name
            &&& forall|i: int| 0 <= i < cursor ==> #[trigger] list[i] == before[i]
            &&& status_step(status, fragmentizer, bytes) matches Outcome::Done(items)
                && list[cursor as int] == with_counts(before[cursor as int], items)
        }),
        pre matches State::Listing { list: asked, with_counts } ==> (answer matches Answer::Done(list)
            ==> list_step(asked, fragmentizer, bytes) matches Outcome::Done(rows) && {
            &&& list.len() == mailboxes_of(rows).len()
            &&& forall|i: int|
                0 <= i < list.len() ==> (#[trigger] list[i]).id == mailboxes_of(rows)[i].id
                    && list[i].name == mailboxes_of(rows)[i].name
            &&& !with_counts ==> list == mailboxes_of(rows)
        }),
    decreases pre.rank(), pre.repeats(bytes),
{
    if let State::Counting { status, cursor, mailboxes } = pre {
        assert(mailboxes.deep_view().len() == mailboxes@.len());
        if let Outcome::Done(items) = status_step(status, fragmentizer, bytes) {
            law_counts_keep_names(mailboxes.deep_view()[cursor as int], items);
        }
    }
    if !pre.stage(fragmentizer, bytes, post, left, Some(answer)) {
        let (mid, between) = choose|mid: State, between: Fragmentizer|
            #[trigger] hands_over(pre, fragmentizer, bytes, mid, between) && resumed(
                mid,
                between,
                None,
                post,
                left,
                answer,
            );
        if let State::Counting { status, cursor, mailboxes } = mid {
            assert(mailboxes.deep_view().len() == mailboxes@.len());
        }
        law_every_mailbox_is_listed(mid, between, None, post, left, answer);
    }
}

/// What an exchange waits for is passed on as it is, and what it fails with is
/// told and ends the run; a run that is over stays over.
pub proof fn law_waits_and_failures_are_told(
    pre: State,
    fragmentizer: Fragmentizer,
    bytes: Option<Seq<u8>>,
    post: State,
    left: Fragmentizer,
    answer: Answer,
)
    requires
        resumed(pre, fragmentizer, bytes, post, left, answer),
    ensures
        pre matches State::Listing { list, .. } ==> {
            &&& list_step(list, fragmentizer, bytes) is Read ==> answer is Read
            &&& list_step(list, fragmentizer, bytes) matches Outcome::Write(out) ==> answer == Answer::Write(out)
            &&& list_step(list, fragmentizer, bytes) matches Outcome::Failed(err) ==> post is Done && answer == Answer::Failed(
                ImapMailboxListError::List(err),
            )
        },
        pre matches State::Counting { status, .. } ==> {
            &&& status_step(status, fragmentizer, bytes) is Read ==> answer is Read
            &&& status_step(status, fragmentizer, bytes) matches Outcome::Write(out) ==> answer == Answer::Write(out)
            &&& status_step(status, fragmentizer, bytes) matches Outcome::Failed(err) ==> post is Done && answer == Answer::Failed(
                ImapMailboxListError::Status(err),
            )
        },
        pre is Done ==> post is Done && answer == Answer::Failed(ImapMailboxListError::ResumedAfterDone),
{
    if !pre.stage(fragmentizer, bytes, post, left, Some(answer)) {
        let (mid, between) = choose|mid: State, between: Fragmentizer|
            #[trigger] hands_over(pre, fragmentizer, bytes, mid, between) && resumed(
                mid,
                between,
                None,
                post,
                left,
                answer,
            );
        assert(pre.stage(fragmentizer, bytes, mid, between, None));
    }
}

} // verus!
