//! IMAP message-delete coroutine: optional SELECT, then `UID STORE <uid>
//! +FLAGS (\\Deleted)`, then EXPUNGE (RFC 3501 sections 6.4.6 and 6.4.3).
use vstd::prelude::*;

use io_imap::codec::fragmentizer::Fragmentizer;
use io_imap::rfc3501::expunge::{ImapMailboxExpunge, ImapMailboxExpungeError};
use io_imap::rfc3501::select::{ImapMailboxSelect, ImapMailboxSelectError};
use io_imap::rfc3501::store::{ImapMessageStore, ImapMessageStoreError};

use crate::coroutine::{
    fed, hands_over, resumed, EmailBackend, EmailCoroutine, EmailCoroutineArg, EmailCoroutineState,
    ImapStep, Outcome, Stages,
};
use crate::flag::types::{law_spelling_parses_back, Flag, FlagOp, IanaFlag};
use crate::imap::convert::{
    parse_mailbox, parse_uids, transmissible, uid_of, ImapFlagView, InvalidMailboxName, InvalidUidSet,
};
use crate::imap::flag_store::{imap_flags, wire_flags};
use crate::imap::wire::{
    expunge_left, expunge_new, expunge_request, expunge_resume, expunge_step, select_left,
    select_new, select_request, select_resume, select_step, store_left, store_new, store_request,
    store_resume, store_step, uid_items, uid_sequence_set, StoreRequest,
};

verus! {

/// Errors produced by [`ImapMessageDelete`].
#[derive(Debug)]
pub enum ImapMessageDeleteError {
    Select(ImapMailboxSelectError),
    Store(ImapMessageStoreError),
    Expunge(ImapMailboxExpungeError),
    InvalidMailbox(String),
    InvalidUid(String),
    EmptyUidSet,
    InvalidArg,
    ResumedAfterDone,
}

/// Where a deletion stands.
pub enum State {
    Selecting { select: ImapMailboxSelect, store: ImapMessageStore },
    Storing { store: ImapMessageStore },
    Expunging { expunge: ImapMailboxExpunge },
    Done,
}

impl State {
    /// Whether the exchanges under way and to come are not over.
    pub open spec fn live(self) -> bool {
        match self {
            State::Selecting { select, store } => select_request(select) is Some && store_request(
                store,
            ) is Some,
            State::Storing { store } => store_request(store) is Some,
            State::Expunging { expunge } => expunge_request(expunge) is Some,
            State::Done => true,
        }
    }

    /// Where a step leaves the exchange under way, and the parser with it.
    pub open spec fn stepped(self, fragmentizer: Fragmentizer, bytes: Option<Seq<u8>>) -> (
        State,
        Fragmentizer,
    ) {
        match self {
            State::Selecting { select, store } => {
                let (select, parsed) = select_left(select, fragmentizer, bytes);
                (State::Selecting { select, store }, parsed)
            },
            State::Storing { store } => {
                let (store, parsed) = store_left(store, fragmentizer, bytes);
                (State::Storing { store }, parsed)
            },
            State::Expunging { expunge } => {
                let (expunge, parsed) = expunge_left(expunge, fragmentizer, bytes);
                (State::Expunging { expunge }, parsed)
            },
            State::Done => (self, fragmentizer),
        }
    }
}

pub type Answer = Outcome<(), ImapMessageDeleteError>;

/// What a resume returns.
pub type Step = EmailCoroutineState<ImapStep, Result<(), ImapMessageDeleteError>>;

impl Stages for State {
    type Context = Fragmentizer;

    type Answer = Answer;

    open spec fn rank(self) -> nat {
        match self {
            State::Selecting { .. } => 3,
            State::Storing { .. } => 2,
            State::Expunging { .. } => 1,
            State::Done => 0,
        }
    }

    open spec fn stage(
        self,
        fragmentizer: Fragmentizer,
        bytes: Option<Seq<u8>>,
        post: State,
        left: Fragmentizer,
        answer: Option<Answer>,
    ) -> bool {
        let (kept, parsed) = self.stepped(fragmentizer, bytes);
        &&& left == parsed
        &&& match self {
            State::Selecting { select, store } => match select_step(select, fragmentizer, bytes) {
                Outcome::Done(_) => post == (State::Storing { store }) && answer is None,
                Outcome::Failed(err) => post is Done && answer == Some(
                    Answer::Failed(ImapMessageDeleteError::Select(err)),
                ),
                wait => post == kept && answer is Some && answer->0.forwards(wait),
            },
            State::Storing { store } => match store_step(store, fragmentizer, bytes) {
                Outcome::Done(_) => post is Expunging && post.live() && answer is None,
                Outcome::Failed(err) => post is Done && answer == Some(
                    Answer::Failed(ImapMessageDeleteError::Store(err)),
                ),
                wait => post == kept && answer is Some && answer->0.forwards(wait),
            },
            State::Expunging { expunge } => match expunge_step(expunge, fragmentizer, bytes) {
                Outcome::Done(_) => post is Done && answer == Some(Answer::Done(())),
                Outcome::Failed(err) => post is Done && answer == Some(
                    Answer::Failed(ImapMessageDeleteError::Expunge(err)),
                ),
                wait => post == kept && answer is Some && answer->0.forwards(wait),
            },
            State::Done => post is Done && answer == Some(
                Answer::Failed(ImapMessageDeleteError::ResumedAfterDone),
            ),
        }
    }
}

/// I/O-free coroutine deleting and expunging a single UID.
pub struct ImapMessageDelete {
    state: State,
}

impl View for ImapMessageDelete {
    type V = State;

    closed spec fn view(&self) -> State {
        self.state
    }
}

impl ImapMessageDelete {
    #[verifier::type_invariant]
    closed spec fn inv(self) -> bool {
        self.state.live()
    }

    pub fn new(mailbox: &str, id: &str, auto_select: bool) -> (r: Result<
        ImapMessageDelete,
        ImapMessageDeleteError,
    >)
        ensures
            match r {
                Ok(run) => {
                    let request = Some(
                        StoreRequest {
                            set: uid_items(seq![uid_of(id@)->0]),
                            op: FlagOp::Add,
                            flags: seq![ImapFlagView::Deleted],
                            uid: true,
                        },
                    );
                    &&& transmissible(mailbox@) && uid_of(id@) is Some
                    &&& match run@ {
                        State::Selecting { select, store } => auto_select && select_request(select)
                            == Some(mailbox@) && store_request(store) == request,
                        State::Storing { store } => !auto_select && store_request(store) == request,
                        _ => false,
                    }
                },
                Err(ImapMessageDeleteError::InvalidMailbox(name)) => !transmissible(mailbox@) && name@
                    == mailbox@,
                Err(ImapMessageDeleteError::InvalidUid(name)) => transmissible(mailbox@) && uid_of(
                    id@,
                ) is None && name@ == id@,
                Err(_) => false,
            },
    {
        let mailbox = match parse_mailbox(mailbox) {
            Ok(mailbox) => mailbox,
            Err(InvalidMailboxName(name)) => {
                return Err(ImapMessageDeleteError::InvalidMailbox(name));
            },
        };
        let ids: [&str; 1] = [id];
        proof {
            assert(ids@ =~= seq![id]);
            assert(ids@.drop_first() =~= seq![]);
            reveal_with_fuel(crate::imap::convert::first_bad, 2);
        }
        let uids = match parse_uids(&ids) {
            Ok(uids) => uids,
            Err(InvalidUidSet::Empty) => return Err(ImapMessageDeleteError::EmptyUidSet),
            Err(InvalidUidSet::Invalid(id)) => return Err(ImapMessageDeleteError::InvalidUid(id)),
        };
        let deleted: [Flag; 1] = [Flag::from_iana(IanaFlag::Deleted)];
        proof {
            assert(uids@ =~= seq![uid_of(id@)->0]);
            law_spelling_parses_back(IanaFlag::Deleted);
            reveal_strlit("\\Deleted");
            assert(imap_flags(deleted@) =~= seq![ImapFlagView::Deleted]);
        }
        let store = store_new(uid_sequence_set(&uids), FlagOp::Add, wire_flags(&deleted), true);
        let state = if auto_select {
            State::Selecting { select: select_new(&mailbox), store }
        } else {
            State::Storing { store }
        };
        Ok(ImapMessageDelete { state })
    }

    /// Advances the coroutine: with no bytes at first and after a write,
    /// with what was read after a read.
    pub fn resume(&mut self, fragmentizer: &mut Fragmentizer, bytes: Option<&[u8]>) -> (r: Step)
        ensures
            resumed(old(self)@, *old(fragmentizer), fed(bytes), final(self)@, *final(fragmentizer), r.outcome()),
        decreases old(self)@.rank(),
    {
        proof {
            use_type_invariant(&*self);
        }
        let ghost pre = self@;
        let ghost f = *fragmentizer;
        let mut state = State::Done;
        core::mem::swap(&mut self.state, &mut state);
        match state {
            State::Selecting { mut select, store } => {
                match select_resume(&mut select, fragmentizer, bytes) {
                    EmailCoroutineState::Yielded(step) => {
                        self.state = State::Selecting { select, store };
                        EmailCoroutineState::Yielded(step)
                    },
                    EmailCoroutineState::Complete(Ok(_)) => {
                        self.state = State::Storing { store };
                        proof {
                            assert(hands_over(pre, f, fed(bytes), self@, *fragmentizer));
                        }
                        self.resume(fragmentizer, None)
                    },
                    EmailCoroutineState::Complete(Err(err)) => EmailCoroutineState::Complete(
                        Err(ImapMessageDeleteError::Select(err)),
                    ),
                }
            },
            State::Storing { mut store } => match store_resume(&mut store, fragmentizer, bytes) {
                EmailCoroutineState::Yielded(step) => {
                    self.state = State::Storing { store };
                    EmailCoroutineState::Yielded(step)
                },
                EmailCoroutineState::Complete(Ok(_)) => {
                    self.state = State::Expunging { expunge: expunge_new() };
                    proof {
                        assert(hands_over(pre, f, fed(bytes), self@, *fragmentizer));
                    }
                    self.resume(fragmentizer, None)
                },
                EmailCoroutineState::Complete(Err(err)) => EmailCoroutineState::Complete(
                    Err(ImapMessageDeleteError::Store(err)),
                ),
            },
            State::Expunging { mut expunge } => {
                match expunge_resume(&mut expunge, fragmentizer, bytes) {
                    EmailCoroutineState::Yielded(step) => {
                        self.state = State::Expunging { expunge };
                        EmailCoroutineState::Yielded(step)
                    },
                    EmailCoroutineState::Complete(Ok(_)) => EmailCoroutineState::Complete(Ok(())),
                    EmailCoroutineState::Complete(Err(err)) => EmailCoroutineState::Complete(
                        Err(ImapMessageDeleteError::Expunge(err)),
                    ),
                }
            },
            State::Done => EmailCoroutineState::Complete(
                Err(ImapMessageDeleteError::ResumedAfterDone),
            ),
        }
    }
}

impl EmailCoroutine for ImapMessageDelete {
    type Yield = ImapStep;

    type Return = Result<(), ImapMessageDeleteError>;

    const BACKEND: EmailBackend = EmailBackend::Imap;

    open spec fn ready(self) -> bool {
        true
    }

    open spec fn advances(
        pre: ImapMessageDelete,
        arg: EmailCoroutineArg<'_>,
        post: ImapMessageDelete,
        left: Option<Fragmentizer>,
        r: Step,
    ) -> bool {
        match arg {
            EmailCoroutineArg::Imap { fragmentizer, bytes } => {
                &&& left matches Some(left)
                &&& resumed(pre@, *fragmentizer, fed(bytes), post@, left, r.outcome())
            },
            _ => post == pre && r == Step::Complete(Err(ImapMessageDeleteError::InvalidArg)),
        }
    }

    fn resume(&mut self, arg: EmailCoroutineArg<'_>) -> (r: Step) {
        match arg {
            EmailCoroutineArg::Imap { fragmentizer, bytes } => ImapMessageDelete::resume(self, fragmentizer, bytes),
            _ => EmailCoroutineState::Complete(Err(ImapMessageDeleteError::InvalidArg)),
        }
    }
}

/// A deletion succeeds only when the server has marked the messages, after the
/// SELECT where there is one, and has expunged them.
pub proof fn law_success_is_the_servers(
    pre: State,
    fragmentizer: Fragmentizer,
    bytes: Option<Seq<u8>>,
    post: State,
    left: Fragmentizer,
    answer: Answer,
)
    requires
        resumed(pre, fragmentizer, bytes, post, left, answer),
    ensures
        answer is Done ==> post is Done && !(pre is Done),
        pre matches State::Expunging { expunge } ==> (answer is Done <==> expunge_step(
            expunge,
            fragmentizer,
            bytes,
        ) is Done),
        pre matches State::Storing { store } ==> (answer is Done ==> store_step(
            store,
            fragmentizer,
            bytes,
        ) is Done && exists|expunge: ImapMailboxExpunge|
            (#[trigger] expunge_step(expunge, store_left(store, fragmentizer, bytes).1, None)) is Done),
        pre matches State::Selecting { select, store } ==> (answer is Done ==> select_step(
            select,
            fragmentizer,
            bytes,
        ) is Done && store_step(store, select_left(select, fragmentizer, bytes).1, None) is Done),
    decreases pre.rank(),
{
    if !pre.stage(fragmentizer, bytes, post, left, Some(answer)) {
        let (mid, between) = choose|mid: State, between: Fragmentizer|
            #[trigger] hands_over(pre, fragmentizer, bytes, mid, between) && resumed(
                mid,
                between,
                None,
                post,
                left,
                answer,
            );
        law_success_is_the_servers(mid, between, None, post, left, answer);
    }
}

/// What an exchange waits for is passed on as it is, and what it fails with is
/// told and ends the run; a run that is over stays over.
pub proof fn law_waits_and_failures_are_told(
    pre: State,
    fragmentizer: Fragmentizer,
    bytes: Option<Seq<u8>>,
    post: State,
    left: Fragmentizer,
    answer: Answer,
)
    requires
        resumed(pre, fragmentizer, bytes, post, left, answer),
    ensures
        pre matches State::Selecting { select, .. } ==> {
            &&& select_step(select, fragmentizer, bytes) is Read ==> answer is Read
            &&& select_step(select, fragmentizer, bytes) matches Outcome::Write(out) ==> answer == Answer::Write(out)
            &&& select_step(select, fragmentizer, bytes) matches Outcome::Failed(err) ==> post is Done && answer == Answer::Failed(
                ImapMessageDeleteError::Select(err),
            )
        },
        pre matches State::Storing { store } ==> {
            &&& store_step(store, fragmentizer, bytes) is Read ==> answer is Read
            &&& store_step(store, fragmentizer, bytes) matches Outcome::Write(out) ==> answer == Answer::Write(out)
            &&& store_step(store, fragmentizer, bytes) matches Outcome::Failed(err) ==> post is Done && answer == Answer::Failed(
                ImapMessageDeleteError::Store(err),
            )
        },
        pre matches State::Expunging { expunge } ==> {
            &&& expunge_step(expunge, fragmentizer, bytes) is Read ==> answer is Read
            &&& expunge_step(expunge, fragmentizer, bytes) matches Outcome::Write(out) ==> answer == Answer::Write(out)
            &&& expunge_step(expunge, fragmentizer, bytes) matches Outcome::Failed(err) ==> post is Done && answer == Answer::Failed(
                ImapMessageDeleteError::Expunge(err),
            )
        },
        pre is Done ==> post is Done && answer == Answer::Failed(ImapMessageDeleteError::ResumedAfterDone),
{
    if !pre.stage(fragmentizer, bytes, post, left, Some(answer)) {
        let (mid, between) = choose|mid: State, between: Fragmentizer|
            #[trigger] hands_over(pre, fragmentizer, bytes, mid, between) && resumed(
                mid,
                between,
                None,
                post,
                left,
                answer,
            );
        assert(pre.stage(fragmentizer, bytes, mid, between, None));
    }
}

} // verus!
