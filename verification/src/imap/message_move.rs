//! IMAP message-move coroutine: optional SELECT, then UID MOVE (RFC 6851).
//!
//! The coroutine runs up to the MOVE and completes with the order for it;
//! the driver runs the MOVE exchange.
use vstd::prelude::*;

use io_imap::codec::fragmentizer::Fragmentizer;
use io_imap::rfc3501::select::{ImapMailboxSelect, ImapMailboxSelectError};

use crate::coroutine::{
    fed, hands_over, resumed, EmailCoroutineState, ImapStep, Outcome, Stages,
};
use crate::imap::convert::{
    first_bad, law_uids_are_read_in_order, parse_mailbox, parse_uids, transmissible, uid_of,
    uids_of, ImapMailbox, InvalidMailboxName, InvalidUidSet, UidSet,
};
use crate::imap::wire::{
    select_left, select_new, select_request, select_resume, select_step,
};

verus! {

/// Errors produced by [`ImapMessageMove`].
#[derive(Debug)]
pub enum ImapMessageMoveError {
    Select(ImapMailboxSelectError),
    InvalidMailbox(String),
    InvalidUid(String),
    EmptyUidSet,
    ResumedAfterDone,
}

/// The messages to move, by UID, and where to.
#[derive(Debug)]
pub struct MoveOrder {
    pub uids: UidSet,
    pub mailbox: ImapMailbox,
}

/// What a [`MoveOrder`] says.
pub struct MoveOrderView {
    pub uids: Seq<u32>,
    pub mailbox: Seq<char>,
}

impl DeepView for MoveOrder {
    type V = MoveOrderView;

    open spec fn deep_view(&self) -> MoveOrderView {
        MoveOrderView { uids: self.uids@, mailbox: self.mailbox@ }
    }
}

/// Where a move stands.
pub enum State {
    Selecting { select: ImapMailboxSelect, order: MoveOrder },
    Moving { order: MoveOrder },
    Done,
}

impl State {
    /// Whether the exchange under way is not over.
    pub open spec fn live(self) -> bool {
        self matches State::Selecting { select, .. } ==> select_request(select) is Some
    }

    /// Where a step leaves the exchange under way, and the parser with it.
    pub open spec fn stepped(self, fragmentizer: Fragmentizer, bytes: Option<Seq<u8>>) -> (
        State,
        Fragmentizer,
    ) {
        match self {
            State::Selecting { select, order } => {
                let (select, parsed) = select_left(select, fragmentizer, bytes);
                (State::Selecting { select, order }, parsed)
            },
            _ => (self, fragmentizer),
        }
    }
}

pub type Answer = Outcome<MoveOrderView, ImapMessageMoveError>;

/// What a resume returns.
pub type Step = EmailCoroutineState<ImapStep, Result<MoveOrder, ImapMessageMoveError>>;

impl Stages for State {
    type Context = Fragmentizer;

    type Answer = Answer;

    open spec fn rank(self) -> nat {
        match self {
            State::Selecting { .. } => 2,
            State::Moving { .. } => 1,
            State::Done => 0,
        }
    }

    open spec fn stage(
        self,
        fragmentizer: Fragmentizer,
        bytes: Option<Seq<u8>>,
        post: State,
        left: Fragmentizer,
        answer: Option<Answer>,
    ) -> bool {
        let (kept, parsed) = self.stepped(fragmentizer, bytes);
        &&& left == parsed
        &&& match self {
            State::Selecting { select, order } => match select_step(select, fragmentizer, bytes) {
                Outcome::Done(_) => post == (State::Moving { order }) && answer is None,
                Outcome::Failed(err) => post is Done && answer == Some(
                    Answer::Failed(ImapMessageMoveError::Select(err)),
                ),
                wait => post == kept && answer is Some && answer->0.forwards(wait),
            },
            State::Moving { order } => post is Done && answer == Some(Answer::Done(order.deep_view())),
            State::Done => post is Done && answer == Some(
                Answer::Failed(ImapMessageMoveError::ResumedAfterDone),
            ),
        }
    }
}

/// I/O-free coroutine moving a UID set across mailboxes.
pub struct ImapMessageMove {
    state: State,
}

impl View for ImapMessageMove {
    type V = State;

    closed spec fn view(&self) -> State {
        self.state
    }
}

/// What is wrong with a request to move: the first of source, target and
/// ids that is not valid.
pub open spec fn refused(
    err: ImapMessageMoveError,
    from: Seq<char>,
    to: Seq<char>,
    ids: Seq<&str>,
) -> bool {
    match err {
        ImapMessageMoveError::InvalidMailbox(name) => if transmissible(from) {
            !transmissible(to) && name@ == to
        } else {
            name@ == from
        },
        ImapMessageMoveError::EmptyUidSet => transmissible(from) && transmissible(to) && ids.len() == 0,
        ImapMessageMoveError::InvalidUid(id) => transmissible(from) && transmissible(to) && ids.len()
            > 0 && first_bad(ids) == Some(id@),
        _ => false,
    }
}

impl ImapMessageMove {
    #[verifier::type_invariant]
    closed spec fn inv(self) -> bool {
        self.state.live()
    }

    pub fn new(from: &str, to: &str, ids: &[&str], auto_select: bool) -> (r: Result<
        ImapMessageMove,
        ImapMessageMoveError,
    >)
        ensures
            match r {
                Ok(run) => {
                    let view = MoveOrderView { uids: uids_of(ids@)->Ok_0, mailbox: to@ };
                    &&& transmissible(from@) && transmissible(to@) && uids_of(ids@) is Ok
                    &&& match run@ {
                        State::Selecting { select, order } => auto_select && select_request(select)
                            == Some(from@) && order.deep_view() == view,
                        State::Moving { order } => !auto_select && order.deep_view() == view,
                        State::Done => false,
                    }
                },
                Err(err) => refused(err, from@, to@, ids@),
            },
    {
        let source = match parse_mailbox(from) {
            Ok(mailbox) => mailbox,
            Err(InvalidMailboxName(name)) => {
                return Err(ImapMessageMoveError::InvalidMailbox(name));
            },
        };
        let mailbox = match parse_mailbox(to) {
            Ok(mailbox) => mailbox,
            Err(InvalidMailboxName(name)) => {
                return Err(ImapMessageMoveError::InvalidMailbox(name));
            },
        };
        let uids = match parse_uids(ids) {
            Ok(uids) => uids,
            Err(InvalidUidSet::Empty) => return Err(ImapMessageMoveError::EmptyUidSet),
            Err(InvalidUidSet::Invalid(id)) => return Err(ImapMessageMoveError::InvalidUid(id)),
        };
        let order = MoveOrder { uids, mailbox };
        let state = if auto_select {
            State::Selecting { select: select_new(&source), order }
        } else {
            State::Moving { order }
        };
        Ok(ImapMessageMove { state })
    }

    /// Advances the coroutine: with no bytes at first and after a write,
    /// with what was read after a read.
    pub fn resume(&mut self, fragmentizer: &mut Fragmentizer, bytes: Option<&[u8]>) -> (r: Step)
        ensures
            resumed(old(self)@, *old(fragmentizer), fed(bytes), final(self)@, *final(fragmentizer), r.outcome()),
        decreases old(self)@.rank(),
    {
        proof {
            use_type_invariant(&*self);
        }
        let ghost pre = self@;
        let ghost f = *fragmentizer;
        let mut state = State::Done;
        core::mem::swap(&mut self.state, &mut state);
        match state {
            State::Selecting { mut select, order } => {
                match select_resume(&mut select, fragmentizer, bytes) {
                    EmailCoroutineState::Yielded(step) => {
                        self.state = State::Selecting { select, order };
                        EmailCoroutineState::Yielded(step)
                    },
                    EmailCoroutineState::Complete(Ok(_)) => {
                        self.state = State::Moving { order };
                        proof {
                            assert(hands_over(pre, f, fed(bytes), self@, *fragmentizer));
                        }
                        self.resume(fragmentizer, None)
                    },
                    EmailCoroutineState::Complete(Err(err)) => EmailCoroutineState::Complete(
                        Err(ImapMessageMoveError::Select(err)),
                    ),
                }
            },
            State::Moving { order } => EmailCoroutineState::Complete(Ok(order)),
            State::Done => EmailCoroutineState::Complete(Err(ImapMessageMoveError::ResumedAfterDone)),
        }
    }
}

/// A move is handed on exactly as it was ordered, and only once the server
/// has accepted the SELECT where there is one.
pub proof fn law_success_is_the_servers(
    pre: State,
    fragmentizer: Fragmentizer,
    bytes: Option<Seq<u8>>,
    post: State,
    left: Fragmentizer,
    answer: Answer,
)
    requires
        resumed(pre, fragmentizer, bytes, post, left, answer),
    ensures
        answer is Done ==> post is Done && !(pre is Done),
        pre matches State::Moving { order } ==> answer == Answer::Done(order.deep_view()),
        pre matches State::Selecting { select, order } ==> (answer is Done <==> select_step(
            select,
            fragmentizer,
            bytes,
        ) is Done) && (answer matches Answer::Done(done) ==> done == order.deep_view()),
    decreases pre.rank(),
{
    if !pre.stage(fragmentizer, bytes, post, left, Some(answer)) {
        let (mid, between) = choose|mid: State, between: Fragmentizer|
            #[trigger] hands_over(pre, fragmentizer, bytes, mid, between) && resumed(
                mid,
                between,
                None,
                post,
                left,
                answer,
            );
        law_success_is_the_servers(mid, between, None, post, left, answer);
    }
}

/// What an exchange waits for is passed on as it is, and what it fails with is
/// told and ends the run; a run that is over stays over.
pub proof fn law_waits_and_failures_are_told(
    pre: State,
    fragmentizer: Fragmentizer,
    bytes: Option<Seq<u8>>,
    post: State,
    left: Fragmentizer,
    answer: Answer,
)
    requires
        resumed(pre, fragmentizer, bytes, post, left, answer),
    ensures
        pre matches State::Selecting { select, .. } ==> {
            &&& select_step(select, fragmentizer, bytes) is Read ==> answer is Read
            &&& select_step(select, fragmentizer, bytes) matches Outcome::Write(out) ==> answer == Answer::Write(out)
            &&& select_step(select, fragmentizer, bytes) matches Outcome::Failed(err) ==> post is Done && answer == Answer::Failed(
                ImapMessageMoveError::Select(err),
            )
        },
        pre is Done ==> post is Done && answer == Answer::Failed(ImapMessageMoveError::ResumedAfterDone),
{
    if !pre.stage(fragmentizer, bytes, post, left, Some(answer)) {
        let (mid, between) = choose|mid: State, between: Fragmentizer|
            #[trigger] hands_over(pre, fragmentizer, bytes, mid, between) && resumed(
                mid,
                between,
                None,
                post,
                left,
                answer,
            );
        assert(pre.stage(fragmentizer, bytes, mid, between, None));
    }
}

/// What is refused is at fault: a mailbox name that is told cannot travel, an
/// id that is told is no UID and is among those given, and a set is told to be
/// empty only where it is. A request without a fault is not refused.
pub proof fn law_refused_for_a_fault(err: ImapMessageMoveError, from: Seq<char>, to: Seq<char>, ids: Seq<&str>)
    requires
        refused(err, from, to, ids),
    ensures
        err matches ImapMessageMoveError::InvalidMailbox(name) ==> !transmissible(name@) && (name@ == from || name@ == to),
        err matches ImapMessageMoveError::InvalidUid(id) ==> uid_of(id@) is None && exists|i: int|
            0 <= i < ids.len() && (#[trigger] ids[i])@ == id@,
        err is EmptyUidSet ==> ids.len() == 0,
        err is InvalidMailbox || err is InvalidUid || err is EmptyUidSet,
{
    law_uids_are_read_in_order(ids);
}

} // verus!
