//! IMAP message-copy coroutine: optional SELECT, then UID COPY (RFC 3501
//! section 6.4.7).
use vstd::prelude::*;

use io_imap::codec::fragmentizer::Fragmentizer;
use io_imap::rfc3501::copy::{
    ImapMessageCopy as InnerImapMessageCopy, ImapMessageCopyError as InnerImapMessageCopyError,
};
use io_imap::rfc3501::select::{ImapMailboxSelect, ImapMailboxSelectError};

use crate::coroutine::{
    fed, hands_over, resumed, EmailCoroutineState, ImapStep, Outcome, Stages,
};
use crate::imap::convert::{
    first_bad, law_uids_are_read_in_order, parse_mailbox, parse_uids, transmissible, uid_of,
    uids_of, InvalidMailboxName, InvalidUidSet,
};
use crate::imap::wire::{
    copy_left, copy_new, copy_request, copy_resume, copy_step, select_left, select_new,
    select_request, select_resume, select_step, uid_items, uid_sequence_set, CopyRequest,
};

verus! {

/// Errors produced by [`ImapMessageCopy`].
#[derive(Debug)]
pub enum ImapMessageCopyError {
    Select(ImapMailboxSelectError),
    Copy(InnerImapMessageCopyError),
    InvalidMailbox(String),
    InvalidUid(String),
    EmptyUidSet,
    ResumedAfterDone,
}

/// I/O-free coroutine copying a UID set across mailboxes.
pub struct ImapMessageCopy {
    state: State,
}

/// Where a message copy stands.
pub enum State {
    Selecting { select: ImapMailboxSelect, copy: InnerImapMessageCopy },
    Copying { copy: InnerImapMessageCopy },
    Done,
}

impl State {
    /// Whether the exchanges under way and to come are not over.
    pub open spec fn live(self) -> bool {
        match self {
            State::Selecting { select, copy } => select_request(select) is Some && copy_request(
                copy,
            ) is Some,
            State::Copying { copy } => copy_request(copy) is Some,
            State::Done => true,
        }
    }

    /// Where a step leaves the exchange under way, and the parser with it.
    pub open spec fn stepped(self, fragmentizer: Fragmentizer, bytes: Option<Seq<u8>>) -> (
        State,
        Fragmentizer,
    ) {
        match self {
            State::Selecting { select, copy } => {
                let (select, parsed) = select_left(select, fragmentizer, bytes);
                (State::Selecting { select, copy }, parsed)
            },
            State::Copying { copy } => {
                let (copy, parsed) = copy_left(copy, fragmentizer, bytes);
                (State::Copying { copy }, parsed)
            },
            State::Done => (self, fragmentizer),
        }
    }
}

pub type Answer = Outcome<(), ImapMessageCopyError>;

/// What a resume returns.
pub type Step = EmailCoroutineState<ImapStep, Result<(), ImapMessageCopyError>>;

impl Stages for State {
    type Context = Fragmentizer;

    type Answer = Answer;

    open spec fn rank(self) -> nat {
        match self {
            State::Selecting { .. } => 2,
            State::Copying { .. } => 1,
            State::Done => 0,
        }
    }

    open spec fn stage(
        self,
        fragmentizer: Fragmentizer,
        bytes: Option<Seq<u8>>,
        post: State,
        left: Fragmentizer,
        answer: Option<Answer>,
    ) -> bool {
        let (kept, parsed) = self.stepped(fragmentizer, bytes);
        &&& left == parsed
        &&& match self {
            State::Selecting { select, copy } => match select_step(select, fragmentizer, bytes) {
                Outcome::Done(_) => post == (State::Copying { copy }) && answer is None,
                Outcome::Failed(err) => post is Done && answer == Some(
                    Answer::Failed(ImapMessageCopyError::Select(err)),
                ),
                wait => post == kept && answer is Some && answer->0.forwards(wait),
            },
            State::Copying { copy } => match copy_step(copy, fragmentizer, bytes) {
                Outcome::Done(_) => post is Done && answer == Some(Answer::Done(())),
                Outcome::Failed(err) => post is Done && answer == Some(
                    Answer::Failed(ImapMessageCopyError::Copy(err)),
                ),
                wait => post == kept && answer is Some && answer->0.forwards(wait),
            },
            State::Done => post is Done && answer == Some(
                Answer::Failed(ImapMessageCopyError::ResumedAfterDone),
            ),
        }
    }
}

impl View for ImapMessageCopy {
    type V = State;

    closed spec fn view(&self) -> State {
        self.state
    }
}

/// What is wrong with a request to copy: the first of source, target and
/// ids that is not valid.
pub open spec fn refused(
    err: ImapMessageCopyError,
    from: Seq<char>,
    to: Seq<char>,
    ids: Seq<&str>,
) -> bool {
    match err {
        ImapMessageCopyError::InvalidMailbox(name) => if transmissible(from) {
            !transmissible(to) && name@ == to
        } else {
            name@ == from
        },
        ImapMessageCopyError::EmptyUidSet => transmissible(from) && transmissible(to) && ids.len() == 0,
        ImapMessageCopyError::InvalidUid(id) => transmissible(from) && transmissible(to) && ids.len()
            > 0 && first_bad(ids) == Some(id@),
        _ => false,
    }
}

impl ImapMessageCopy {
    #[verifier::type_invariant]
    closed spec fn inv(self) -> bool {
        self.state.live()
    }

    pub fn new(from: &str, to: &str, ids: &[&str], auto_select: bool) -> (r: Result<
        ImapMessageCopy,
        ImapMessageCopyError,
    >)
        ensures
            match r {
                Ok(run) => {
                    let request = Some(
                        CopyRequest {
                            set: uid_items(uids_of(ids@)->Ok_0),
                            mailbox: to@,
                            uid: true,
                        },
                    );
                    &&& transmissible(from@) && transmissible(to@) && uids_of(ids@) is Ok
                    &&& match run@ {
                        State::Selecting { select, copy } => auto_select && select_request(select)
                            == Some(from@) && copy_request(copy) == request,
                        State::Copying { copy } => !auto_select && copy_request(copy) == request,
                        State::Done => false,
                    }
                },
                Err(err) => refused(err, from@, to@, ids@),
            },
    {
        let source = match parse_mailbox(from) {
            Ok(mailbox) => mailbox,
            Err(InvalidMailboxName(name)) => {
                return Err(ImapMessageCopyError::InvalidMailbox(name));
            },
        };
        let target = match parse_mailbox(to) {
            Ok(mailbox) => mailbox,
            Err(InvalidMailboxName(name)) => {
                return Err(ImapMessageCopyError::InvalidMailbox(name));
            },
        };
        let uids = match parse_uids(ids) {
            Ok(uids) => uids,
            Err(InvalidUidSet::Empty) => return Err(ImapMessageCopyError::EmptyUidSet),
            Err(InvalidUidSet::Invalid(id)) => return Err(ImapMessageCopyError::InvalidUid(id)),
        };
        let copy = copy_new(uid_sequence_set(&uids), &target, true);
        let state = if auto_select {
            State::Selecting { select: select_new(&source), copy }
        } else {
            State::Copying { copy }
        };
        Ok(ImapMessageCopy { state })
    }

    /// Advances the coroutine: with no bytes at first and after a write,
    /// with what was read after a read.
    pub fn resume(&mut self, fragmentizer: &mut Fragmentizer, bytes: Option<&[u8]>) -> (r: Step)
        ensures
            resumed(old(self)@, *old(fragmentizer), fed(bytes), final(self)@, *final(fragmentizer), r.outcome()),
        decreases old(self)@.rank(),
    {
        proof {
            use_type_invariant(&*self);
        }
        let ghost pre = self@;
        let ghost f = *fragmentizer;
        let mut state = State::Done;
        core::mem::swap(&mut self.state, &mut state);
        match state {
            State::Selecting { mut select, copy } => {
                match select_resume(&mut select, fragmentizer, bytes) {
                    EmailCoroutineState::Yielded(step) => {
                        self.state = State::Selecting { select, copy };
                        EmailCoroutineState::Yielded(step)
                    },
                    EmailCoroutineState::Complete(Ok(_)) => {
                        self.state = State::Copying { copy };
                        proof {
                            assert(hands_over(pre, f, fed(bytes), self@, *fragmentizer));
                        }
                        self.resume(fragmentizer, None)
                    },
                    EmailCoroutineState::Complete(Err(err)) => EmailCoroutineState::Complete(
                        Err(ImapMessageCopyError::Select(err)),
                    ),
                }
            },
            State::Copying { mut copy } => match copy_resume(&mut copy, fragmentizer, bytes) {
                EmailCoroutineState::Yielded(step) => {
                    self.state = State::Copying { copy };
                    EmailCoroutineState::Yielded(step)
                },
                EmailCoroutineState::Complete(Ok(_)) => EmailCoroutineState::Complete(Ok(())),
                EmailCoroutineState::Complete(Err(err)) => EmailCoroutineState::Complete(
                    Err(ImapMessageCopyError::Copy(err)),
                ),
            },
            State::Done => EmailCoroutineState::Complete(Err(ImapMessageCopyError::ResumedAfterDone)),
        }
    }
}

/// A copy succeeds exactly when the server has accepted the COPY, after the
/// SELECT where there is one.
pub proof fn law_success_is_the_servers(
    pre: State,
    fragmentizer: Fragmentizer,
    bytes: Option<Seq<u8>>,
    post: State,
    left: Fragmentizer,
    answer: Answer,
)
    requires
        resumed(pre, fragmentizer, bytes, post, left, answer),
    ensures
        answer is Done ==> post is Done && !(pre is Done),
        pre matches State::Copying { copy } ==> (answer is Done <==> copy_step(
            copy,
            fragmentizer,
            bytes,
        ) is Done),
        pre matches State::Selecting { select, copy } ==> (answer is Done <==> select_step(
            select,
            fragmentizer,
            bytes,
        ) is Done && copy_step(copy, select_left(select, fragmentizer, bytes).1, None) is Done),
    decreases pre.rank(),
{
    if !pre.stage(fragmentizer, bytes, post, left, Some(answer)) {
        let (mid, between) = choose|mid: State, between: Fragmentizer|
            #[trigger] hands_over(pre, fragmentizer, bytes, mid, between) && resumed(
                mid,
                between,
                None,
                post,
                left,
                answer,
            );
        law_success_is_the_servers(mid, between, None, post, left, answer);
    }
}

/// What an exchange waits for is passed on as it is, and what it fails with is
/// told and ends the run; a run that is over stays over.
pub proof fn law_waits_and_failures_are_told(
    pre: State,
    fragmentizer: Fragmentizer,
    bytes: Option<Seq<u8>>,
    post: State,
    left: Fragmentizer,
    answer: Answer,
)
    requires
        resumed(pre, fragmentizer, bytes, post, left, answer),
    ensures
        pre matches State::Selecting { select, .. } ==> {
            &&& select_step(select, fragmentizer, bytes) is Read ==> answer is Read
            &&& select_step(select, fragmentizer, bytes) matches Outcome::Write(out) ==> answer == Answer::Write(out)
            &&& select_step(select, fragmentizer, bytes) matches Outcome::Failed(err) ==> post is Done && answer == Answer::Failed(
                ImapMessageCopyError::Select(err),
            )
        },
        pre matches State::Copying { copy } ==> {
            &&& copy_step(copy, fragmentizer, bytes) is Read ==> answer is Read
            &&& copy_step(copy, fragmentizer, bytes) matches Outcome::Write(out) ==> answer == Answer::Write(out)
            &&& copy_step(copy, fragmentizer, bytes) matches Outcome::Failed(err) ==> post is Done && answer == Answer::Failed(
                ImapMessageCopyError::Copy(err),
            )
        },
        pre is Done ==> post is Done && answer == Answer::Failed(ImapMessageCopyError::ResumedAfterDone),
{
    if !pre.stage(fragmentizer, bytes, post, left, Some(answer)) {
        let (mid, between) = choose|mid: State, between: Fragmentizer|
            #[trigger] hands_over(pre, fragmentizer, bytes, mid, between) && resumed(
                mid,
                between,
                None,
                post,
                left,
                answer,
            );
        assert(pre.stage(fragmentizer, bytes, mid, between, None));
    }
}

/// What is refused is at fault: a mailbox name that is told cannot travel, an
/// id that is told is no UID and is among those given, and a set is told to be
/// empty only where it is. A request without a fault is not refused.
pub proof fn law_refused_for_a_fault(err: ImapMessageCopyError, from: Seq<char>, to: Seq<char>, ids: Seq<&str>)
    requires
        refused(err, from, to, ids),
    ensures
        err matches ImapMessageCopyError::InvalidMailbox(name) ==> !transmissible(name@) && (name@ == from || name@ == to),
        err matches ImapMessageCopyError::InvalidUid(id) ==> uid_of(id@) is None && exists|i: int|
            0 <= i < ids.len() && (#[trigger] ids[i])@ == id@,
        err is EmptyUidSet ==> ids.len() == 0,
        err is InvalidMailbox || err is InvalidUid || err is EmptyUidSet,
{
    law_uids_are_read_in_order(ids);
}

} // verus!
