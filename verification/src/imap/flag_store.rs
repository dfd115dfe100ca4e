//! IMAP flag-store coroutine: optional SELECT, then UID STORE (RFC 3501
//! section 6.4.6).
use vstd::prelude::*;

use io_imap::codec::fragmentizer::Fragmentizer;
use io_imap::rfc3501::select::{ImapMailboxSelect, ImapMailboxSelectError};
use io_imap::rfc3501::store::{ImapMessageStore, ImapMessageStoreError};
use io_imap::types::flag::Flag as WireFlag;
use io_imap::types::sequence::SequenceSet;

use crate::coroutine::{
    fed, hands_over, resumed, EmailCoroutineState, ImapStep, Outcome, Stages,
};
use crate::flag::types::{Flag, FlagOp};
use crate::imap::convert::{
    first_bad, flag_from, imap_flag, law_uids_are_read_in_order, parse_mailbox, parse_uids,
    transmissible, uid_of, uids_of, ImapFlagView, ImapMailbox, InvalidMailboxName, InvalidUidSet,
};
use crate::imap::wire::{
    select_left, select_new, select_request, select_resume, select_step, set_items, store_left,
    store_new, store_request, store_resume, store_step, uid_items, uid_sequence_set, wire_flag,
    wire_flag_content, wire_flags_content, StoreRequest,
};

verus! {

/// Errors produced by [`ImapFlagStore`].
#[derive(Debug)]
pub enum ImapFlagStoreError {
    Select(ImapMailboxSelectError),
    Store(ImapMessageStoreError),
    InvalidMailbox(String),
    EmptyUidSet,
    InvalidUid(String),
    ResumedAfterDone,
}

/// Whether every flag has a spelling.
pub open spec fn spelled(flags: Seq<Flag>) -> bool {
    forall|i: int| 0 <= i < flags.len() ==> (#[trigger] flags[i])@.len() > 0
}

/// The IMAP counterparts of flags.
pub open spec fn imap_flags(flags: Seq<Flag>) -> Seq<ImapFlagView> {
    flags.map_values(|flag: Flag| imap_flag(flag@))
}

/// The IMAP counterparts of flags, as `imap_types` holds them.
pub(crate) fn wire_flags(flags: &[Flag]) -> (r: Vec<WireFlag<'static>>)
    requires
        spelled(flags@),
    ensures
        wire_flags_content(r@) == imap_flags(flags@),
{
    let mut out: Vec<WireFlag<'static>> = Vec::new();
    let mut i: usize = 0;
    while i < flags.len()
        invariant
            i <= flags@.len(),
            spelled(flags@),
            out@.len() == i,
            forall|j: int|
                0 <= j < i ==> wire_flag_content(#[trigger] out@[j]) == imap_flag(flags@[j]@),
        decreases flags@.len() - i,
    {
        let flag = flag_from(&flags[i]);
        out.push(wire_flag(&flag));
        i = i + 1;
    }
    proof {
        assert(wire_flags_content(out@) =~= imap_flags(flags@));
    }
    out
}

/// I/O-free coroutine adding, setting or removing flags on a UID set.
pub struct ImapFlagStore {
    state: State,
}

/// Where a flag store stands.
pub enum State {
    Selecting { select: ImapMailboxSelect, store: ImapMessageStore },
    Storing { store: ImapMessageStore },
    Done,
}

impl State {
    /// Whether the exchanges under way and to come are not over.
    pub open spec fn live(self) -> bool {
        match self {
            State::Selecting { select, store } => select_request(select) is Some && store_request(
                store,
            ) is Some,
            State::Storing { store } => store_request(store) is Some,
            State::Done => true,
        }
    }

    /// Where a step leaves the exchange under way, and the parser with it.
    pub open spec fn stepped(self, fragmentizer: Fragmentizer, bytes: Option<Seq<u8>>) -> (
        State,
        Fragmentizer,
    ) {
        match self {
            State::Selecting { select, store } => {
                let (select, parsed) = select_left(select, fragmentizer, bytes);
                (State::Selecting { select, store }, parsed)
            },
            State::Storing { store } => {
                let (store, parsed) = store_left(store, fragmentizer, bytes);
                (State::Storing { store }, parsed)
            },
            State::Done => (self, fragmentizer),
        }
    }
}

pub type Answer = Outcome<(), ImapFlagStoreError>;

/// What a resume returns.
pub type Step = EmailCoroutineState<ImapStep, Result<(), ImapFlagStoreError>>;

impl Stages for State {
    type Context = Fragmentizer;

    type Answer = Answer;

    open spec fn rank(self) -> nat {
        match self {
            State::Selecting { .. } => 2,
            State::Storing { .. } => 1,
            State::Done => 0,
        }
    }

    open spec fn stage(
        self,
        fragmentizer: Fragmentizer,
        bytes: Option<Seq<u8>>,
        post: State,
        left: Fragmentizer,
        answer: Option<Answer>,
    ) -> bool {
        let (kept, parsed) = self.stepped(fragmentizer, bytes);
        &&& left == parsed
        &&& match self {
            State::Selecting { select, store } => match select_step(select, fragmentizer, bytes) {
                Outcome::Done(_) => post == (State::Storing { store }) && answer is None,
                Outcome::Failed(err) => post is Done && answer == Some(
                    Answer::Failed(ImapFlagStoreError::Select(err)),
                ),
                wait => post == kept && answer is Some && answer->0.forwards(wait),
            },
            State::Storing { store } => match store_step(store, fragmentizer, bytes) {
                Outcome::Done(_) => post is Done && answer == Some(Answer::Done(())),
                Outcome::Failed(err) => post is Done && answer == Some(
                    Answer::Failed(ImapFlagStoreError::Store(err)),
                ),
                wait => post == kept && answer is Some && answer->0.forwards(wait),
            },
            State::Done => post is Done && answer == Some(
                Answer::Failed(ImapFlagStoreError::ResumedAfterDone),
            ),
        }
    }
}

impl View for ImapFlagStore {
    type V = State;

    closed spec fn view(&self) -> State {
        self.state
    }
}

/// What is wrong with a request that names one mailbox and some messages:
/// the mailbox first, then the ids.
pub open spec fn refused(err: ImapFlagStoreError, mailbox: Seq<char>, ids: Seq<&str>) -> bool {
    match err {
        ImapFlagStoreError::InvalidMailbox(name) => !transmissible(mailbox) && name@ == mailbox,
        ImapFlagStoreError::EmptyUidSet => transmissible(mailbox) && ids.len() == 0,
        ImapFlagStoreError::InvalidUid(id) => transmissible(mailbox) && ids.len() > 0 && first_bad(ids)
            == Some(id@),
        _ => false,
    }
}

impl ImapFlagStore {
    #[verifier::type_invariant]
    closed spec fn inv(self) -> bool {
        self.state.live()
    }

    /// `op` picks the STORE variant. When `auto_select` is set the target
    /// mailbox is SELECTed first.
    pub fn new(
        mailbox: &str,
        ids: &[&str],
        flags: &[Flag],
        op: FlagOp,
        auto_select: bool,
    ) -> (r: Result<ImapFlagStore, ImapFlagStoreError>)
        requires
            spelled(flags@),
        ensures
            match r {
                Ok(run) => {
                    &&& transmissible(mailbox@)
                    &&& uids_of(ids@) is Ok
                    &&& run@.starts(
                        if auto_select {
                            Some(mailbox@)
                        } else {
                            None
                        },
                        StoreRequest {
                            set: uid_items(uids_of(ids@)->Ok_0),
                            op,
                            flags: imap_flags(flags@),
                            uid: true,
                        },
                    )
                },
                Err(err) => refused(err, mailbox@, ids@),
            },
    {
        let mailbox = match parse_mailbox(mailbox) {
            Ok(mailbox) => mailbox,
            Err(InvalidMailboxName(name)) => {
                return Err(ImapFlagStoreError::InvalidMailbox(name));
            },
        };
        let uids = match parse_uids(ids) {
            Ok(uids) => uids,
            Err(InvalidUidSet::Empty) => return Err(ImapFlagStoreError::EmptyUidSet),
            Err(InvalidUidSet::Invalid(id)) => return Err(ImapFlagStoreError::InvalidUid(id)),
        };
        let store = store_new(uid_sequence_set(&uids), op, wire_flags(flags), true);
        let state = if auto_select {
            State::Selecting { select: select_new(&mailbox), store }
        } else {
            State::Storing { store }
        };
        Ok(ImapFlagStore { state })
    }

    /// SELECT `mailbox`, then STORE `flags` on the messages of
    /// `sequence_set`.
    pub fn selecting(
        mailbox: &ImapMailbox,
        sequence_set: SequenceSet,
        flags: &[Flag],
        op: FlagOp,
        uid: bool,
    ) -> (r: ImapFlagStore)
        requires
            spelled(flags@),
        ensures
            r@.starts(
                Some(mailbox@),
                StoreRequest {
                    set: set_items(sequence_set),
                    op,
                    flags: imap_flags(flags@),
                    uid,
                },
            ),
    {
        let store = store_new(sequence_set, op, wire_flags(flags), uid);
        ImapFlagStore { state: State::Selecting { select: select_new(mailbox), store } }
    }

    /// Advances the coroutine: with no bytes at first and after a write,
    /// with what was read after a read.
    pub fn resume(&mut self, fragmentizer: &mut Fragmentizer, bytes: Option<&[u8]>) -> (r: Step)
        ensures
            resumed(old(self)@, *old(fragmentizer), fed(bytes), final(self)@, *final(fragmentizer), r.outcome()),
        decreases old(self)@.rank(),
    {
        proof {
            use_type_invariant(&*self);
        }
        let ghost pre = self@;
        let ghost f = *fragmentizer;
        let mut state = State::Done;
        core::mem::swap(&mut self.state, &mut state);
        match state {
            State::Selecting { mut select, store } => {
                match select_resume(&mut select, fragmentizer, bytes) {
                    EmailCoroutineState::Yielded(step) => {
                        self.state = State::Selecting { select, store };
                        EmailCoroutineState::Yielded(step)
                    },
                    EmailCoroutineState::Complete(Ok(_)) => {
                        self.state = State::Storing { store };
                        proof {
                            assert(hands_over(pre, f, fed(bytes), self@, *fragmentizer));
                        }
                        self.resume(fragmentizer, None)
                    },
                    EmailCoroutineState::Complete(Err(err)) => EmailCoroutineState::Complete(
                        Err(ImapFlagStoreError::Select(err)),
                    ),
                }
            },
            State::Storing { mut store } => match store_resume(&mut store, fragmentizer, bytes) {
                EmailCoroutineState::Yielded(step) => {
                    self.state = State::Storing { store };
                    EmailCoroutineState::Yielded(step)
                },
                EmailCoroutineState::Complete(Ok(_)) => EmailCoroutineState::Complete(Ok(())),
                EmailCoroutineState::Complete(Err(err)) => EmailCoroutineState::Complete(
                    Err(ImapFlagStoreError::Store(err)),
                ),
            },
            State::Done => EmailCoroutineState::Complete(Err(ImapFlagStoreError::ResumedAfterDone)),
        }
    }
}

impl State {
    /// Whether this is the beginning of a store: the mailbox is selected
    /// first where one is given.
    pub open spec fn starts(self, mailbox: Option<Seq<char>>, request: StoreRequest) -> bool {
        match self {
            State::Selecting { select, store } => mailbox is Some && select_request(select) == mailbox
                && store_request(store) == Some(request),
            State::Storing { store } => mailbox is None && store_request(store) == Some(request),
            State::Done => false,
        }
    }
}

/// A store under way fails only by one of its exchanges, or because it is
/// over.
pub proof fn law_resume_errors(
    pre: State,
    fragmentizer: Fragmentizer,
    bytes: Option<Seq<u8>>,
    post: State,
    left: Fragmentizer,
    err: ImapFlagStoreError,
)
    requires
        resumed(pre, fragmentizer, bytes, post, left, Answer::Failed(err)),
    ensures
        err is Select || err is Store || err is ResumedAfterDone,
        post is Done,
    decreases pre.rank(),
{
    let answer = Answer::Failed(err);
    if !pre.stage(fragmentizer, bytes, post, left, Some(answer)) {
        let (mid, between) = choose|mid: State, between: Fragmentizer|
            #[trigger] hands_over(pre, fragmentizer, bytes, mid, between) && resumed(
                mid,
                between,
                None,
                post,
                left,
                answer,
            );
        law_resume_errors(mid, between, None, post, left, err);
    }
}

/// A store succeeds exactly when the server has accepted the STORE, after the
/// SELECT where there is one.
pub proof fn law_success_is_the_servers(
    pre: State,
    fragmentizer: Fragmentizer,
    bytes: Option<Seq<u8>>,
    post: State,
    left: Fragmentizer,
    answer: Answer,
)
    requires
        resumed(pre, fragmentizer, bytes, post, left, answer),
    ensures
        answer is Done ==> post is Done && !(pre is Done),
        pre matches State::Storing { store } ==> (answer is Done <==> store_step(
            store,
            fragmentizer,
            bytes,
        ) is Done),
        pre matches State::Selecting { select, store } ==> (answer is Done <==> select_step(
            select,
            fragmentizer,
            bytes,
        ) is Done && store_step(store, select_left(select, fragmentizer, bytes).1, None) is Done),
    decreases pre.rank(),
{
    if !pre.stage(fragmentizer, bytes, post, left, Some(answer)) {
        let (mid, between) = choose|mid: State, between: Fragmentizer|
            #[trigger] hands_over(pre, fragmentizer, bytes, mid, between) && resumed(
                mid,
                between,
                None,
                post,
                left,
                answer,
            );
        law_success_is_the_servers(mid, between, None, post, left, answer);
    }
}

/// Flags reach the server in their order, each as its IMAP counterpart, and
/// none is left out.
pub proof fn law_every_flag_is_sent(flags: Seq<Flag>)
    ensures
        imap_flags(flags).len() == flags.len(),
        forall|i: int| 0 <= i < flags.len() ==> #[trigger] imap_flags(flags)[i] == imap_flag(flags[i]@),
{
}

/// What an exchange waits for is passed on as it is, and what it fails with is
/// told and ends the run; a run that is over stays over.
pub proof fn law_waits_and_failures_are_told(
    pre: State,
    fragmentizer: Fragmentizer,
    bytes: Option<Seq<u8>>,
    post: State,
    left: Fragmentizer,
    answer: Answer,
)
    requires
        resumed(pre, fragmentizer, bytes, post, left, answer),
    ensures
        pre matches State::Selecting { select, .. } ==> {
            &&& select_step(select, fragmentizer, bytes) is Read ==> answer is Read
            &&& select_step(select, fragmentizer, bytes) matches Outcome::Write(out) ==> answer == Answer::Write(out)
            &&& select_step(select, fragmentizer, bytes) matches Outcome::Failed(err) ==> post is Done && answer == Answer::Failed(
                ImapFlagStoreError::Select(err),
            )
        },
        pre matches State::Storing { store } ==> {
            &&& store_step(store, fragmentizer, bytes) is Read ==> answer is Read
            &&& store_step(store, fragmentizer, bytes) matches Outcome::Write(out) ==> answer == Answer::Write(out)
            &&& store_step(store, fragmentizer, bytes) matches Outcome::Failed(err) ==> post is Done && answer == Answer::Failed(
                ImapFlagStoreError::Store(err),
            )
        },
        pre is Done ==> post is Done && answer == Answer::Failed(ImapFlagStoreError::ResumedAfterDone),
{
    if !pre.stage(fragmentizer, bytes, post, left, Some(answer)) {
        let (mid, between) = choose|mid: State, between: Fragmentizer|
            #[trigger] hands_over(pre, fragmentizer, bytes, mid, between) && resumed(
                mid,
                between,
                None,
                post,
                left,
                answer,
            );
        assert(pre.stage(fragmentizer, bytes, mid, between, None));
    }
}

/// What is refused is at fault: a mailbox name that is told cannot travel, an
/// id that is told is no UID and is among those given, and a set is told to be
/// empty only where it is. A request without a fault is not refused.
pub proof fn law_refused_for_a_fault(err: ImapFlagStoreError, mailbox: Seq<char>, ids: Seq<&str>)
    requires
        refused(err, mailbox, ids),
    ensures
        err matches ImapFlagStoreError::InvalidMailbox(name) ==> !transmissible(name@) && (name@ == mailbox),
        err matches ImapFlagStoreError::InvalidUid(id) ==> uid_of(id@) is None && exists|i: int|
            0 <= i < ids.len() && (#[trigger] ids[i])@ == id@,
        err is EmptyUidSet ==> ids.len() == 0,
        err is InvalidMailbox || err is InvalidUid || err is EmptyUidSet,
{
    law_uids_are_read_in_order(ids);
}

} // verus!
