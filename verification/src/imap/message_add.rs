//! IMAP message-add coroutine: APPEND (RFC 3501 section 6.3.11) resolving
//! the UID of the new message.
//!
//! Servers with UIDPLUS (RFC 4315) answer with the UID. On the others the
//! message is looked up: SELECT, then `UID SEARCH HEADER Message-ID <id>`. A
//! message without a `Message-ID:` header gets one for that purpose.
use vstd::prelude::*;
use vstd::utf8::encode_utf8;

use io_imap::codec::fragmentizer::Fragmentizer;
use io_imap::rfc3501::append::{ImapMessageAppend, ImapMessageAppendError};
use io_imap::rfc3501::search::{ImapMessageSearch, ImapMessageSearchError};
use io_imap::rfc3501::select::{ImapMailboxSelect, ImapMailboxSelectError};

use crate::coroutine::{
    fed, hands_over, resumed, EmailBackend, EmailCoroutine, EmailCoroutineArg, EmailCoroutineState,
    ImapStep, Outcome, Stages,
};
use crate::flag::types::Flag;
use crate::imap::convert::{
    is_transmissible, parse_mailbox, transmissible, ImapMailbox, InvalidMailboxName,
};
use crate::imap::flag_store::{imap_flags, spelled, wire_flags};
use crate::imap::search_key::{wire_key, SearchKey, SearchKeyView};
use crate::imap::wire::{
    append_left, append_new, append_request, append_resume, append_step, search_left, search_new,
    search_request, search_resume, search_step, select_left, select_new, select_request,
    select_resume, select_step, AppendRequest, SearchRequest,
};
use crate::text::{decimal, decimal_of, lemma_numbers};

verus! {

/// Errors produced by [`ImapMessageAdd`].
#[derive(Debug)]
pub enum ImapMessageAddError {
    Append(ImapMessageAppendError),
    Select(ImapMailboxSelectError),
    Search(ImapMessageSearchError),
    InvalidMailbox(String),
    InvalidContent(String),
    UidLookupFailed,
    InvalidArg,
    ResumedAfterDone,
}

/// The `Message-ID:` that `mail_parser` reads in the headers of a message.
pub uninterp spec fn header_message_id(raw: Seq<u8>) -> Option<Seq<char>>;

/// [`mail_parser::MessageParser::parse_headers`], and of what it reads the
/// message id.
#[verifier::external_body]
pub(crate) fn read_message_id(raw: &[u8]) -> (r: Option<String>)
    ensures
        r.deep_view() == header_message_id(raw@),
{
    let message = mail_parser::MessageParser::default().parse_headers(raw)?;
    message.message_id().map(|id| id.to_string())
}

/// Whether a character occurs in the hyphenated notation of a UUID.
pub open spec fn uuid_char(c: char) -> bool {
    ('0' <= c && c <= '9') || ('a' <= c && c <= 'f') || c == '-'
}

/// Whether a text has the form of a UUID in hyphenated notation.
pub open spec fn uuid_text(text: Seq<char>) -> bool {
    text.len() == 36 && forall|i: int| 0 <= i < text.len() ==> uuid_char(#[trigger] text[i])
}

/// Whether a text can be drawn as a fresh UUID.
pub uninterp spec fn uuid_drawn(text: Seq<char>) -> bool;

/// [`uuid::Uuid::new_v4`] in hyphenated notation: 36 hexadecimal digits and
/// dashes, otherwise random.
#[verifier::external_body]
fn new_uuid() -> (r: String)
    ensures
        uuid_text(r@),
        uuid_drawn(r@),
{
    uuid::Uuid::new_v4().to_string()
}

/// The message id made from a fresh token.
pub open spec fn fresh_id(token: Seq<char>) -> Seq<char> {
    token + "@io-email.invalid"@
}

/// The header line that carries a message id.
pub open spec fn id_header(id: Seq<char>) -> Seq<char> {
    "Message-ID: <"@ + id + ">\r\n"@
}

/// The message id under which a message can be found again, and the message
/// that is appended: the message as it is where it has an id, else with a
/// fresh one in front.
pub open spec fn stamped(parsed: Option<Seq<char>>, token: Seq<char>, raw: Seq<u8>) -> (
    Seq<char>,
    Seq<u8>,
) {
    if parsed is Some && parsed->0.len() > 0 {
        (parsed->0, raw)
    } else {
        (fresh_id(token), encode_utf8(id_header(fresh_id(token))) + raw)
    }
}

/// Where the first NUL of a message stands.
pub open spec fn first_nul(bytes: Seq<u8>) -> Option<nat>
    decreases bytes.len(),
{
    if bytes.len() == 0 {
        None
    } else if bytes[0] == 0 {
        Some(0)
    } else {
        match first_nul(bytes.drop_first()) {
            Some(n) => Some(n + 1),
            None => None,
        }
    }
}

/// What is said of a message with a NUL.
pub open spec fn content_error(at: nat) -> Seq<char> {
    "Validation failed: Invalid byte b'\\x00' at index "@ + decimal(at)
}

proof fn lemma_first_nul(bytes: Seq<u8>, n: int)
    requires
        0 <= n <= bytes.len(),
        forall|i: int| 0 <= i < n ==> bytes[i] != 0,
    ensures
        n == bytes.len() ==> first_nul(bytes) is None && !bytes.contains(0u8),
        n < bytes.len() && bytes[n] == 0 ==> first_nul(bytes) == Some(n as nat),
    decreases bytes.len(),
{
    if n > 0 {
        let rest = bytes.drop_first();
        assert forall|i: int| 0 <= i < n - 1 implies rest[i] != 0 by {
            assert(rest[i] == bytes[i + 1]);
        }
        lemma_first_nul(rest, n - 1);
        if n == bytes.len() {
            assert(!bytes.contains(0u8));
        }
    }
}

fn find_nul(bytes: &Vec<u8>) -> (r: Option<usize>)
    ensures
        match r {
            Some(at) => first_nul(bytes@) == Some(at as nat),
            None => first_nul(bytes@) is None && !bytes@.contains(0u8),
        },
{
    let mut i: usize = 0;
    while i < bytes.len()
        invariant
            i <= bytes@.len(),
            forall|j: int| 0 <= j < i ==> bytes@[j] != 0,
        decreases bytes@.len() - i,
    {
        if bytes[i] == 0 {
            proof {
                lemma_first_nul(bytes@, i as int);
            }
            return Some(i);
        }
        i = i + 1;
    }
    proof {
        lemma_first_nul(bytes@, bytes@.len() as int);
    }
    None
}

/// The greatest UID of a list.
pub open spec fn max_uid(uids: Seq<u32>) -> Option<u32>
    decreases uids.len(),
{
    if uids.len() == 0 {
        None
    } else {
        match max_uid(uids.drop_last()) {
            Some(max) => if max < uids.last() {
                Some(uids.last())
            } else {
                Some(max)
            },
            None => Some(uids.last()),
        }
    }
}

/// The greatest UID of a list stands in it, and none in it is greater.
pub proof fn law_max_uid(uids: Seq<u32>)
    ensures
        match max_uid(uids) {
            Some(max) => uids.contains(max) && forall|i: int|
                0 <= i < uids.len() ==> #[trigger] uids[i] <= max,
            None => uids.len() == 0,
        },
    decreases uids.len(),
{
    if uids.len() > 0 {
        let most = uids.drop_last();
        law_max_uid(most);
        assert(uids[uids.len() - 1] == uids.last());
        if let Some(max) = max_uid(most) {
            let k = most.index_of(max);
            assert(uids[k] == max);
            assert forall|i: int| 0 <= i < uids.len() implies #[trigger] uids[i] <= max_uid(uids)->0 by {
                if i < uids.len() - 1 {
                    assert(most[i] == uids[i]);
                }
            }
        }
    }
}

/// The greatest UID of a list.
pub fn greatest(uids: &Vec<u32>) -> (r: Option<u32>)
    ensures
        r == max_uid(uids@),
{
    let mut max: Option<u32> = None;
    proof {
        assert(uids@.subrange(0, 0) =~= seq![]);
    }
    let mut i: usize = 0;
    while i < uids.len()
        invariant
            i <= uids@.len(),
            max == max_uid(uids@.subrange(0, i as int)),
        decreases uids@.len() - i,
    {
        proof {
            assert(uids@.subrange(0, i + 1).drop_last() =~= uids@.subrange(0, i as int));
            assert(uids@.subrange(0, i + 1).last() == uids@[i as int]);
        }
        max = match max {
            Some(n) if n >= uids[i] => Some(n),
            _ => Some(uids[i]),
        };
        i = i + 1;
    }
    proof {
        assert(uids@.subrange(0, uids@.len() as int) =~= uids@);
    }
    max
}

/// Where an addition stands.
pub enum State {
    Appending { append: ImapMessageAppend, mailbox: ImapMailbox, message_id: String },
    SelectingForLookup { select: ImapMailboxSelect, message_id: String },
    Searching { search: ImapMessageSearch },
    Done,
}

impl State {
    /// Whether the exchange under way is not over.
    pub open spec fn live(self) -> bool {
        match self {
            State::Appending { append, .. } => append_request(append) is Some,
            State::SelectingForLookup { select, .. } => select_request(select) is Some,
            State::Searching { search } => search_request(search) is Some,
            State::Done => true,
        }
    }

    /// Where a step leaves the exchange under way, and the parser with it.
    pub open spec fn stepped(self, fragmentizer: Fragmentizer, bytes: Option<Seq<u8>>) -> (
        State,
        Fragmentizer,
    ) {
        match self {
            State::Appending { append, mailbox, message_id } => {
                let (append, parsed) = append_left(append, fragmentizer, bytes);
                (State::Appending { append, mailbox, message_id }, parsed)
            },
            State::SelectingForLookup { select, message_id } => {
                let (select, parsed) = select_left(select, fragmentizer, bytes);
                (State::SelectingForLookup { select, message_id }, parsed)
            },
            State::Searching { search } => {
                let (search, parsed) = search_left(search, fragmentizer, bytes);
                (State::Searching { search }, parsed)
            },
            State::Done => (self, fragmentizer),
        }
    }
}

pub type Answer = Outcome<Seq<char>, ImapMessageAddError>;

/// What a resume returns: at the end, the UID of the new message.
pub type Step = EmailCoroutineState<ImapStep, Result<String, ImapMessageAddError>>;

impl Stages for State {
    type Context = Fragmentizer;

    type Answer = Answer;

    open spec fn rank(self) -> nat {
        match self {
            State::Appending { .. } => 3,
            State::SelectingForLookup { .. } => 2,
            State::Searching { .. } => 1,
            State::Done => 0,
        }
    }

    open spec fn stage(
        self,
        fragmentizer: Fragmentizer,
        bytes: Option<Seq<u8>>,
        post: State,
        left: Fragmentizer,
        answer: Option<Answer>,
    ) -> bool {
        let (kept, parsed) = self.stepped(fragmentizer, bytes);
        &&& left == parsed
        &&& match self {
            State::Appending { append, mailbox, message_id } => match append_step(
                append,
                fragmentizer,
                bytes,
            ) {
                Outcome::Done(Some(uid)) => post is Done && answer == Some(
                    Answer::Done(decimal(uid as nat)),
                ),
                Outcome::Done(None) => {
                    &&& answer is None
                    &&& post matches State::SelectingForLookup { select, message_id: id }
                    &&& select_request(select) == Some(mailbox@)
                    &&& id == message_id
                },
                Outcome::Failed(err) => post is Done && answer == Some(
                    Answer::Failed(ImapMessageAddError::Append(err)),
                ),
                wait => post == kept && answer is Some && answer->0.forwards(wait),
            },
            State::SelectingForLookup { select, message_id } => match select_step(
                select,
                fragmentizer,
                bytes,
            ) {
                Outcome::Done(_) => if transmissible(message_id@) {
                    &&& answer is None
                    &&& post matches State::Searching { search }
                    &&& search_request(search) == Some(
                        SearchRequest {
                            key: SearchKeyView::Header("Message-ID"@, message_id@),
                            uid: true,
                        },
                    )
                } else {
                    post is Done && answer == Some(
                        Answer::Failed(ImapMessageAddError::UidLookupFailed),
                    )
                },
                Outcome::Failed(err) => post is Done && answer == Some(
                    Answer::Failed(ImapMessageAddError::Select(err)),
                ),
                wait => post == kept && answer is Some && answer->0.forwards(wait),
            },
            State::Searching { search } => match search_step(search, fragmentizer, bytes) {
                Outcome::Done(uids) => post is Done && answer == Some(
                    match max_uid(uids) {
                        Some(uid) => Answer::Done(decimal(uid as nat)),
                        None => Answer::Failed(ImapMessageAddError::UidLookupFailed),
                    },
                ),
                Outcome::Failed(err) => post is Done && answer == Some(
                    Answer::Failed(ImapMessageAddError::Search(err)),
                ),
                wait => post == kept && answer is Some && answer->0.forwards(wait),
            },
            State::Done => post is Done && answer == Some(
                Answer::Failed(ImapMessageAddError::ResumedAfterDone),
            ),
        }
    }
}

/// I/O-free coroutine appending a raw RFC 5322 message and resolving the
/// appended UID.
pub struct ImapMessageAdd {
    state: State,
}

impl View for ImapMessageAdd {
    type V = State;

    closed spec fn view(&self) -> State {
        self.state
    }
}

/// What building an addition comes to, given the message id and the message
/// to append.
pub open spec fn built(
    r: Result<ImapMessageAdd, ImapMessageAddError>,
    mailbox: Seq<char>,
    flags: Seq<Flag>,
    id: Seq<char>,
    message: Seq<u8>,
) -> bool {
    match r {
        Ok(run) => {
            &&& transmissible(mailbox)
            &&& first_nul(message) is None
            &&& run@ matches State::Appending { append, mailbox: m, message_id }
            &&& m@ == mailbox
            &&& message_id@ == id
            &&& append_request(append) == Some(
                AppendRequest { mailbox, message, flags: imap_flags(flags) },
            )
        },
        Err(ImapMessageAddError::InvalidMailbox(name)) => !transmissible(mailbox) && name@ == mailbox,
        Err(ImapMessageAddError::InvalidContent(text)) => transmissible(mailbox) && first_nul(message)
            is Some && text@ == content_error(first_nul(message)->0),
        Err(_) => false,
    }
}

impl ImapMessageAdd {
    #[verifier::type_invariant]
    closed spec fn inv(self) -> bool {
        self.state.live()
    }

    /// `flags` are applied to the appended message; pass an empty slice for
    /// none.
    pub fn new(mailbox: &str, flags: &[Flag], raw: Vec<u8>) -> (r: Result<
        ImapMessageAdd,
        ImapMessageAddError,
    >)
        requires
            spelled(flags@),
        ensures
            exists|token: Seq<char>|
                {
                    let made = #[trigger] stamped(header_message_id(raw@), token, raw@);
                    uuid_text(token) && uuid_drawn(token) && built(r, mailbox@, flags@, made.0, made.1)
                },
    {
        let parsed = read_message_id(&raw);
        let token = new_uuid();
        ImapMessageAdd::with_message_id(mailbox, flags, raw, parsed, token)
    }

    /// The addition of `raw`, in whose headers the message id `parsed` was
    /// found; `token` makes a fresh one where none was.
    pub fn with_message_id(
        mailbox: &str,
        flags: &[Flag],
        raw: Vec<u8>,
        parsed: Option<String>,
        token: String,
    ) -> (r: Result<ImapMessageAdd, ImapMessageAddError>)
        requires
            spelled(flags@),
        ensures
            ({
                let made = stamped(parsed.deep_view(), token@, raw@);
                built(r, mailbox@, flags@, made.0, made.1)
            }),
    {
        let ghost made = stamped(parsed.deep_view(), token@, raw@);
        let found = match parsed {
            Some(id) => if id.as_str().is_empty() {
                None
            } else {
                Some(id)
            },
            None => None,
        };
        let (message_id, message): (String, Vec<u8>) = match found {
            Some(id) => (id, raw),
            None => {
                let mut id = token;
                id.append("@io-email.invalid");
                let mut header = "Message-ID: <".to_owned();
                header.append(&id);
                header.append(">\r\n");
                let mut message: Vec<u8> = Vec::new();
                message.extend_from_slice(header.as_str().as_bytes());
                message.extend_from_slice(&raw);
                proof {
                    assert(header@ =~= id_header(id@));
                    assert(message@ =~= encode_utf8(id_header(id@)) + raw@);
                }
                (id, message)
            },
        };
        proof {
            assert(message_id@ == made.0);
            assert(message@ == made.1);
        }
        let mailbox = match parse_mailbox(mailbox) {
            Ok(mailbox) => mailbox,
            Err(InvalidMailboxName(name)) => {
                return Err(ImapMessageAddError::InvalidMailbox(name));
            },
        };
        if let Some(at) = find_nul(&message) {
            let mut text = "Validation failed: Invalid byte b'\\x00' at index ".to_owned();
            text.append(&decimal_of(at as u64));
            return Err(ImapMessageAddError::InvalidContent(text));
        }
        let append = append_new(&mailbox, message, wire_flags(flags));
        Ok(ImapMessageAdd { state: State::Appending { append, mailbox, message_id } })
    }

    /// Advances the coroutine: with no bytes at first and after a write,
    /// with what was read after a read.
    pub fn resume(&mut self, fragmentizer: &mut Fragmentizer, bytes: Option<&[u8]>) -> (r: Step)
        ensures
            resumed(old(self)@, *old(fragmentizer), fed(bytes), final(self)@, *final(fragmentizer), r.outcome()),
        decreases old(self)@.rank(),
    {
        proof {
            use_type_invariant(&*self);
        }
        let ghost pre = self@;
        let ghost f = *fragmentizer;
        let mut state = State::Done;
        core::mem::swap(&mut self.state, &mut state);
        match state {
            State::Appending { mut append, mailbox, message_id } => {
                match append_resume(&mut append, fragmentizer, bytes) {
                    EmailCoroutineState::Yielded(step) => {
                        self.state = State::Appending { append, mailbox, message_id };
                        EmailCoroutineState::Yielded(step)
                    },
                    EmailCoroutineState::Complete(Ok(Some(uid))) => {
                        EmailCoroutineState::Complete(Ok(decimal_of(uid as u64)))
                    },
                    EmailCoroutineState::Complete(Ok(None)) => {
                        let select = select_new(&mailbox);
                        self.state = State::SelectingForLookup { select, message_id };
                        proof {
                            assert(hands_over(pre, f, fed(bytes), self@, *fragmentizer));
                        }
                        self.resume(fragmentizer, None)
                    },
                    EmailCoroutineState::Complete(Err(err)) => EmailCoroutineState::Complete(
                        Err(ImapMessageAddError::Append(err)),
                    ),
                }
            },
            State::SelectingForLookup { mut select, message_id } => {
                match select_resume(&mut select, fragmentizer, bytes) {
                    EmailCoroutineState::Yielded(step) => {
                        self.state = State::SelectingForLookup { select, message_id };
                        EmailCoroutineState::Yielded(step)
                    },
                    EmailCoroutineState::Complete(Ok(_)) => {
                        if !is_transmissible(&message_id) {
                            return EmailCoroutineState::Complete(
                                Err(ImapMessageAddError::UidLookupFailed),
                            );
                        }
                        let key = SearchKey::Header("Message-ID".to_owned(), message_id);
                        proof {
                            reveal_strlit("Message-ID");
                        }
                        let search = search_new(wire_key(&key), true);
                        self.state = State::Searching { search };
                        proof {
                            assert(hands_over(pre, f, fed(bytes), self@, *fragmentizer));
                        }
                        self.resume(fragmentizer, None)
                    },
                    EmailCoroutineState::Complete(Err(err)) => EmailCoroutineState::Complete(
                        Err(ImapMessageAddError::Select(err)),
                    ),
                }
            },
            State::Searching { mut search } => {
                match search_resume(&mut search, fragmentizer, bytes) {
                    EmailCoroutineState::Yielded(step) => {
                        self.state = State::Searching { search };
                        EmailCoroutineState::Yielded(step)
                    },
                    EmailCoroutineState::Complete(Ok(uids)) => {
                        proof {
                            lemma_numbers(uids);
                        }
                        match greatest(&uids) {
                            Some(uid) => EmailCoroutineState::Complete(Ok(decimal_of(uid as u64))),
                            None => EmailCoroutineState::Complete(
                                Err(ImapMessageAddError::UidLookupFailed),
                            ),
                        }
                    },
                    EmailCoroutineState::Complete(Err(err)) => EmailCoroutineState::Complete(
                        Err(ImapMessageAddError::Search(err)),
                    ),
                }
            },
            State::Done => EmailCoroutineState::Complete(Err(ImapMessageAddError::ResumedAfterDone)),
        }
    }
}

impl EmailCoroutine for ImapMessageAdd {
    type Yield = ImapStep;

    type Return = Result<String, ImapMessageAddError>;

    const BACKEND: EmailBackend = EmailBackend::Imap;

    open spec fn ready(self) -> bool {
        true
    }

    open spec fn advances(
        pre: ImapMessageAdd,
        arg: EmailCoroutineArg<'_>,
        post: ImapMessageAdd,
        left: Option<Fragmentizer>,
        r: Step,
    ) -> bool {
        match arg {
            EmailCoroutineArg::Imap { fragmentizer, bytes } => {
                &&& left matches Some(left)
                &&& resumed(pre@, *fragmentizer, fed(bytes), post@, left, r.outcome())
            },
            _ => post == pre && r == Step::Complete(Err(ImapMessageAddError::InvalidArg)),
        }
    }

    fn resume(&mut self, arg: EmailCoroutineArg<'_>) -> (r: Step) {
        match arg {
            EmailCoroutineArg::Imap { fragmentizer, bytes } => ImapMessageAdd::resume(self, fragmentizer, bytes),
            _ => EmailCoroutineState::Complete(Err(ImapMessageAddError::InvalidArg)),
        }
    }
}

/// The id given back is the UID that the server told on the APPEND, or else
/// the greatest of those that the server found under the Message-ID in the
/// mailbox.
pub proof fn law_success_is_the_servers(
    pre: State,
    fragmentizer: Fragmentizer,
    bytes: Option<Seq<u8>>,
    post: State,
    left: Fragmentizer,
    answer: Answer,
)
    requires
        resumed(pre, fragmentizer, bytes, post, left, answer),
    ensures
        answer is Done ==> post is Done && !(pre is Done),
        pre matches State::Appending { append, .. } ==> (answer matches Answer::Done(id) ==> (append_step(
            append,
            fragmentizer,
            bytes,
        ) matches Outcome::Done(told) && (told matches Some(uid) ==> id == decimal(uid as nat)))),
        pre matches State::SelectingForLookup { select, message_id } ==> (answer is Done ==> select_step(
            select,
            fragmentizer,
            bytes,
        ) is Done && transmissible(message_id@)),
        pre matches State::Searching { search } ==> (answer matches Answer::Done(id) ==> (search_step(
            search,
            fragmentizer,
            bytes,
        ) matches Outcome::Done(uids) && exists|k: int|
            0 <= k < uids.len() && id == decimal(#[trigger] uids[k] as nat) && forall|i: int|
                0 <= i < uids.len() ==> #[trigger] uids[i] <= uids[k])),
    decreases pre.rank(),
{
    if let State::Searching { search } = pre {
        if let Outcome::Done(uids) = search_step(search, fragmentizer, bytes) {
            law_max_uid(uids);
        }
    }
    if !pre.stage(fragmentizer, bytes, post, left, Some(answer)) {
        let (mid, between) = choose|mid: State, between: Fragmentizer|
            #[trigger] hands_over(pre, fragmentizer, bytes, mid, between) && resumed(
                mid,
                between,
                None,
                post,
                left,
                answer,
            );
        law_success_is_the_servers(mid, between, None, post, left, answer);
    }
}

/// A NUL is told of where the first one stands, and only where there is one.
pub proof fn law_first_nul(bytes: Seq<u8>)
    ensures
        match first_nul(bytes) {
            Some(at) => at < bytes.len() && bytes[at as int] == 0 && forall|i: int|
                0 <= i < at ==> #[trigger] bytes[i] != 0,
            None => forall|i: int| 0 <= i < bytes.len() ==> #[trigger] bytes[i] != 0,
        },
    decreases bytes.len(),
{
    if bytes.len() > 0 && bytes[0] != 0 {
        let rest = bytes.drop_first();
        law_first_nul(rest);
        assert forall|i: int| 0 < i < bytes.len() implies #[trigger] bytes[i] == rest[i - 1] by {}
    }
}

/// A message keeps the Message-ID it has and is not touched; without one it
/// gets a header with a fresh one in front, and is the same behind it. Two
/// fresh ids are the same only where the tokens are.
pub proof fn law_message_keeps_its_id(parsed: Option<Seq<char>>, token: Seq<char>, other: Seq<char>, raw: Seq<u8>)
    ensures
        ({
            let (id, sent) = stamped(parsed, token, raw);
            &&& parsed is Some && parsed->0.len() > 0 ==> id == parsed->0 && sent == raw
            &&& !(parsed is Some && parsed->0.len() > 0) ==> {
                &&& sent.len() >= raw.len()
                &&& sent.skip(sent.len() - raw.len()) == raw
                &&& sent.take(sent.len() - raw.len()) == encode_utf8("Message-ID: <"@ + id + ">\r\n"@)
                &&& stamped(parsed, other, raw).0 == id ==> other == token
            }
        }),
{
    let header = encode_utf8(id_header(fresh_id(token)));
    let sent = header + raw;
    assert(sent.skip(sent.len() - raw.len()) =~= raw);
    assert(sent.take(sent.len() - raw.len()) =~= header);
    let tail = "@io-email.invalid"@;
    if other + tail == token + tail {
        assert((other + tail).len() == (token + tail).len());
        assert((other + tail).take(other.len() as int) =~= other);
        assert((token + tail).take(token.len() as int) =~= token);
    }
}

/// What an exchange waits for is passed on as it is, and what it fails with is
/// told and ends the run; a run that is over stays over.
pub proof fn law_waits_and_failures_are_told(
    pre: State,
    fragmentizer: Fragmentizer,
    bytes: Option<Seq<u8>>,
    post: State,
    left: Fragmentizer,
    answer: Answer,
)
    requires
        resumed(pre, fragmentizer, bytes, post, left, answer),
    ensures
        pre matches State::Appending { append, .. } ==> {
            &&& append_step(append, fragmentizer, bytes) is Read ==> answer is Read
            &&& append_step(append, fragmentizer, bytes) matches Outcome::Write(out) ==> answer == Answer::Write(out)
            &&& append_step(append, fragmentizer, bytes) matches Outcome::Failed(err) ==> post is Done && answer == Answer::Failed(
                ImapMessageAddError::Append(err),
            )
        },
        pre matches State::SelectingForLookup { select, .. } ==> {
            &&& select_step(select, fragmentizer, bytes) is Read ==> answer is Read
            &&& select_step(select, fragmentizer, bytes) matches Outcome::Write(out) ==> answer == Answer::Write(out)
            &&& select_step(select, fragmentizer, bytes) matches Outcome::Failed(err) ==> post is Done && answer == Answer::Failed(
                ImapMessageAddError::Select(err),
            )
        },
        pre matches State::Searching { search } ==> {
            &&& search_step(search, fragmentizer, bytes) is Read ==> answer is Read
            &&& search_step(search, fragmentizer, bytes) matches Outcome::Write(out) ==> answer == Answer::Write(out)
            &&& search_step(search, fragmentizer, bytes) matches Outcome::Failed(err) ==> post is Done && answer == Answer::Failed(
                ImapMessageAddError::Search(err),
            )
        },
        pre is Done ==> post is Done && answer == Answer::Failed(ImapMessageAddError::ResumedAfterDone),
{
    if !pre.stage(fragmentizer, bytes, post, left, Some(answer)) {
        let (mid, between) = choose|mid: State, between: Fragmentizer|
            #[trigger] hands_over(pre, fragmentizer, bytes, mid, between) && resumed(
                mid,
                between,
                None,
                post,
                left,
                answer,
            );
        assert(pre.stage(fragmentizer, bytes, mid, between, None));
    }
}

/// Without a UID on the APPEND the message is looked for by its Message-ID; one
/// that cannot be looked for, or is not found, is told as such.
pub proof fn law_lookup_that_fails_is_told(
    pre: State,
    fragmentizer: Fragmentizer,
    bytes: Option<Seq<u8>>,
    post: State,
    left: Fragmentizer,
    answer: Answer,
)
    requires
        resumed(pre, fragmentizer, bytes, post, left, answer),
    ensures
        pre matches State::SelectingForLookup { select, message_id } ==> (select_step(
            select,
            fragmentizer,
            bytes,
        ) is Done && !transmissible(message_id@) ==> answer == Answer::Failed(
            ImapMessageAddError::UidLookupFailed,
        )),
        pre matches State::Searching { search } ==> (search_step(search, fragmentizer, bytes) matches Outcome::Done(
            uids,
        ) ==> (answer == Answer::Failed(ImapMessageAddError::UidLookupFailed) <==> uids.len() == 0)),
{
    if let State::Searching { search } = pre {
        if let Outcome::Done(uids) = search_step(search, fragmentizer, bytes) {
            law_max_uid(uids);
        }
    }
    if !pre.stage(fragmentizer, bytes, post, left, Some(answer)) {
        let (mid, between) = choose|mid: State, between: Fragmentizer|
            #[trigger] hands_over(pre, fragmentizer, bytes, mid, between) && resumed(
                mid,
                between,
                None,
                post,
                left,
                answer,
            );
        assert(pre.stage(fragmentizer, bytes, mid, between, None));
    }
}

/// A message is looked for in the mailbox that it was added to, and by the
/// Message-ID that it was sent with.
pub proof fn law_looked_for_where_it_was_added(
    pre: State,
    fragmentizer: Fragmentizer,
    bytes: Option<Seq<u8>>,
    mid: State,
    between: Fragmentizer,
)
    requires
        hands_over(pre, fragmentizer, bytes, mid, between),
    ensures
        pre matches State::Appending { mailbox, message_id, .. } ==> (
        mid matches State::SelectingForLookup { select, message_id: id } && select_request(select) == Some(
            mailbox@,
        ) && id == message_id),
        pre matches State::SelectingForLookup { message_id, .. } ==> (mid matches State::Searching {
            search,
        } && search_request(search) == Some(
            (SearchRequest { key: SearchKeyView::Header("Message-ID"@, message_id@), uid: true }),
        )),
{
}

} // verus!
