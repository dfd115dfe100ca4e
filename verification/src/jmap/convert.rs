//! Shared helpers of the JMAP coroutines: keywords, pagination, account id,
//! and JMAP email to shared [`Envelope`] conversion.
use vstd::prelude::*;

use io_jmap::rfc8620::session::JmapSession;

use crate::address::{clone_addresses, Address};
use crate::date::{parse_rfc3339, sent_date};
use crate::envelope::{message_id_of, normalize_message_id, Envelope, EnvelopeView};
use crate::flag::bare;
use crate::flag::types::{kept, Flag, FlagSet, IanaFlag};
use crate::jmap::wire::{read_session, session_info, Email, EmailProperty, EmailView};
use crate::page::{page_number, page_of, page_start};

verus! {

/// The JMAP keyword of a flag (RFC 8621 section 4.1.1); a custom keyword is
/// its own.
pub open spec fn keyword(raw: Seq<char>) -> Seq<char> {
    match IanaFlag::parsed(raw) {
        Some(IanaFlag::Seen) => "$seen"@,
        Some(IanaFlag::Answered) => "$answered"@,
        Some(IanaFlag::Flagged) => "$flagged"@,
        Some(IanaFlag::Draft) => "$draft"@,
        Some(IanaFlag::Deleted) => "$deleted"@,
        Some(IanaFlag::Forwarded) => "$forwarded"@,
        Some(IanaFlag::Junk) => "$junk"@,
        Some(IanaFlag::NotJunk) => "$notjunk"@,
        Some(IanaFlag::Phishing) => "$phishing"@,
        Some(IanaFlag::Important) => "$important"@,
        Some(IanaFlag::MdnSent) => "$mdnsent"@,
        None => raw,
    }
}

/// Maps a shared [`Flag`] to its JMAP keyword.
pub fn keyword_from(flag: &Flag) -> (r: String)
    ensures
        r@ == keyword(flag@),
{
    match flag.iana() {
        Some(IanaFlag::Seen) => "$seen".to_owned(),
        Some(IanaFlag::Answered) => "$answered".to_owned(),
        Some(IanaFlag::Flagged) => "$flagged".to_owned(),
        Some(IanaFlag::Draft) => "$draft".to_owned(),
        Some(IanaFlag::Deleted) => "$deleted".to_owned(),
        Some(IanaFlag::Forwarded) => "$forwarded".to_owned(),
        Some(IanaFlag::Junk) => "$junk".to_owned(),
        Some(IanaFlag::NotJunk) => "$notjunk".to_owned(),
        Some(IanaFlag::Phishing) => "$phishing".to_owned(),
        Some(IanaFlag::Important) => "$important".to_owned(),
        Some(IanaFlag::MdnSent) => "$mdnsent".to_owned(),
        None => flag.raw().to_owned(),
    }
}

/// The JMAP keywords of flags.
pub open spec fn keywords(flags: Seq<Flag>) -> Seq<Seq<char>> {
    flags.map_values(|flag: Flag| keyword(flag@))
}

/// Maps shared flags to their JMAP keywords.
pub fn keywords_from(flags: &[Flag]) -> (r: Vec<String>)
    ensures
        r.deep_view() == keywords(flags@),
{
    let mut out: Vec<String> = Vec::new();
    let mut i: usize = 0;
    while i < flags.len()
        invariant
            i <= flags@.len(),
            out@.len() == i,
            forall|j: int| 0 <= j < i ==> (#[trigger] out@[j])@ == keyword(flags@[j]@),
        decreases flags@.len() - i,
    {
        out.push(keyword_from(&flags[i]));
        i = i + 1;
    }
    proof {
        assert(out.deep_view() =~= keywords(flags@));
    }
    out
}

/// JMAP position and limit of a page; without a page size there is neither.
pub open spec fn position_limit(page: Option<u32>, page_size: Option<u32>) -> (Option<u64>, Option<u64>) {
    match page_size {
        Some(size) => (Some(page_start(page, page_size) as u64), Some(size as u64)),
        None => (None, None),
    }
}

/// Translates 1-indexed `(page, page_size)` to JMAP `(position, limit)`.
pub fn compute_position_limit(page: Option<u32>, page_size: Option<u32>) -> (r: (
    Option<u64>,
    Option<u64>,
))
    ensures
        r == position_limit(page, page_size),
        page_size is Some ==> r.0 == Some(r.0->0) && r.0->0 == page_start(page, page_size),
{
    let size: u32 = match page_size {
        Some(size) => size,
        None => return (None, None),
    };
    let number: u32 = match page {
        Some(n) if n > 0 => n,
        _ => 1,
    };
    proof {
        assert(0 <= (number - 1) * size <= 0xffff_ffff * 0xffff_ffff) by (nonlinear_arith)
            requires
                0 <= number - 1 <= 0xffff_ffff,
                0 <= size <= 0xffff_ffff,
        ;
    }
    let position: u64 = (number as u64 - 1) * (size as u64);
    (Some(position), Some(size as u64))
}

/// The primary mail account of a session, empty where it has none.
pub open spec fn account_id(session: JmapSession) -> Seq<char> {
    match session_info(session).mail_account {
        Some(id) => id,
        None => seq![],
    }
}

/// Primary mail account id; empty when the session has none.
pub fn account_id_of(session: &JmapSession) -> (r: String)
    ensures
        r@ == account_id(*session),
{
    match read_session(session).mail_account {
        Some(id) => id,
        None => String::new(),
    }
}

/// The properties that an envelope is read from.
pub open spec fn envelope_property_list() -> Seq<EmailProperty> {
    seq![
        EmailProperty::Id,
        EmailProperty::Keywords,
        EmailProperty::Subject,
        EmailProperty::From,
        EmailProperty::To,
        EmailProperty::SentAt,
        EmailProperty::Size,
        EmailProperty::HasAttachment,
        EmailProperty::MessageId,
    ]
}

/// Email/get properties for an [`Envelope`].
pub fn envelope_properties() -> (r: Vec<EmailProperty>)
    ensures
        r@ == envelope_property_list(),
{
    let mut out: Vec<EmailProperty> = Vec::new();
    out.push(EmailProperty::Id);
    out.push(EmailProperty::Keywords);
    out.push(EmailProperty::Subject);
    out.push(EmailProperty::From);
    out.push(EmailProperty::To);
    out.push(EmailProperty::SentAt);
    out.push(EmailProperty::Size);
    out.push(EmailProperty::HasAttachment);
    out.push(EmailProperty::MessageId);
    proof {
        assert(out@ =~= envelope_property_list());
    }
    out
}

/// The keywords that are set.
pub open spec fn set_keywords(list: Seq<(Seq<char>, bool)>) -> Set<Seq<char>>
    decreases list.len(),
{
    if list.len() == 0 {
        Set::empty()
    } else if list.last().1 {
        set_keywords(list.drop_last()).insert(kept(list.last().0))
    } else {
        set_keywords(list.drop_last())
    }
}

/// The first message id that is not empty.
pub open spec fn first_message_id(ids: Seq<Seq<char>>) -> Option<Seq<char>>
    decreases ids.len(),
{
    if ids.len() == 0 {
        None
    } else {
        match message_id_of(ids[0]) {
            Some(id) => Some(id),
            None => first_message_id(ids.drop_first()),
        }
    }
}

/// The text of an optional value, empty for none.
pub open spec fn text_or_empty(text: Option<Seq<char>>) -> Seq<char> {
    match text {
        Some(text) => text,
        None => seq![],
    }
}

/// The members of an optional list, none for none.
pub open spec fn list_or_empty<T>(list: Option<Seq<T>>) -> Seq<T> {
    match list {
        Some(list) => list,
        None => seq![],
    }
}

/// The envelope of a JMAP email. Its date is the author-claimed one.
pub open spec fn envelope_of(email: EmailView) -> EnvelopeView {
    EnvelopeView {
        id: text_or_empty(email.id),
        message_id: first_message_id(list_or_empty(email.message_id)),
        flags: set_keywords(list_or_empty(email.keywords)),
        subject: text_or_empty(email.subject),
        from: list_or_empty(email.from),
        to: list_or_empty(email.to),
        date: match email.sent_at {
            Some(text) => sent_date(text),
            None => None,
        },
        size: match email.size {
            Some(n) => n as nat,
            None => 0,
        },
        has_attachment: email.has_attachment,
    }
}

fn flags_from(list: &Vec<(String, bool)>) -> (r: FlagSet)
    ensures
        r@ == set_keywords(list.deep_view()),
{
    let mut out = FlagSet::new();
    let ghost all = list.deep_view();
    proof {
        assert(all.subrange(0, 0) =~= seq![]);
    }
    let mut i: usize = 0;
    while i < list.len()
        invariant
            i <= list@.len(),
            all == list.deep_view(),
            out@ == set_keywords(all.subrange(0, i as int)),
        decreases list@.len() - i,
    {
        proof {
            assert(all.subrange(0, i + 1).drop_last() =~= all.subrange(0, i as int));
            assert(all.subrange(0, i + 1).last() == list@[i as int].deep_view());
        }
        if list[i].1 {
            out.insert(Flag::from_raw(&list[i].0));
        }
        i = i + 1;
    }
    proof {
        assert(all.subrange(0, all.len() as int) =~= all);
    }
    out
}

fn message_id_from(ids: &Vec<String>) -> (r: Option<String>)
    ensures
        r.deep_view() == first_message_id(ids.deep_view()),
{
    let ghost all = ids.deep_view();
    proof {
        assert(all.subrange(0, all.len() as int) =~= all);
    }
    let mut i: usize = 0;
    while i < ids.len()
        invariant
            i <= ids@.len(),
            all == ids.deep_view(),
            first_message_id(all) == first_message_id(all.subrange(i as int, all.len() as int)),
        decreases ids@.len() - i,
    {
        proof {
            let rest = all.subrange(i as int, all.len() as int);
            assert(rest[0] == ids@[i as int]@);
            assert(rest.drop_first() =~= all.subrange(i + 1, all.len() as int));
        }
        let id = normalize_message_id(&ids[i]);
        if id.is_some() {
            return id;
        }
        i = i + 1;
    }
    None
}

fn text_from(text: &Option<String>) -> (r: String)
    ensures
        r@ == text_or_empty(text.deep_view()),
{
    match text {
        Some(text) => text.clone(),
        None => String::new(),
    }
}

fn addresses_from(list: &Option<Vec<Address>>) -> (r: Vec<Address>)
    ensures
        r.deep_view() == list_or_empty(list.deep_view()),
{
    match list {
        Some(list) => clone_addresses(list),
        None => {
            let none: Vec<Address> = Vec::new();
            proof {
                assert(none.deep_view() =~= seq![]);
            }
            none
        },
    }
}

/// Folds a JMAP email into the shared [`Envelope`] shape.
pub fn envelope_from(email: &Email) -> (r: Envelope)
    ensures
        r.deep_view() == envelope_of(email.deep_view()),
{
    let flags = match &email.keywords {
        Some(list) => flags_from(list),
        None => FlagSet::new(),
    };
    let message_id = match &email.message_id {
        Some(ids) => message_id_from(ids),
        None => None,
    };
    let date = match &email.sent_at {
        Some(text) => parse_rfc3339(text),
        None => None,
    };
    let size: u64 = match email.size {
        Some(n) => n,
        None => 0,
    };
    Envelope {
        id: text_from(&email.id),
        message_id,
        flags,
        subject: text_from(&email.subject),
        from: addresses_from(&email.from),
        to: addresses_from(&email.to),
        date,
        size,
        has_attachment: email.has_attachment,
    }
}

/// The envelopes of JMAP emails.
pub open spec fn envelopes_of(emails: Seq<EmailView>) -> Seq<EnvelopeView> {
    emails.map_values(|email: EmailView| envelope_of(email))
}

/// Folds JMAP emails into the shared [`Envelope`] shape.
pub fn envelopes_from(emails: &Vec<Email>) -> (r: Vec<Envelope>)
    ensures
        r.deep_view() == envelopes_of(emails.deep_view()),
{
    let mut out: Vec<Envelope> = Vec::new();
    let mut i: usize = 0;
    while i < emails.len()
        invariant
            i <= emails@.len(),
            out@.len() == i,
            forall|j: int|
                0 <= j < i ==> (#[trigger] out@[j]).deep_view() == envelope_of(
                    emails@[j].deep_view(),
                ),
        decreases emails@.len() - i,
    {
        out.push(envelope_from(&emails[i]));
        i = i + 1;
    }
    proof {
        assert(out.deep_view() =~= envelopes_of(emails.deep_view()));
    }
    out
}

/// A flag survives the way to a keyword and back.
pub proof fn law_keyword_names_flag(raw: Seq<char>)
    requires
        kept(raw) == raw,
    ensures
        kept(keyword(raw)) == raw,
{
    if let Some(flag) = IanaFlag::parsed(raw) {
        lemma_keyword_parses(flag);
    }
}

proof fn lemma_same_bare(a: Seq<char>, b: Seq<char>)
    requires
        a.len() == b.len(),
        a.len() > 1,
        a[0] == '\\' || a[0] == '$',
        b[0] == '\\' || b[0] == '$',
        a[1] != '\\' && a[1] != '$',
        b[1] != '\\' && b[1] != '$',
        forall|i: int| 1 <= i < a.len() ==> crate::text::lower(a[i]) == crate::text::lower(b[i]),
    ensures
        IanaFlag::parsed(a) == IanaFlag::parsed(b),
{
    let drop = |c: char| crate::flag::sigil(c);
    let x = a.drop_first();
    let y = b.drop_first();
    assert(x[0] == a[1] && y[0] == b[1]);
    assert(crate::text::trim_start(a, drop) == crate::text::trim_start(x, drop));
    assert(crate::text::trim_start(b, drop) == crate::text::trim_start(y, drop));
    assert(crate::text::trim_start(x, drop) == x);
    assert(crate::text::trim_start(y, drop) == y);
    assert(crate::text::ascii_lower(x) =~= crate::text::ascii_lower(y));
}

proof fn lemma_keyword_parses(flag: IanaFlag)
    ensures
        IanaFlag::parsed(keyword(flag.spelling())) == Some(flag),
{
    crate::flag::types::law_spelling_parses_back(flag);
    reveal_strlit("\\Seen");
    reveal_strlit("\\Answered");
    reveal_strlit("\\Flagged");
    reveal_strlit("\\Draft");
    reveal_strlit("\\Deleted");
    reveal_strlit("$Forwarded");
    reveal_strlit("$Junk");
    reveal_strlit("$NotJunk");
    reveal_strlit("$Phishing");
    reveal_strlit("$Important");
    reveal_strlit("$MDNSent");
    reveal_strlit("$seen");
    reveal_strlit("$answered");
    reveal_strlit("$flagged");
    reveal_strlit("$draft");
    reveal_strlit("$deleted");
    reveal_strlit("$forwarded");
    reveal_strlit("$junk");
    reveal_strlit("$notjunk");
    reveal_strlit("$phishing");
    reveal_strlit("$important");
    reveal_strlit("$mdnsent");
    lemma_same_bare(flag.spelling(), keyword(flag.spelling()));
}

/// A flag is set exactly when it is the kept spelling of a keyword that is
/// given as true.
pub proof fn law_flags_are_the_true_keywords(list: Seq<(Seq<char>, bool)>, flag: Seq<char>)
    ensures
        set_keywords(list).contains(flag) <==> exists|i: int|
            0 <= i < list.len() && (#[trigger] list[i]).1 && kept(list[i].0) == flag,
    decreases list.len(),
{
    if list.len() > 0 {
        let most = list.drop_last();
        law_flags_are_the_true_keywords(most, flag);
        assert(list[list.len() - 1] == list.last());
        if set_keywords(most).contains(flag) {
            let i = choose|i: int|
                0 <= i < most.len() && (#[trigger] most[i]).1 && kept(most[i].0) == flag;
            assert(list[i] == most[i]);
        }
        if exists|i: int| 0 <= i < list.len() && (#[trigger] list[i]).1 && kept(list[i].0) == flag {
            let i = choose|i: int|
                0 <= i < list.len() && (#[trigger] list[i]).1 && kept(list[i].0) == flag;
            if i < most.len() {
                assert(most[i] == list[i]);
            }
        }
    }
}

/// The Message-ID is the first that is not blank.
pub proof fn law_first_message_id(ids: Seq<Seq<char>>, k: int)
    requires
        0 <= k <= ids.len(),
        forall|i: int| 0 <= i < k ==> message_id_of(#[trigger] ids[i]) is None,
    ensures
        k < ids.len() && message_id_of(ids[k]) is Some ==> first_message_id(ids) == message_id_of(ids[k]),
        k == ids.len() ==> first_message_id(ids) is None,
    decreases k,
{
    if k > 0 {
        let rest = ids.drop_first();
        assert(message_id_of(ids[0]) is None);
        assert forall|i: int| 0 <= i < k - 1 implies message_id_of(#[trigger] rest[i]) is None by {
            assert(rest[i] == ids[i + 1]);
        }
        law_first_message_id(rest, k - 1);
        if k < ids.len() {
            assert(rest[k - 1] == ids[k]);
        }
    }
}

/// An envelope says of its email what the server told, and nothing where the
/// server told nothing: senders stay senders and recipients recipients.
pub proof fn law_envelope_says_what_was_told(email: EmailView)
    ensures
        ({
            let e = envelope_of(email);
            &&& email.id matches Some(id) ==> e.id == id
            &&& email.subject matches Some(subject) ==> e.subject == subject
            &&& email.from matches Some(from) ==> e.from == from
            &&& email.to matches Some(to) ==> e.to == to
            &&& email.size matches Some(size) ==> e.size == size
            &&& email.sent_at matches Some(text) ==> e.date == sent_date(text)
            &&& email.keywords matches Some(list) ==> e.flags == set_keywords(list)
            &&& email.message_id matches Some(ids) ==> e.message_id == first_message_id(ids)
            &&& e.has_attachment == email.has_attachment
            &&& email.id is None ==> e.id.len() == 0
            &&& email.subject is None ==> e.subject.len() == 0
            &&& email.from is None ==> e.from.len() == 0
            &&& email.to is None ==> e.to.len() == 0
            &&& email.size is None ==> e.size == 0
            &&& email.sent_at is None ==> e.date is None
            &&& email.keywords is None ==> forall|flag: Seq<char>| !e.flags.contains(flag)
            &&& email.message_id is None ==> e.message_id is None
        }),
{
}

/// Every property that an envelope is read from is asked for, none twice.
pub proof fn law_properties_asked_for()
    ensures
        envelope_property_list().no_duplicates(),
        envelope_property_list().contains(EmailProperty::Id),
        envelope_property_list().contains(EmailProperty::Keywords),
        envelope_property_list().contains(EmailProperty::Subject),
        envelope_property_list().contains(EmailProperty::From),
        envelope_property_list().contains(EmailProperty::To),
        envelope_property_list().contains(EmailProperty::SentAt),
        envelope_property_list().contains(EmailProperty::Size),
        envelope_property_list().contains(EmailProperty::HasAttachment),
        envelope_property_list().contains(EmailProperty::MessageId),
{
    let list = envelope_property_list();
    assert(list[0] == EmailProperty::Id);
    assert(list[1] == EmailProperty::Keywords);
    assert(list[2] == EmailProperty::Subject);
    assert(list[3] == EmailProperty::From);
    assert(list[4] == EmailProperty::To);
    assert(list[5] == EmailProperty::SentAt);
    assert(list[6] == EmailProperty::Size);
    assert(list[7] == EmailProperty::HasAttachment);
    assert(list[8] == EmailProperty::MessageId);
}

/// What a server gives of a list from a position on, at most `limit` items.
pub open spec fn window<T>(list: Seq<T>, position: Option<u64>, limit: Option<u64>) -> Seq<T> {
    let start = match position {
        Some(at) => if at < list.len() {
            at as int
        } else {
            list.len() as int
        },
        None => 0,
    };
    let end = match limit {
        Some(n) => if start + n < list.len() {
            start + n
        } else {
            list.len() as int
        },
        None => list.len() as int,
    };
    list.subrange(start, end)
}

/// The position and the limit are those of the page: a server that is asked
/// with them gives the page.
pub proof fn law_window_is_the_page<T>(list: Seq<T>, page: Option<u32>, page_size: Option<u32>)
    ensures
        window(list, position_limit(page, page_size).0, position_limit(page, page_size).1) =~= page_of(
            list,
            page,
            page_size,
        ),
{
    if let Some(size) = page_size {
        let number = page_number(page);
        assert(0 <= (number - 1) * size <= 0xffff_ffff * 0xffff_ffff) by (nonlinear_arith)
            requires
                0 <= number - 1 <= 0xffff_ffff,
                0 <= size <= 0xffff_ffff,
        ;
    }
}

/// Keywords reach the server in the order of the flags, none left out; flags
/// that are not the same are told apart by them.
pub proof fn law_every_flag_is_a_keyword(flags: Seq<Flag>, i: int, j: int)
    requires
        0 <= i < flags.len(),
        0 <= j < flags.len(),
        kept(flags[i]@) == flags[i]@,
        kept(flags[j]@) == flags[j]@,
    ensures
        keywords(flags).len() == flags.len(),
        kept(keywords(flags)[i]) == flags[i]@,
        keywords(flags)[i] == keywords(flags)[j] <==> flags[i]@ == flags[j]@,
{
    law_keyword_names_flag(flags[i]@);
    law_keyword_names_flag(flags[j]@);
}

/// The keyword of a registered flag is its name in lower case behind a dollar
/// sign; any other flag is its own keyword.
pub proof fn law_keywords_are_lower_case(raw: Seq<char>)
    ensures
        IanaFlag::parsed(raw) is Some ==> keyword(raw) == seq!['$'] + bare(raw),
        IanaFlag::parsed(raw) is None ==> keyword(raw) == raw,
{
    if let Some(flag) = IanaFlag::parsed(raw) {
        reveal_strlit("$seen");
        reveal_strlit("$answered");
        reveal_strlit("$flagged");
        reveal_strlit("$draft");
        reveal_strlit("$deleted");
        reveal_strlit("$forwarded");
        reveal_strlit("$junk");
        reveal_strlit("$notjunk");
        reveal_strlit("$phishing");
        reveal_strlit("$important");
        reveal_strlit("$mdnsent");
        reveal_strlit("seen");
        reveal_strlit("answered");
        reveal_strlit("flagged");
        reveal_strlit("draft");
        reveal_strlit("deleted");
        reveal_strlit("forwarded");
        reveal_strlit("junk");
        reveal_strlit("notjunk");
        reveal_strlit("phishing");
        reveal_strlit("important");
        reveal_strlit("mdnsent");
        assert(keyword(raw) =~= seq!['$'] + bare(raw));
    }
}

/// The account is the session's primary mail account, and none where it has
/// none.
pub proof fn law_account_is_the_primary_one(session: JmapSession)
    ensures
        session_info(session).mail_account matches Some(id) ==> account_id(session) == id,
        session_info(session).mail_account is None ==> account_id(session).len() == 0,
{
}

} // verus!
