//! Searches of messages that are at hand: filter and sort on the client.
use vstd::prelude::*;
use vstd::utf8::encode_utf8;

use mail_parser::MessageParser;

use crate::address::{Address, AddressView};
use crate::coroutine::RawMessage;
use crate::date::DateTime;
use crate::envelope::{Envelope, EnvelopeView};
use crate::search::{
    asked_for, flags_kept, Mail, SearchEmailsFilterQuery, SearchEmailsSorter, SearchEmailsSorterKind, SearchEmailsSorterOrder,
};
use crate::text::{
    before, contains_text, is_before, lemma_before_total, lemma_before_trans, lowercase,
    lowercase_of, occurs, same_text,
};

verus! {

/// The contents of the text parts of a message and then of its HTML parts,
/// as [`MessageParser::parse`] gives them; `None` where it does not take the
/// message.
pub uninterp spec fn body_parts(raw: Seq<u8>) -> Option<Seq<Seq<u8>>>;

/// The bodies of a message that [`MessageParser::parse`] reads.
#[verifier::external_body]
fn read_bodies(raw: &[u8]) -> (r: Option<Vec<RawMessage>>)
    ensures
        r.deep_view() == body_parts(raw@),
{
    let message = MessageParser::new().parse(raw)?;
    let parts = message.text_bodies().chain(message.html_bodies());
    Some(parts.map(|part| RawMessage { bytes: part.contents().to_vec() }).collect())
}

/// A byte with ASCII upper case letters made lower case.
pub open spec fn lower_byte(b: u8) -> u8 {
    if 65 <= b <= 90 {
        (b + 32) as u8
    } else {
        b
    }
}

/// Whether bytes stand at a place of others, ASCII case aside.
pub open spec fn bytes_at(haystack: Seq<u8>, at: int, needle: Seq<u8>) -> bool {
    &&& at + needle.len() <= haystack.len()
    &&& forall|i: int|
        0 <= i < needle.len() ==> lower_byte(haystack[at + i]) == lower_byte(#[trigger] needle[i])
}

/// Whether bytes occur in others, ASCII case aside.
pub open spec fn bytes_occur(haystack: Seq<u8>, needle: Seq<u8>) -> bool {
    exists|at: int| 0 <= at <= haystack.len() && #[trigger] bytes_at(haystack, at, needle)
}

fn lower_byte_of(b: u8) -> (r: u8)
    ensures
        r == lower_byte(b),
{
    if 65 <= b && b <= 90 {
        b + 32
    } else {
        b
    }
}

/// Whether `needle` occurs in `haystack`, ASCII case aside.
pub fn contains_ignore_ascii_case(haystack: &[u8], needle: &[u8]) -> (r: bool)
    ensures
        r == bytes_occur(haystack@, needle@),
{
    let n: usize = needle.len();
    let len: usize = haystack.len();
    if n > len {
        return false;
    }
    let mut at: usize = 0;
    while at <= len - n
        invariant
            n == needle@.len(),
            len == haystack@.len(),
            n <= len,
            at <= len - n + 1,
            forall|a: int| 0 <= a < at ==> !#[trigger] bytes_at(haystack@, a, needle@),
        decreases len - n + 1 - at,
    {
        let mut i: usize = 0;
        while i < n && lower_byte_of(haystack[at + i]) == lower_byte_of(needle[i])
            invariant
                n == needle@.len(),
                len == haystack@.len(),
                i <= n <= len,
                at <= len - n,
                forall|j: int|
                    0 <= j < i ==> lower_byte(haystack@[at + j]) == lower_byte(#[trigger] needle@[j]),
            decreases n - i,
        {
            i = i + 1;
        }
        if i == n {
            proof {
                assert(bytes_at(haystack@, at as int, needle@));
            }
            return true;
        }
        proof {
            assert(lower_byte(haystack@[at + i]) != lower_byte(needle@[i as int]));
        }
        at = at + 1;
    }
    false
}

/// Whether a pattern occurs in the body of a message, ASCII case aside; in
/// none of a message that cannot be read.
pub open spec fn body_matches(raw: Seq<u8>, pattern: Seq<char>) -> bool {
    match body_parts(raw) {
        Some(parts) => exists|i: int|
            0 <= i < parts.len() && bytes_occur(#[trigger] parts[i], encode_utf8(pattern)),
        None => false,
    }
}

/// Whether `pattern` occurs in a body of the message.
pub fn body_contains(raw: &[u8], pattern: &str) -> (r: bool)
    ensures
        r == body_matches(raw@, pattern@),
{
    let parts = match read_bodies(raw) {
        Some(parts) => parts,
        None => return false,
    };
    let needle = pattern.as_bytes();
    let ghost all = parts.deep_view();
    let mut i: usize = 0;
    while i < parts.len()
        invariant
            i <= parts@.len(),
            all == parts.deep_view(),
            needle@ == encode_utf8(pattern@),
            body_parts(raw@) == Some(all),
            forall|j: int| 0 <= j < i ==> !bytes_occur(#[trigger] all[j], needle@),
        decreases parts@.len() - i,
    {
        proof {
            assert(all[i as int] == parts@[i as int].bytes@);
        }
        if contains_ignore_ascii_case(parts[i].bytes.as_slice(), needle) {
            proof {
                assert(bytes_occur(all[i as int], encode_utf8(pattern@)));
                assert(0 <= i < all.len());
                let parts = body_parts(raw@)->0;
                assert(bytes_occur(parts[i as int], encode_utf8(pattern@)));
                assert(body_matches(raw@, pattern@));
            }
            return true;
        }
        i = i + 1;
    }
    false
}

/// Whether a pattern occurs in an address or its name, case aside.
pub open spec fn address_matches(address: AddressView, pattern: Seq<char>) -> bool {
    occurs(lowercase(address.email), lowercase(pattern)) || (address.name matches Some(name)
        && occurs(lowercase(name), lowercase(pattern)))
}

/// Whether a pattern occurs in one of some addresses.
pub open spec fn any_address_matches(addresses: Seq<AddressView>, pattern: Seq<char>) -> bool {
    exists|i: int| 0 <= i < addresses.len() && address_matches(#[trigger] addresses[i], pattern)
}

fn addresses_contain(addresses: &Vec<Address>, pattern: &str) -> (r: bool)
    ensures
        r == any_address_matches(addresses.deep_view(), pattern@),
{
    let needle = lowercase_of(pattern);
    let ghost all = addresses.deep_view();
    let mut i: usize = 0;
    while i < addresses.len()
        invariant
            i <= addresses@.len(),
            all == addresses.deep_view(),
            needle@ == lowercase(pattern@),
            forall|j: int| 0 <= j < i ==> !address_matches(#[trigger] all[j], pattern@),
        decreases addresses@.len() - i,
    {
        proof {
            assert(all[i as int] == addresses@[i as int].deep_view());
        }
        let email = lowercase_of(addresses[i].email.as_str());
        let mut hit = contains_text(email.as_str(), needle.as_str());
        if let Some(name) = &addresses[i].name {
            let name = lowercase_of(name.as_str());
            if contains_text(name.as_str(), needle.as_str()) {
                hit = true;
            }
        }
        if hit {
            proof {
                assert(address_matches(all[i as int], pattern@));
            }
            return true;
        }
        i = i + 1;
    }
    false
}

/// Whether a message meets a filter: `raw` is the message that the envelope
/// is of.
pub open spec fn meets(envelope: EnvelopeView, raw: Seq<u8>, filter: SearchEmailsFilterQuery) -> bool
    decreases filter,
{
    match filter {
        SearchEmailsFilterQuery::And(left, right) => meets(envelope, raw, *left) && meets(
            envelope,
            raw,
            *right,
        ),
        SearchEmailsFilterQuery::Or(left, right) => meets(envelope, raw, *left) || meets(
            envelope,
            raw,
            *right,
        ),
        SearchEmailsFilterQuery::Not(inner) => !meets(envelope, raw, *inner),
        SearchEmailsFilterQuery::Date(day) => envelope.date matches Some(at) && at.date@ == day@,
        SearchEmailsFilterQuery::AfterDate(day) => envelope.date matches Some(at) && day@.before(
            at.date@,
        ),
        SearchEmailsFilterQuery::From(pattern) => any_address_matches(envelope.from, pattern@),
        SearchEmailsFilterQuery::To(pattern) => any_address_matches(envelope.to, pattern@),
        SearchEmailsFilterQuery::Subject(pattern) => occurs(
            lowercase(envelope.subject),
            lowercase(pattern@),
        ),
        SearchEmailsFilterQuery::Body(pattern) => body_matches(raw, pattern@),
        SearchEmailsFilterQuery::Flag(flag) => envelope.flags.contains(flag@),
    }
}

/// Evaluates `filter` against `envelope`; bodies are looked for in `raw`.
pub fn matches_filter(envelope: &Envelope, raw: &[u8], filter: &SearchEmailsFilterQuery) -> (r: bool)
    ensures
        r == meets(envelope.deep_view(), raw@, *filter),
    decreases filter,
{
    match filter {
        SearchEmailsFilterQuery::And(left, right) => matches_filter(envelope, raw, left)
            && matches_filter(envelope, raw, right),
        SearchEmailsFilterQuery::Or(left, right) => matches_filter(envelope, raw, left)
            || matches_filter(envelope, raw, right),
        SearchEmailsFilterQuery::Not(inner) => !matches_filter(envelope, raw, inner),
        SearchEmailsFilterQuery::Date(day) => match envelope.date {
            Some(at) => at.date.is(*day),
            None => false,
        },
        SearchEmailsFilterQuery::AfterDate(day) => match envelope.date {
            Some(at) => day.is_before(at.date),
            None => false,
        },
        SearchEmailsFilterQuery::From(pattern) => addresses_contain(
            &envelope.from,
            pattern.as_str(),
        ),
        SearchEmailsFilterQuery::To(pattern) => addresses_contain(&envelope.to, pattern.as_str()),
        SearchEmailsFilterQuery::Subject(pattern) => {
            let subject = lowercase_of(envelope.subject.as_str());
            let needle = lowercase_of(pattern.as_str());
            contains_text(subject.as_str(), needle.as_str())
        },
        SearchEmailsFilterQuery::Body(pattern) => body_contains(raw, pattern.as_str()),
        SearchEmailsFilterQuery::Flag(flag) => envelope.flags.contains(flag),
    }
}

/// How one value stands to another in an order.
#[derive(Clone, Copy, Debug, PartialEq, Eq, Structural)]
pub enum Relation {
    Less,
    Equal,
    Greater,
}

impl Relation {
    /// How the other value stands to the one.
    pub open spec fn flipped(self) -> Relation {
        match self {
            Relation::Less => Relation::Greater,
            Relation::Equal => Relation::Equal,
            Relation::Greater => Relation::Less,
        }
    }

    fn flip(self) -> (r: Relation)
        ensures
            r == self.flipped(),
    {
        match self {
            Relation::Less => Relation::Greater,
            Relation::Equal => Relation::Equal,
            Relation::Greater => Relation::Less,
        }
    }
}

/// How two dates stand to each other; none comes before any.
pub open spec fn date_relation(a: Option<DateTime>, b: Option<DateTime>) -> Relation {
    match (a, b) {
        (None, None) => Relation::Equal,
        (None, Some(_)) => Relation::Less,
        (Some(_), None) => Relation::Greater,
        (Some(a), Some(b)) => if a.earlier(b) {
            Relation::Less
        } else if b.earlier(a) {
            Relation::Greater
        } else {
            Relation::Equal
        },
    }
}

/// How two texts stand to each other; none comes before any.
pub open spec fn text_relation(a: Option<Seq<char>>, b: Option<Seq<char>>) -> Relation {
    match (a, b) {
        (None, None) => Relation::Equal,
        (None, Some(_)) => Relation::Less,
        (Some(_), None) => Relation::Greater,
        (Some(a), Some(b)) => if before(a, b) {
            Relation::Less
        } else if a == b {
            Relation::Equal
        } else {
            Relation::Greater
        },
    }
}

/// What addresses are sorted by: the name of the first, or its address, in
/// lower case.
pub open spec fn address_key(addresses: Seq<AddressView>) -> Option<Seq<char>> {
    if addresses.len() == 0 {
        None
    } else {
        match addresses[0].name {
            Some(name) => Some(lowercase(name)),
            None => Some(lowercase(addresses[0].email)),
        }
    }
}

/// How two envelopes stand to each other by one key.
pub open spec fn key_relation(a: EnvelopeView, b: EnvelopeView, kind: SearchEmailsSorterKind) -> Relation {
    match kind {
        SearchEmailsSorterKind::Date => date_relation(a.date, b.date),
        SearchEmailsSorterKind::From => text_relation(address_key(a.from), address_key(b.from)),
        SearchEmailsSorterKind::To => text_relation(address_key(a.to), address_key(b.to)),
        SearchEmailsSorterKind::Subject => text_relation(Some(a.subject), Some(b.subject)),
    }
}

/// How two envelopes stand to each other by one sorter.
pub open spec fn sorter_relation(a: EnvelopeView, b: EnvelopeView, sorter: SearchEmailsSorter) -> Relation {
    match sorter.1 {
        SearchEmailsSorterOrder::Ascending => key_relation(a, b, sorter.0),
        SearchEmailsSorterOrder::Descending => key_relation(a, b, sorter.0).flipped(),
    }
}

/// How two envelopes stand to each other by a chain of sorters: by the first
/// that tells them apart.
pub open spec fn relation(a: EnvelopeView, b: EnvelopeView, sort: Seq<SearchEmailsSorter>) -> Relation
    decreases sort.len(),
{
    if sort.len() == 0 {
        Relation::Equal
    } else {
        let first = sorter_relation(a, b, sort[0]);
        if first == Relation::Equal {
            relation(a, b, sort.skip(1))
        } else {
            first
        }
    }
}

fn compare_dates(a: Option<DateTime>, b: Option<DateTime>) -> (r: Relation)
    ensures
        r == date_relation(a, b),
{
    match (a, b) {
        (None, None) => Relation::Equal,
        (None, Some(_)) => Relation::Less,
        (Some(_), None) => Relation::Greater,
        (Some(a), Some(b)) => {
            if a.seconds < b.seconds || (a.seconds == b.seconds && a.nanos < b.nanos) {
                Relation::Less
            } else if b.seconds < a.seconds || (b.seconds == a.seconds && b.nanos < a.nanos) {
                Relation::Greater
            } else {
                Relation::Equal
            }
        },
    }
}

fn compare_texts(a: &str, b: &str) -> (r: Relation)
    ensures
        r == text_relation(Some(a@), Some(b@)),
{
    if is_before(a, b) {
        Relation::Less
    } else if same_text(a, b) {
        Relation::Equal
    } else {
        Relation::Greater
    }
}

fn first_addr_key(addresses: &Vec<Address>) -> (r: Option<String>)
    ensures
        r.deep_view() == address_key(addresses.deep_view()),
{
    if addresses.len() == 0 {
        return None;
    }
    proof {
        assert(addresses.deep_view()[0] == addresses@[0].deep_view());
    }
    match &addresses[0].name {
        Some(name) => Some(lowercase_of(name.as_str())),
        None => Some(lowercase_of(addresses[0].email.as_str())),
    }
}

fn compare_keys(a: &Vec<Address>, b: &Vec<Address>) -> (r: Relation)
    ensures
        r == text_relation(address_key(a.deep_view()), address_key(b.deep_view())),
{
    match (first_addr_key(a), first_addr_key(b)) {
        (None, None) => Relation::Equal,
        (None, Some(_)) => Relation::Less,
        (Some(_), None) => Relation::Greater,
        (Some(a), Some(b)) => compare_texts(a.as_str(), b.as_str()),
    }
}

/// Compares two envelopes by a chain of sorters.
pub fn compare_with(left: &Envelope, right: &Envelope, sort: &[SearchEmailsSorter]) -> (r: Relation)
    ensures
        r == relation(left.deep_view(), right.deep_view(), sort@),
{
    let ghost a = left.deep_view();
    let ghost b = right.deep_view();
    proof {
        assert(sort@.skip(0) =~= sort@);
    }
    let mut i: usize = 0;
    while i < sort.len()
        invariant
            i <= sort@.len(),
            a == left.deep_view(),
            b == right.deep_view(),
            relation(a, b, sort@) == relation(a, b, sort@.skip(i as int)),
        decreases sort@.len() - i,
    {
        proof {
            assert(sort@.skip(i as int)[0] == sort@[i as int]);
            assert(sort@.skip(i as int).skip(1) =~= sort@.skip(i + 1));
        }
        let ordered = match sort[i].0 {
            SearchEmailsSorterKind::Date => compare_dates(left.date, right.date),
            SearchEmailsSorterKind::From => compare_keys(&left.from, &right.from),
            SearchEmailsSorterKind::To => compare_keys(&left.to, &right.to),
            SearchEmailsSorterKind::Subject => compare_texts(
                left.subject.as_str(),
                right.subject.as_str(),
            ),
        };
        let ordered = match sort[i].1 {
            SearchEmailsSorterOrder::Ascending => ordered,
            SearchEmailsSorterOrder::Descending => ordered.flip(),
        };
        if ordered != Relation::Equal {
            return ordered;
        }
        i = i + 1;
    }
    Relation::Equal
}

/// The sorters that apply: the newest first where none are given.
pub open spec fn effective(sort: Seq<SearchEmailsSorter>) -> Seq<SearchEmailsSorter> {
    if sort.len() == 0 {
        seq![SearchEmailsSorter(SearchEmailsSorterKind::Date, SearchEmailsSorterOrder::Descending)]
    } else {
        sort
    }
}

/// A sorted list with one more envelope, behind those that do not come
/// after it.
pub open spec fn placed(list: Seq<EnvelopeView>, envelope: EnvelopeView, sort: Seq<SearchEmailsSorter>) -> Seq<
    EnvelopeView,
>
    decreases list.len(),
{
    if list.len() == 0 || relation(list.last(), envelope, sort) != Relation::Greater {
        list.push(envelope)
    } else {
        placed(list.drop_last(), envelope, sort).push(list.last())
    }
}

/// Envelopes in order; those that the sorters do not tell apart stay in the
/// order they came in.
pub open spec fn sorted(list: Seq<EnvelopeView>, sort: Seq<SearchEmailsSorter>) -> Seq<EnvelopeView>
    decreases list.len(),
{
    if list.len() == 0 {
        list
    } else {
        placed(sorted(list.drop_last(), sort), list.last(), sort)
    }
}

/// Puts an envelope into its place in a sorted list.
fn place(list: &mut Vec<Envelope>, envelope: Envelope, sort: &[SearchEmailsSorter])
    ensures
        final(list).deep_view() == placed(old(list).deep_view(), envelope.deep_view(), sort@),
{
    let ghost all = list.deep_view();
    let ghost view = envelope.deep_view();
    let mut n: usize = list.len();
    proof {
        assert(all.take(n as int) =~= all);
        assert(all.skip(n as int) =~= seq![]);
        assert(placed(all, view, sort@) + seq![] =~= placed(all, view, sort@));
    }
    while n > 0 && compare_with(&list[n - 1], &envelope, sort) == Relation::Greater
        invariant
            n <= list@.len(),
            all == list.deep_view(),
            view == envelope.deep_view(),
            placed(all, view, sort@) == placed(all.take(n as int), view, sort@) + all.skip(n as int),
        decreases n,
    {
        proof {
            let head = all.take(n as int);
            assert(head.drop_last() =~= all.take(n - 1));
            assert(head.last() == all[n - 1]);
            assert(all[n - 1] == list@[n - 1].deep_view());
            let inner = placed(all.take(n - 1), view, sort@);
            assert(inner.push(all[n - 1]) + all.skip(n as int) =~= inner + all.skip(n - 1));
        }
        n = n - 1;
    }
    proof {
        let head = all.take(n as int);
        if n > 0 {
            assert(head.last() == all[n - 1]);
            assert(all[n - 1] == list@[n - 1].deep_view());
        }
        assert(placed(head, view, sort@) == head.push(view));
        assert(head.push(view) + all.skip(n as int) =~= all.insert(n as int, view));
    }
    list.insert(n, envelope);
    proof {
        assert(list.deep_view() =~= all.insert(n as int, view));
    }
}

/// Sorts envelopes; those that the sorters do not tell apart stay in their
/// order.
pub fn sort_envelopes(envelopes: &Vec<Envelope>, sort: &[SearchEmailsSorter]) -> (r: Vec<Envelope>)
    ensures
        r.deep_view() == sorted(envelopes.deep_view(), sort@),
{
    let ghost all = envelopes.deep_view();
    let mut out: Vec<Envelope> = Vec::new();
    proof {
        assert(all.take(0) =~= seq![]);
        assert(out.deep_view() =~= seq![]);
    }
    let mut i: usize = 0;
    while i < envelopes.len()
        invariant
            i <= envelopes@.len(),
            all == envelopes.deep_view(),
            out.deep_view() == sorted(all.take(i as int), sort@),
        decreases envelopes@.len() - i,
    {
        proof {
            assert(all.take(i + 1).drop_last() =~= all.take(i as int));
            assert(all.take(i + 1).last() == envelopes@[i as int].deep_view());
        }
        place(&mut out, envelopes[i].clone(), sort);
        i = i + 1;
    }
    proof {
        assert(all.take(all.len() as int) =~= all);
    }
    out
}

proof fn lemma_text_relation(a: Option<Seq<char>>, b: Option<Seq<char>>, c: Option<Seq<char>>)
    ensures
        text_relation(b, a) == text_relation(a, b).flipped(),
        text_relation(a, b) != Relation::Greater && text_relation(b, c) != Relation::Greater ==> {
            &&& text_relation(a, c) != Relation::Greater
            &&& text_relation(a, c) == Relation::Equal ==> text_relation(a, b) == Relation::Equal
                && text_relation(b, c) == Relation::Equal
        },
{
    if a is Some && b is Some {
        lemma_before_total(a->0, b->0);
        if c is Some {
            lemma_before_total(b->0, c->0);
            lemma_before_total(a->0, c->0);
            if before(a->0, b->0) && before(b->0, c->0) {
                lemma_before_trans(a->0, b->0, c->0);
            }
        }
    }
}

proof fn lemma_sorter_relation(a: EnvelopeView, b: EnvelopeView, c: EnvelopeView, sorter: SearchEmailsSorter)
    ensures
        sorter_relation(b, a, sorter) == sorter_relation(a, b, sorter).flipped(),
        sorter_relation(a, b, sorter) != Relation::Greater && sorter_relation(b, c, sorter)
            != Relation::Greater ==> {
            &&& sorter_relation(a, c, sorter) != Relation::Greater
            &&& sorter_relation(a, c, sorter) == Relation::Equal ==> sorter_relation(a, b, sorter)
                == Relation::Equal && sorter_relation(b, c, sorter) == Relation::Equal
        },
{
    lemma_text_relation(address_key(a.from), address_key(b.from), address_key(c.from));
    lemma_text_relation(address_key(c.from), address_key(b.from), address_key(a.from));
    lemma_text_relation(address_key(a.from), address_key(c.from), address_key(b.from));
    lemma_text_relation(address_key(a.to), address_key(b.to), address_key(c.to));
    lemma_text_relation(address_key(c.to), address_key(b.to), address_key(a.to));
    lemma_text_relation(address_key(a.to), address_key(c.to), address_key(b.to));
    lemma_text_relation(Some(a.subject), Some(b.subject), Some(c.subject));
    lemma_text_relation(Some(c.subject), Some(b.subject), Some(a.subject));
    lemma_text_relation(Some(a.subject), Some(c.subject), Some(b.subject));
}

proof fn lemma_relation(a: EnvelopeView, b: EnvelopeView, c: EnvelopeView, sort: Seq<SearchEmailsSorter>)
    ensures
        relation(b, a, sort) == relation(a, b, sort).flipped(),
        relation(a, b, sort) != Relation::Greater && relation(b, c, sort) != Relation::Greater ==> {
            &&& relation(a, c, sort) != Relation::Greater
            &&& relation(a, c, sort) == Relation::Equal ==> relation(a, b, sort) == Relation::Equal
                && relation(b, c, sort) == Relation::Equal
        },
    decreases sort.len(),
{
    if sort.len() > 0 {
        lemma_sorter_relation(a, b, c, sort[0]);
        lemma_relation(a, b, c, sort.skip(1));
    }
}

/// Whether no envelope of a list comes after a later one.
pub open spec fn in_order(list: Seq<EnvelopeView>, sort: Seq<SearchEmailsSorter>) -> bool {
    forall|i: int, j: int|
        0 <= i < j < list.len() ==> relation(#[trigger] list[i], #[trigger] list[j], sort)
            != Relation::Greater
}

proof fn lemma_placed(list: Seq<EnvelopeView>, envelope: EnvelopeView, sort: Seq<SearchEmailsSorter>)
    requires
        in_order(list, sort),
    ensures
        in_order(placed(list, envelope, sort), sort),
        forall|i: int|
            0 <= i < placed(list, envelope, sort).len() ==> {
                let e = #[trigger] placed(list, envelope, sort)[i];
                e == envelope || list.contains(e)
            },
    decreases list.len(),
{
    let out = placed(list, envelope, sort);
    if list.len() == 0 {
    } else if relation(list.last(), envelope, sort) != Relation::Greater {
        assert forall|i: int, j: int| 0 <= i < j < out.len() implies relation(
            #[trigger] out[i],
            #[trigger] out[j],
            sort,
        ) != Relation::Greater by {
            if j == list.len() && i < list.len() - 1 {
                lemma_relation(list[i], list.last(), envelope, sort);
            }
        }
        assert forall|i: int| 0 <= i < out.len() implies (#[trigger] out[i] == envelope
            || list.contains(out[i])) by {
            if i < list.len() {
                assert(list[i] == out[i]);
            }
        }
    } else {
        let most = list.drop_last();
        let last = list.last();
        let inner = placed(most, envelope, sort);
        lemma_placed(most, envelope, sort);
        lemma_relation(last, envelope, envelope, sort);
        assert forall|i: int, j: int| 0 <= i < j < out.len() implies relation(
            #[trigger] out[i],
            #[trigger] out[j],
            sort,
        ) != Relation::Greater by {
            if j == inner.len() {
                let e = inner[i];
                assert(e == envelope || most.contains(e));
                if e != envelope {
                    let k = choose|k: int| 0 <= k < most.len() && most[k] == e;
                    assert(list[k] == e);
                    assert(relation(list[k], list[list.len() - 1], sort) != Relation::Greater);
                }
            }
        }
        assert forall|i: int| 0 <= i < out.len() implies (#[trigger] out[i] == envelope
            || list.contains(out[i])) by {
            if i < inner.len() {
                let e = inner[i];
                if e != envelope {
                    let k = choose|k: int| 0 <= k < most.len() && most[k] == e;
                    assert(list[k] == e);
                }
            } else {
                assert(list[list.len() - 1] == out[i]);
            }
        }
    }
}

proof fn lemma_placed_members(list: Seq<EnvelopeView>, envelope: EnvelopeView, sort: Seq<SearchEmailsSorter>)
    ensures
        placed(list, envelope, sort).to_multiset() =~= list.to_multiset().insert(envelope),
    decreases list.len(),
{
    broadcast use vstd::seq_lib::group_to_multiset_ensures;

    if list.len() > 0 && relation(list.last(), envelope, sort) == Relation::Greater {
        let most = list.drop_last();
        let last = list.last();
        lemma_placed_members(most, envelope, sort);
        assert(list =~= most.push(last));
        assert(list.to_multiset() =~= most.to_multiset().insert(last));
    }
}

/// Sorting keeps the envelopes and puts them in order: none comes after a
/// later one.
pub proof fn law_sorted(list: Seq<EnvelopeView>, sort: Seq<SearchEmailsSorter>)
    ensures
        in_order(sorted(list, sort), sort),
        sorted(list, sort).to_multiset() =~= list.to_multiset(),
    decreases list.len(),
{
    broadcast use vstd::seq_lib::group_to_multiset_ensures;

    if list.len() > 0 {
        let most = list.drop_last();
        law_sorted(most, sort);
        lemma_placed(sorted(most, sort), list.last(), sort);
        lemma_placed_members(sorted(most, sort), list.last(), sort);
        assert(list =~= most.push(list.last()));
    }
}

/// Sorting what is in order changes nothing: envelopes that the sorters do
/// not tell apart stay as they are.
pub proof fn law_sorted_stays(list: Seq<EnvelopeView>, sort: Seq<SearchEmailsSorter>)
    requires
        in_order(list, sort),
    ensures
        sorted(list, sort) == list,
    decreases list.len(),
{
    if list.len() > 0 {
        let most = list.drop_last();
        law_sorted_stays(most, sort);
        if most.len() > 0 {
            assert(relation(list[list.len() - 2], list[list.len() - 1], sort) != Relation::Greater);
        }
        assert(most.push(list.last()) =~= list);
    }
}

/// Whether a text is found in one of some addresses or in a name of one, case
/// aside.
pub open spec fn found_in(addresses: Seq<AddressView>, text: Seq<char>) -> bool {
    exists|i: int|
        0 <= i < addresses.len() && {
            let address = #[trigger] addresses[i];
            occurs(lowercase(address.email), lowercase(text)) || (address.name is Some && occurs(
                lowercase(address.name->0),
                lowercase(text),
            ))
        }
}

/// A message as a search sees it.
pub open spec fn mail_of(envelope: EnvelopeView, raw: Seq<u8>) -> Mail {
    Mail {
        sender: |text: Seq<char>| found_in(envelope.from, text),
        recipient: |text: Seq<char>| found_in(envelope.to, text),
        subject: |text: Seq<char>| occurs(lowercase(envelope.subject), lowercase(text)),
        body: |text: Seq<char>|
            body_parts(raw) matches Some(parts) && exists|i: int|
                0 <= i < parts.len() && bytes_occur(#[trigger] parts[i], encode_utf8(text)),
        header: |name: Seq<char>, text: Seq<char>| false,
        flags: envelope.flags,
        sent: match envelope.date {
            Some(at) => Some(at.date@),
            None => None,
        },
    }
}

proof fn lemma_found_in(addresses: Seq<AddressView>, text: Seq<char>)
    ensures
        any_address_matches(addresses, text) <==> found_in(addresses, text),
{
    if any_address_matches(addresses, text) {
        let i = choose|i: int| 0 <= i < addresses.len() && address_matches(#[trigger] addresses[i], text);
        assert(addresses[i] == addresses[i]);
    }
    if found_in(addresses, text) {
        let i = choose|i: int|
            0 <= i < addresses.len() && {
                let address = #[trigger] addresses[i];
                occurs(lowercase(address.email), lowercase(text)) || (address.name is Some && occurs(
                    lowercase(address.name->0),
                    lowercase(text),
                ))
            };
        assert(address_matches(addresses[i], text));
    }
}

/// A message meets a filter exactly when it is one that the filter asks for.
pub proof fn law_meets_what_is_asked_for(envelope: EnvelopeView, raw: Seq<u8>, filter: SearchEmailsFilterQuery)
    requires
        flags_kept(filter),
    ensures
        meets(envelope, raw, filter) <==> asked_for(filter, mail_of(envelope, raw)),
    decreases filter,
{
    match filter {
        SearchEmailsFilterQuery::And(left, right) => {
            law_meets_what_is_asked_for(envelope, raw, *left);
            law_meets_what_is_asked_for(envelope, raw, *right);
        },
        SearchEmailsFilterQuery::Or(left, right) => {
            law_meets_what_is_asked_for(envelope, raw, *left);
            law_meets_what_is_asked_for(envelope, raw, *right);
        },
        SearchEmailsFilterQuery::Not(inner) => {
            law_meets_what_is_asked_for(envelope, raw, *inner);
        },
        SearchEmailsFilterQuery::From(pattern) => {
            lemma_found_in(envelope.from, pattern@);
        },
        SearchEmailsFilterQuery::To(pattern) => {
            lemma_found_in(envelope.to, pattern@);
        },
        _ => {},
    }
}

/// Whether two bytes are the same, or the same ASCII letter in two cases.
pub open spec fn same_letter(a: u8, b: u8) -> bool {
    ||| a == b
    ||| 65 <= a <= 90 && b == a + 32
    ||| 65 <= b <= 90 && a == b + 32
}

/// Whether bytes stand at a place of others, letter for letter.
pub open spec fn stands_at(haystack: Seq<u8>, needle: Seq<u8>, at: int) -> bool {
    &&& 0 <= at
    &&& at + needle.len() <= haystack.len()
    &&& forall|i: int| 0 <= i < needle.len() ==> same_letter(haystack[at + i], #[trigger] needle[i])
}

/// Bytes occur in others where they stand at some place, each equal or a
/// letter in the other case.
pub proof fn law_bytes_occur_in_any_case(haystack: Seq<u8>, needle: Seq<u8>)
    ensures
        bytes_occur(haystack, needle) <==> exists|at: int| #[trigger] stands_at(haystack, needle, at),
{
    if bytes_occur(haystack, needle) {
        let at = choose|at: int| 0 <= at <= haystack.len() && #[trigger] bytes_at(haystack, at, needle);
        assert forall|i: int| 0 <= i < needle.len() implies same_letter(
            haystack[at + i],
            #[trigger] needle[i],
        ) by {
            assert(lower_byte(haystack[at + i]) == lower_byte(needle[i]));
        }
        assert(stands_at(haystack, needle, at));
    }
    if exists|at: int| #[trigger] stands_at(haystack, needle, at) {
        let at = choose|at: int| #[trigger] stands_at(haystack, needle, at);
        assert forall|i: int| 0 <= i < needle.len() implies lower_byte(haystack[at + i]) == lower_byte(
            #[trigger] needle[i],
        ) by {
            assert(same_letter(haystack[at + i], needle[i]));
        }
        assert(bytes_at(haystack, at, needle));
    }
}

/// Envelopes are told apart by the first sorter of the chain that does so,
/// and not at all where none does.
pub proof fn law_first_sorter_decides(a: EnvelopeView, b: EnvelopeView, sort: Seq<SearchEmailsSorter>, k: int)
    requires
        0 <= k <= sort.len(),
        forall|i: int| 0 <= i < k ==> sorter_relation(a, b, #[trigger] sort[i]) == Relation::Equal,
    ensures
        k == sort.len() ==> relation(a, b, sort) == Relation::Equal,
        k < sort.len() && sorter_relation(a, b, sort[k]) != Relation::Equal ==> relation(a, b, sort)
            == sorter_relation(a, b, sort[k]),
    decreases k,
{
    if k > 0 {
        let rest = sort.skip(1);
        assert(sorter_relation(a, b, sort[0]) == Relation::Equal);
        assert forall|i: int| 0 <= i < k - 1 implies sorter_relation(a, b, #[trigger] rest[i])
            == Relation::Equal by {
            assert(rest[i] == sort[i + 1]);
        }
        law_first_sorter_decides(a, b, rest, k - 1);
        if k < sort.len() {
            assert(rest[k - 1] == sort[k]);
        }
    }
}

/// Ascending puts the earlier date first and one without a date before all;
/// descending is the same the other way round.
pub proof fn law_sort_by_date(a: EnvelopeView, b: EnvelopeView, order: SearchEmailsSorterOrder)
    ensures
        ({
            let r = sorter_relation(a, b, SearchEmailsSorter(SearchEmailsSorterKind::Date, order));
            let up = order == SearchEmailsSorterOrder::Ascending;
            &&& a.date is None && b.date is Some ==> r == if up {
                Relation::Less
            } else {
                Relation::Greater
            }
            &&& (a.date matches Some(x) && b.date matches Some(y) && (x.seconds < y.seconds || x.seconds
                == y.seconds && x.nanos < y.nanos)) ==> r == if up {
                Relation::Less
            } else {
                Relation::Greater
            }
            &&& (a.date matches Some(x) && b.date matches Some(y) && x.seconds == y.seconds && x.nanos
                == y.nanos) ==> r == Relation::Equal
            &&& a.date is None && b.date is None ==> r == Relation::Equal
        }),
{
}

/// The text that a sorter goes by.
pub open spec fn sort_text(envelope: EnvelopeView, kind: SearchEmailsSorterKind) -> Option<Seq<char>> {
    let people = if kind == SearchEmailsSorterKind::From {
        envelope.from
    } else {
        envelope.to
    };
    if kind == SearchEmailsSorterKind::Subject {
        Some(envelope.subject)
    } else if people.len() == 0 {
        None
    } else if people[0].name is Some {
        Some(lowercase(people[0].name->0))
    } else {
        Some(lowercase(people[0].email))
    }
}

/// Subjects, senders and recipients are put in the order of the dictionary,
/// one without any before all; of several people the first counts, by name
/// where there is one. Descending is the same the other way round.
pub proof fn law_sort_by_text(
    a: EnvelopeView,
    b: EnvelopeView,
    kind: SearchEmailsSorterKind,
    order: SearchEmailsSorterOrder,
)
    requires
        kind != SearchEmailsSorterKind::Date,
    ensures
        ({
            let r = sorter_relation(a, b, SearchEmailsSorter(kind, order));
            let up = order == SearchEmailsSorterOrder::Ascending;
            let x = sort_text(a, kind);
            let y = sort_text(b, kind);
            &&& x == y <==> r == Relation::Equal
            &&& x is None && y is Some ==> r == if up {
                Relation::Less
            } else {
                Relation::Greater
            }
            &&& x is Some && y is Some && before(x->0, y->0) ==> r == if up {
                Relation::Less
            } else {
                Relation::Greater
            }
        }),
{
    let x = sort_text(a, kind);
    let y = sort_text(b, kind);
    if x is Some && y is Some {
        lemma_before_total(x->0, y->0);
    }
}

/// Of envelopes that the sorters do not tell apart, the one that came first
/// stays first, whatever else is in the list.
pub proof fn law_sorting_is_stable(list: Seq<EnvelopeView>, sort: Seq<SearchEmailsSorter>, e: EnvelopeView)
    ensures
        sorted(list, sort).filter(|x: EnvelopeView| relation(x, e, sort) == Relation::Equal)
            == list.filter(|x: EnvelopeView| relation(x, e, sort) == Relation::Equal),
    decreases list.len(),
{
    reveal(Seq::filter);
    let same = |x: EnvelopeView| relation(x, e, sort) == Relation::Equal;
    if list.len() > 0 {
        let most = list.drop_last();
        law_sorting_is_stable(most, sort, e);
        lemma_placed_stable(sorted(most, sort), list.last(), sort, e);
    }
}

proof fn lemma_placed_stable(
    list: Seq<EnvelopeView>,
    envelope: EnvelopeView,
    sort: Seq<SearchEmailsSorter>,
    e: EnvelopeView,
)
    ensures
        ({
            let same = |x: EnvelopeView| relation(x, e, sort) == Relation::Equal;
            placed(list, envelope, sort).filter(same) == if same(envelope) {
                list.filter(same).push(envelope)
            } else {
                list.filter(same)
            }
        }),
    decreases list.len(),
{
    reveal(Seq::filter);
    let same = |x: EnvelopeView| relation(x, e, sort) == Relation::Equal;
    if list.len() == 0 || relation(list.last(), envelope, sort) != Relation::Greater {
        assert(list.push(envelope).drop_last() =~= list);
    } else {
        let most = list.drop_last();
        let last = list.last();
        lemma_placed_stable(most, envelope, sort, e);
        let inner = placed(most, envelope, sort);
        assert(inner.push(last).drop_last() =~= inner);
        if same(envelope) && same(last) {
            lemma_relation(last, e, envelope, sort);
            lemma_relation(e, envelope, envelope, sort);
            lemma_relation(envelope, e, last, sort);
        }
    }
}

/// Without sorters the newest come first.
pub proof fn law_newest_first_by_default(sort: Seq<SearchEmailsSorter>)
    ensures
        sort.len() > 0 ==> effective(sort) == sort,
        sort.len() == 0 ==> effective(sort).len() == 1 && effective(sort)[0] == SearchEmailsSorter(
            SearchEmailsSorterKind::Date,
            SearchEmailsSorterOrder::Descending,
        ),
{
}

} // verus!
