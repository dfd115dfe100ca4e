//! IMAP SEARCH keys and SORT criteria, and the translation of a shared
//! search query into them.
//!
//! Date filters target the `Date:` header via SENTON and SENTSINCE. An
//! absent filter is ALL; an absent sort is REVERSE DATE.
use vstd::prelude::*;

use io_imap::types::search::SearchKey as ImapSearchKey;

use crate::date::{date_text, law_days_are_ordered, law_next_day_is_adjacent, Date, DateView};
use crate::flag::types::{kept, Flag, IanaFlag};
use crate::imap::convert::{atom, is_atom, is_transmissible, transmissible};
use crate::imap::wire::{
    key_and, key_content, key_header, key_keyword, key_not, key_or, key_plain, key_sent, key_text,
};
use crate::search::{
    asked_for, days_valid, Mail, SearchEmailsFilterQuery, SearchEmailsSorter, SearchEmailsSorterKind,
    SearchEmailsSorterOrder,
};

verus! {

/// A SEARCH key that stands by itself.
#[derive(Clone, Copy, Debug, PartialEq, Eq, Structural)]
pub enum PlainKey {
    All,
    Seen,
    Answered,
    Flagged,
    Draft,
    Deleted,
}

/// A field in which a SEARCH key looks for a text.
#[derive(Clone, Copy, Debug, PartialEq, Eq, Structural)]
pub enum TextField {
    From,
    To,
    Subject,
    Body,
}

/// An IMAP SEARCH key.
#[derive(Debug)]
pub enum SearchKey {
    And(Box<SearchKey>, Box<SearchKey>),
    Or(Box<SearchKey>, Box<SearchKey>),
    Not(Box<SearchKey>),
    Plain(PlainKey),
    Text(TextField, String),
    /// A header of this name holds this text.
    Header(String, String),
    Keyword(String),
    /// The `Date:` header falls on this day.
    SentOn(Date),
    /// The `Date:` header falls on this day or later.
    SentSince(Date),
}

/// What a [`SearchKey`] says; a date with whether later days count too.
pub enum SearchKeyView {
    And(Box<SearchKeyView>, Box<SearchKeyView>),
    Or(Box<SearchKeyView>, Box<SearchKeyView>),
    Not(Box<SearchKeyView>),
    Plain(PlainKey),
    Text(TextField, Seq<char>),
    Header(Seq<char>, Seq<char>),
    Keyword(Seq<char>),
    Sent(DateView, bool),
}

impl SearchKey {
    pub open spec fn content(self) -> SearchKeyView
        decreases self,
    {
        match self {
            SearchKey::And(left, right) => SearchKeyView::And(
                Box::new(left.content()),
                Box::new(right.content()),
            ),
            SearchKey::Or(left, right) => SearchKeyView::Or(
                Box::new(left.content()),
                Box::new(right.content()),
            ),
            SearchKey::Not(inner) => SearchKeyView::Not(Box::new(inner.content())),
            SearchKey::Plain(key) => SearchKeyView::Plain(key),
            SearchKey::Text(field, text) => SearchKeyView::Text(field, text@),
            SearchKey::Header(name, text) => SearchKeyView::Header(name@, text@),
            SearchKey::Keyword(text) => SearchKeyView::Keyword(text@),
            SearchKey::SentOn(date) => SearchKeyView::Sent(date@, false),
            SearchKey::SentSince(date) => SearchKeyView::Sent(date@, true),
        }
    }
}

impl SearchKeyView {
    /// Whether the key can travel: its texts hold no NUL, its keywords are
    /// atoms and its years have four digits.
    pub open spec fn ok(self) -> bool
        decreases self,
    {
        match self {
            SearchKeyView::And(left, right) => left.ok() && right.ok(),
            SearchKeyView::Or(left, right) => left.ok() && right.ok(),
            SearchKeyView::Not(inner) => inner.ok(),
            SearchKeyView::Plain(_) => true,
            SearchKeyView::Text(_, text) => transmissible(text),
            SearchKeyView::Header(name, text) => transmissible(name) && transmissible(text),
            SearchKeyView::Keyword(text) => atom(text),
            SearchKeyView::Sent(date, _) => 0 <= date.year <= 9999,
        }
    }
}

/// The same key as `imap_types` holds it.
pub(crate) fn wire_key(key: &SearchKey) -> (r: ImapSearchKey<'static>)
    requires
        key.content().ok(),
    ensures
        key_content(r) == key.content(),
    decreases key,
{
    match key {
        SearchKey::And(left, right) => key_and(wire_key(left), wire_key(right)),
        SearchKey::Or(left, right) => key_or(wire_key(left), wire_key(right)),
        SearchKey::Not(inner) => key_not(wire_key(inner)),
        SearchKey::Plain(key) => key_plain(*key),
        SearchKey::Text(field, text) => key_text(*field, text),
        SearchKey::Header(name, text) => key_header(name, text),
        SearchKey::Keyword(text) => key_keyword(text),
        SearchKey::SentOn(date) => key_sent(*date, false),
        SearchKey::SentSince(date) => key_sent(*date, true),
    }
}

/// Why a filter has no SEARCH key.
#[derive(Debug)]
pub enum InvalidFilter {
    /// A pattern that cannot travel as an IMAP string.
    Pattern(String),
    /// A keyword that is no IMAP atom.
    Keyword(String),
    /// A day outside the years 0 to 9999.
    Date(String),
}

/// What an [`InvalidFilter`] says.
pub enum InvalidFilterView {
    Pattern(Seq<char>),
    Keyword(Seq<char>),
    Date(Seq<char>),
}

impl DeepView for InvalidFilter {
    type V = InvalidFilterView;

    open spec fn deep_view(&self) -> InvalidFilterView {
        match self {
            InvalidFilter::Pattern(text) => InvalidFilterView::Pattern(text@),
            InvalidFilter::Keyword(text) => InvalidFilterView::Keyword(text@),
            InvalidFilter::Date(text) => InvalidFilterView::Date(text@),
        }
    }
}

pub type KeyResult = Result<SearchKeyView, InvalidFilterView>;

/// The key that looks for `pattern` in a field.
pub open spec fn text_key(field: TextField, pattern: Seq<char>) -> KeyResult {
    if transmissible(pattern) {
        Ok(SearchKeyView::Text(field, pattern))
    } else {
        Err(InvalidFilterView::Pattern(pattern))
    }
}

/// The key for a day.
pub open spec fn sent_key(date: DateView, since: bool) -> KeyResult {
    if 0 <= date.year <= 9999 {
        Ok(SearchKeyView::Sent(date, since))
    } else {
        Err(InvalidFilterView::Date(date_text(date)))
    }
}

/// The key for a flag: the dedicated keys for the system flags, a keyword
/// key for every other.
pub open spec fn flag_key(raw: Seq<char>) -> KeyResult {
    match IanaFlag::parsed(raw) {
        Some(IanaFlag::Seen) => Ok(SearchKeyView::Plain(PlainKey::Seen)),
        Some(IanaFlag::Answered) => Ok(SearchKeyView::Plain(PlainKey::Answered)),
        Some(IanaFlag::Flagged) => Ok(SearchKeyView::Plain(PlainKey::Flagged)),
        Some(IanaFlag::Draft) => Ok(SearchKeyView::Plain(PlainKey::Draft)),
        Some(IanaFlag::Deleted) => Ok(SearchKeyView::Plain(PlainKey::Deleted)),
        _ => if atom(raw) {
            Ok(SearchKeyView::Keyword(raw))
        } else {
            Err(InvalidFilterView::Keyword(raw))
        },
    }
}

/// The SEARCH key of a filter. "After a day" is strict, so it is "since the
/// next day". Of several faults the leftmost is reported.
pub open spec fn imap_key(filter: SearchEmailsFilterQuery) -> KeyResult
    decreases filter,
{
    match filter {
        SearchEmailsFilterQuery::And(left, right) => match (imap_key(*left), imap_key(*right)) {
            (Ok(a), Ok(b)) => Ok(SearchKeyView::And(Box::new(a), Box::new(b))),
            (Err(err), _) => Err(err),
            (_, Err(err)) => Err(err),
        },
        SearchEmailsFilterQuery::Or(left, right) => match (imap_key(*left), imap_key(*right)) {
            (Ok(a), Ok(b)) => Ok(SearchKeyView::Or(Box::new(a), Box::new(b))),
            (Err(err), _) => Err(err),
            (_, Err(err)) => Err(err),
        },
        SearchEmailsFilterQuery::Not(inner) => match imap_key(*inner) {
            Ok(key) => Ok(SearchKeyView::Not(Box::new(key))),
            Err(err) => Err(err),
        },
        SearchEmailsFilterQuery::Date(date) => sent_key(date@, false),
        SearchEmailsFilterQuery::AfterDate(date) => sent_key(date@.next(), true),
        SearchEmailsFilterQuery::From(pattern) => text_key(TextField::From, pattern@),
        SearchEmailsFilterQuery::To(pattern) => text_key(TextField::To, pattern@),
        SearchEmailsFilterQuery::Subject(pattern) => text_key(TextField::Subject, pattern@),
        SearchEmailsFilterQuery::Body(pattern) => text_key(TextField::Body, pattern@),
        SearchEmailsFilterQuery::Flag(flag) => flag_key(flag@),
    }
}

/// The SEARCH key of an optional filter.
pub open spec fn optional_key(filter: Option<SearchEmailsFilterQuery>) -> KeyResult {
    match filter {
        Some(filter) => imap_key(filter),
        None => Ok(SearchKeyView::Plain(PlainKey::All)),
    }
}

/// What a translation came to.
pub open spec fn key_result(r: Result<SearchKey, InvalidFilter>) -> KeyResult {
    match r {
        Ok(key) => Ok(key.content()),
        Err(err) => Err(err.deep_view()),
    }
}

fn text_search(field: TextField, pattern: &String) -> (r: Result<SearchKey, InvalidFilter>)
    ensures
        key_result(r) == text_key(field, pattern@),
        r matches Ok(key) ==> key.content().ok(),
{
    if is_transmissible(pattern) {
        Ok(SearchKey::Text(field, pattern.clone()))
    } else {
        Err(InvalidFilter::Pattern(pattern.clone()))
    }
}

fn flag_search(flag: &Flag) -> (r: Result<SearchKey, InvalidFilter>)
    ensures
        key_result(r) == flag_key(flag@),
        r matches Ok(key) ==> key.content().ok(),
{
    match flag.iana() {
        Some(IanaFlag::Seen) => Ok(SearchKey::Plain(PlainKey::Seen)),
        Some(IanaFlag::Answered) => Ok(SearchKey::Plain(PlainKey::Answered)),
        Some(IanaFlag::Flagged) => Ok(SearchKey::Plain(PlainKey::Flagged)),
        Some(IanaFlag::Draft) => Ok(SearchKey::Plain(PlainKey::Draft)),
        Some(IanaFlag::Deleted) => Ok(SearchKey::Plain(PlainKey::Deleted)),
        _ => {
            let raw = flag.raw().to_owned();
            if is_atom(&raw) {
                Ok(SearchKey::Keyword(raw))
            } else {
                Err(InvalidFilter::Keyword(raw))
            }
        },
    }
}

/// Translates a filter into a SEARCH key.
pub fn convert_filter(filter: &SearchEmailsFilterQuery) -> (r: Result<SearchKey, InvalidFilter>)
    ensures
        key_result(r) == imap_key(*filter),
        r matches Ok(key) ==> key.content().ok(),
    decreases filter,
{
    match filter {
        SearchEmailsFilterQuery::And(left, right) => {
            let left = match convert_filter(left) {
                Ok(key) => key,
                Err(err) => return Err(err),
            };
            let right = match convert_filter(right) {
                Ok(key) => key,
                Err(err) => return Err(err),
            };
            Ok(SearchKey::And(Box::new(left), Box::new(right)))
        },
        SearchEmailsFilterQuery::Or(left, right) => {
            let left = match convert_filter(left) {
                Ok(key) => key,
                Err(err) => return Err(err),
            };
            let right = match convert_filter(right) {
                Ok(key) => key,
                Err(err) => return Err(err),
            };
            Ok(SearchKey::Or(Box::new(left), Box::new(right)))
        },
        SearchEmailsFilterQuery::Not(inner) => match convert_filter(inner) {
            Ok(key) => Ok(SearchKey::Not(Box::new(key))),
            Err(err) => Err(err),
        },
        SearchEmailsFilterQuery::Date(date) => {
            if 0 <= date.year() && date.year() <= 9999 {
                Ok(SearchKey::SentOn(*date))
            } else {
                Err(InvalidFilter::Date(date.to_text()))
            }
        },
        SearchEmailsFilterQuery::AfterDate(date) => {
            let next = date.next();
            if 0 <= next.year() && next.year() <= 9999 {
                Ok(SearchKey::SentSince(next))
            } else {
                Err(InvalidFilter::Date(next.to_text()))
            }
        },
        SearchEmailsFilterQuery::From(pattern) => text_search(TextField::From, pattern),
        SearchEmailsFilterQuery::To(pattern) => text_search(TextField::To, pattern),
        SearchEmailsFilterQuery::Subject(pattern) => text_search(TextField::Subject, pattern),
        SearchEmailsFilterQuery::Body(pattern) => text_search(TextField::Body, pattern),
        SearchEmailsFilterQuery::Flag(flag) => flag_search(flag),
    }
}

/// The SEARCH key for an optional filter, defaulting to ALL.
pub fn search_keys(filter: Option<&SearchEmailsFilterQuery>) -> (r: Result<SearchKey, InvalidFilter>)
    ensures
        key_result(r) == optional_key(match filter {
            Some(filter) => Some(*filter),
            None => None,
        }),
        r matches Ok(key) ==> key.content().ok(),
{
    match filter {
        Some(filter) => convert_filter(filter),
        None => Ok(SearchKey::Plain(PlainKey::All)),
    }
}

/// One SORT key and its direction.
#[derive(Clone, Copy, Debug, PartialEq, Eq, Structural)]
pub struct SortCriterion {
    pub reverse: bool,
    pub key: SearchEmailsSorterKind,
}

/// The SORT criterion of a sorter.
pub open spec fn criterion(sorter: SearchEmailsSorter) -> SortCriterion {
    SortCriterion { reverse: sorter.1 is Descending, key: sorter.0 }
}

/// The SORT criteria of a chain of sorters; without any, the newest first.
pub open spec fn criteria(sorters: Seq<SearchEmailsSorter>) -> Seq<SortCriterion> {
    if sorters.len() == 0 {
        seq![SortCriterion { reverse: true, key: SearchEmailsSorterKind::Date }]
    } else {
        sorters.map_values(|sorter: SearchEmailsSorter| criterion(sorter))
    }
}

/// Translates one sorter.
pub fn convert_sorter(sorter: &SearchEmailsSorter) -> (r: SortCriterion)
    ensures
        r == criterion(*sorter),
{
    let reverse = match sorter.1 {
        SearchEmailsSorterOrder::Descending => true,
        SearchEmailsSorterOrder::Ascending => false,
    };
    SortCriterion { reverse, key: sorter.0 }
}

/// The SORT criteria for a chain of sorters, defaulting to REVERSE DATE
/// when the chain is empty or absent.
pub fn sort_criteria(sort: Option<&[SearchEmailsSorter]>) -> (r: Vec<SortCriterion>)
    ensures
        r@ == criteria(match sort {
            Some(chain) => chain@,
            None => seq![],
        }),
        r@.len() > 0,
{
    let mut out: Vec<SortCriterion> = Vec::new();
    if let Some(chain) = sort {
        let mut i: usize = 0;
        while i < chain.len()
            invariant
                i <= chain@.len(),
                out@.len() == i,
                forall|j: int| 0 <= j < i ==> #[trigger] out@[j] == criterion(chain@[j]),
            decreases chain@.len() - i,
        {
            out.push(convert_sorter(&chain[i]));
            i = i + 1;
        }
    }
    if out.len() == 0 {
        out.push(SortCriterion { reverse: true, key: SearchEmailsSorterKind::Date });
    }
    proof {
        assert(out@ =~= criteria(match sort {
            Some(chain) => chain@,
            None => seq![],
        }));
    }
    out
}

/// A filter has a SEARCH key exactly when every pattern in it can travel,
/// every keyword in it is an atom and every day in it has a year that the
/// wire can write.
pub open spec fn convertible(filter: SearchEmailsFilterQuery) -> bool
    decreases filter,
{
    match filter {
        SearchEmailsFilterQuery::And(left, right) => convertible(*left) && convertible(*right),
        SearchEmailsFilterQuery::Or(left, right) => convertible(*left) && convertible(*right),
        SearchEmailsFilterQuery::Not(inner) => convertible(*inner),
        SearchEmailsFilterQuery::Date(date) => 0 <= date@.year <= 9999,
        SearchEmailsFilterQuery::AfterDate(date) => 0 <= date@.next().year <= 9999,
        SearchEmailsFilterQuery::From(pattern) => transmissible(pattern@),
        SearchEmailsFilterQuery::To(pattern) => transmissible(pattern@),
        SearchEmailsFilterQuery::Subject(pattern) => transmissible(pattern@),
        SearchEmailsFilterQuery::Body(pattern) => transmissible(pattern@),
        SearchEmailsFilterQuery::Flag(flag) => flag_key(flag@) is Ok,
    }
}

/// See [`convertible`]; and the key can then travel.
pub proof fn law_convertible(filter: SearchEmailsFilterQuery)
    ensures
        imap_key(filter) is Ok <==> convertible(filter),
        imap_key(filter) matches Ok(key) ==> key.ok(),
    decreases filter,
{
    match filter {
        SearchEmailsFilterQuery::And(left, right) => {
            law_convertible(*left);
            law_convertible(*right);
        },
        SearchEmailsFilterQuery::Or(left, right) => {
            law_convertible(*left);
            law_convertible(*right);
        },
        SearchEmailsFilterQuery::Not(inner) => {
            law_convertible(*inner);
        },
        _ => {},
    }
}

/// Whether a SEARCH key holds of an email, by what RFC 3501 section 6.4.4
/// says of each.
pub open spec fn found_by(key: SearchKeyView, mail: Mail) -> bool
    decreases key,
{
    match key {
        SearchKeyView::And(left, right) => found_by(*left, mail) && found_by(*right, mail),
        SearchKeyView::Or(left, right) => found_by(*left, mail) || found_by(*right, mail),
        SearchKeyView::Not(inner) => !found_by(*inner, mail),
        SearchKeyView::Plain(PlainKey::All) => true,
        SearchKeyView::Plain(PlainKey::Seen) => mail.flags.contains("\\Seen"@),
        SearchKeyView::Plain(PlainKey::Answered) => mail.flags.contains("\\Answered"@),
        SearchKeyView::Plain(PlainKey::Flagged) => mail.flags.contains("\\Flagged"@),
        SearchKeyView::Plain(PlainKey::Draft) => mail.flags.contains("\\Draft"@),
        SearchKeyView::Plain(PlainKey::Deleted) => mail.flags.contains("\\Deleted"@),
        SearchKeyView::Text(TextField::From, text) => (mail.sender)(text),
        SearchKeyView::Text(TextField::To, text) => (mail.recipient)(text),
        SearchKeyView::Text(TextField::Subject, text) => (mail.subject)(text),
        SearchKeyView::Text(TextField::Body, text) => (mail.body)(text),
        SearchKeyView::Header(name, text) => (mail.header)(name, text),
        SearchKeyView::Keyword(word) => mail.flags.contains(kept(word)),
        SearchKeyView::Sent(day, since) => mail.sent matches Some(sent) && if since {
            !sent.before(day)
        } else {
            sent == day
        },
    }
}

/// The SEARCH key of a filter finds exactly the emails that the filter asks
/// for.
pub proof fn law_key_finds_what_is_asked_for(filter: SearchEmailsFilterQuery, mail: Mail)
    requires
        days_valid(filter),
        mail.sent matches Some(sent) ==> sent.valid(),
    ensures
        imap_key(filter) matches Ok(key) ==> (found_by(key, mail) <==> asked_for(filter, mail)),
    decreases filter,
{
    match filter {
        SearchEmailsFilterQuery::And(left, right) => {
            law_key_finds_what_is_asked_for(*left, mail);
            law_key_finds_what_is_asked_for(*right, mail);
        },
        SearchEmailsFilterQuery::Or(left, right) => {
            law_key_finds_what_is_asked_for(*left, mail);
            law_key_finds_what_is_asked_for(*right, mail);
        },
        SearchEmailsFilterQuery::Not(inner) => {
            law_key_finds_what_is_asked_for(*inner, mail);
        },
        SearchEmailsFilterQuery::AfterDate(day) => {
            if let Some(sent) = mail.sent {
                law_next_day_is_adjacent(day@, sent);
                law_days_are_ordered(day@, sent, day@.next());
                law_days_are_ordered(sent, day@, day@.next());
            }
        },
        _ => {},
    }
}

/// Without a filter every email is found.
pub proof fn law_no_filter_finds_all(mail: Mail)
    ensures
        optional_key(None) matches Ok(key) && found_by(key, mail),
{
}

/// A fault of a filter is one of its own: a pattern, a keyword or a day that
/// stands in it and cannot travel.
pub open spec fn fault_in(filter: SearchEmailsFilterQuery, err: InvalidFilterView) -> bool
    decreases filter,
{
    match filter {
        SearchEmailsFilterQuery::And(left, right) => fault_in(*left, err) || fault_in(*right, err),
        SearchEmailsFilterQuery::Or(left, right) => fault_in(*left, err) || fault_in(*right, err),
        SearchEmailsFilterQuery::Not(inner) => fault_in(*inner, err),
        SearchEmailsFilterQuery::Date(day) => err == InvalidFilterView::Date(date_text(day@)),
        SearchEmailsFilterQuery::AfterDate(day) => err == InvalidFilterView::Date(
            date_text(day@.next()),
        ),
        SearchEmailsFilterQuery::From(pattern) => err == InvalidFilterView::Pattern(pattern@)
            && pattern@.contains('\0'),
        SearchEmailsFilterQuery::To(pattern) => err == InvalidFilterView::Pattern(pattern@)
            && pattern@.contains('\0'),
        SearchEmailsFilterQuery::Subject(pattern) => err == InvalidFilterView::Pattern(pattern@)
            && pattern@.contains('\0'),
        SearchEmailsFilterQuery::Body(pattern) => err == InvalidFilterView::Pattern(pattern@)
            && pattern@.contains('\0'),
        SearchEmailsFilterQuery::Flag(flag) => err == InvalidFilterView::Keyword(flag@) && !atom(flag@),
    }
}

/// See [`fault_in`].
pub proof fn law_fault_is_in_the_filter(filter: SearchEmailsFilterQuery)
    ensures
        imap_key(filter) matches Err(err) ==> fault_in(filter, err),
    decreases filter,
{
    match filter {
        SearchEmailsFilterQuery::And(left, right) => {
            law_fault_is_in_the_filter(*left);
            law_fault_is_in_the_filter(*right);
        },
        SearchEmailsFilterQuery::Or(left, right) => {
            law_fault_is_in_the_filter(*left);
            law_fault_is_in_the_filter(*right);
        },
        SearchEmailsFilterQuery::Not(inner) => {
            law_fault_is_in_the_filter(*inner);
        },
        _ => {},
    }
}

/// Sorting asks for the keys of the sorters in their order, each reversed
/// exactly where it descends; without sorters it asks for the newest first.
pub proof fn law_sort_keeps_the_chain(sorters: Seq<SearchEmailsSorter>, i: int)
    ensures
        sorters.len() > 0 ==> criteria(sorters).len() == sorters.len(),
        0 <= i < sorters.len() ==> criteria(sorters)[i].key == sorters[i].0,
        0 <= i < sorters.len() ==> (criteria(sorters)[i].reverse <==> sorters[i].1
            == SearchEmailsSorterOrder::Descending),
        sorters.len() == 0 ==> criteria(sorters).len() == 1 && criteria(sorters)[0].key
            == SearchEmailsSorterKind::Date && criteria(sorters)[0].reverse,
{
}

} // verus!
