//! Search queries shared across all protocols: a filter tree and a chain
//! of sorters.
use vstd::prelude::*;

use crate::date::{Date, DateView};
use crate::flag::types::{kept, Flag};

verus! {

/// What a search matches.
#[derive(Debug)]
pub enum SearchEmailsFilterQuery {
    And(Box<SearchEmailsFilterQuery>, Box<SearchEmailsFilterQuery>),
    Or(Box<SearchEmailsFilterQuery>, Box<SearchEmailsFilterQuery>),
    Not(Box<SearchEmailsFilterQuery>),
    /// The `Date:` header falls on this day.
    Date(Date),
    /// The `Date:` header falls on a later day than this one.
    AfterDate(Date),
    From(String),
    To(String),
    Subject(String),
    Body(String),
    Flag(Flag),
}

/// What a search is sorted by.
#[derive(Clone, Copy, Debug, PartialEq, Eq, Structural)]
pub enum SearchEmailsSorterKind {
    Date,
    From,
    To,
    Subject,
}

#[derive(Clone, Copy, Debug, PartialEq, Eq, Structural)]
pub enum SearchEmailsSorterOrder {
    Ascending,
    Descending,
}

/// One sort key and its direction.
#[derive(Clone, Copy, Debug, PartialEq, Eq, Structural)]
pub struct SearchEmailsSorter(pub SearchEmailsSorterKind, pub SearchEmailsSorterOrder);

/// A search: its filter, and its sorters from the most significant on.
#[derive(Debug)]
pub struct SearchEmailsQuery {
    pub filter: Option<SearchEmailsFilterQuery>,
    pub sort: Option<Vec<SearchEmailsSorter>>,
}

impl SearchEmailsQuery {
    /// The sorters, none where no chain is given.
    pub open spec fn sorters(self) -> Seq<SearchEmailsSorter> {
        match self.sort {
            Some(chain) => chain@,
            None => seq![],
        }
    }
}

/// The filter of an optional query.
pub open spec fn filter_of(query: Option<SearchEmailsQuery>) -> Option<SearchEmailsFilterQuery> {
    match query {
        Some(query) => query.filter,
        None => None,
    }
}

/// The sorters of an optional query.
pub open spec fn sorters_of(query: Option<SearchEmailsQuery>) -> Seq<SearchEmailsSorter> {
    match query {
        Some(query) => query.sorters(),
        None => seq![],
    }
}

/// An email as far as a search can tell: what is found in its headers and in
/// its body, the flags it has, and the day of its `Date:` header.
pub struct Mail {
    /// Whether a pattern is found in the senders.
    pub sender: spec_fn(Seq<char>) -> bool,
    /// Whether a pattern is found in the recipients.
    pub recipient: spec_fn(Seq<char>) -> bool,
    /// Whether a pattern is found in the subject.
    pub subject: spec_fn(Seq<char>) -> bool,
    /// Whether a pattern is found in the body.
    pub body: spec_fn(Seq<char>) -> bool,
    /// Whether a pattern is found in the header of a name.
    pub header: spec_fn(Seq<char>, Seq<char>) -> bool,
    /// The spellings under which the flags are kept.
    pub flags: Set<Seq<char>>,
    pub sent: Option<DateView>,
}

/// Whether an email is one that a filter asks for.
pub open spec fn asked_for(filter: SearchEmailsFilterQuery, mail: Mail) -> bool
    decreases filter,
{
    match filter {
        SearchEmailsFilterQuery::And(left, right) => asked_for(*left, mail) && asked_for(*right, mail),
        SearchEmailsFilterQuery::Or(left, right) => asked_for(*left, mail) || asked_for(*right, mail),
        SearchEmailsFilterQuery::Not(inner) => !asked_for(*inner, mail),
        SearchEmailsFilterQuery::Date(day) => mail.sent == Some(day@),
        SearchEmailsFilterQuery::AfterDate(day) => mail.sent matches Some(sent) && day@.before(sent),
        SearchEmailsFilterQuery::From(pattern) => (mail.sender)(pattern@),
        SearchEmailsFilterQuery::To(pattern) => (mail.recipient)(pattern@),
        SearchEmailsFilterQuery::Subject(pattern) => (mail.subject)(pattern@),
        SearchEmailsFilterQuery::Body(pattern) => (mail.body)(pattern@),
        SearchEmailsFilterQuery::Flag(flag) => mail.flags.contains(kept(flag@)),
    }
}

/// Whether the days in a filter are days of the calendar.
pub open spec fn days_valid(filter: SearchEmailsFilterQuery) -> bool
    decreases filter,
{
    match filter {
        SearchEmailsFilterQuery::And(left, right) => days_valid(*left) && days_valid(*right),
        SearchEmailsFilterQuery::Or(left, right) => days_valid(*left) && days_valid(*right),
        SearchEmailsFilterQuery::Not(inner) => days_valid(*inner),
        SearchEmailsFilterQuery::Date(day) => day@.valid(),
        SearchEmailsFilterQuery::AfterDate(day) => day@.valid(),
        _ => true,
    }
}

/// Whether the flags in a filter are in the spelling they are kept under.
pub open spec fn flags_kept(filter: SearchEmailsFilterQuery) -> bool
    decreases filter,
{
    match filter {
        SearchEmailsFilterQuery::And(left, right) => flags_kept(*left) && flags_kept(*right),
        SearchEmailsFilterQuery::Or(left, right) => flags_kept(*left) && flags_kept(*right),
        SearchEmailsFilterQuery::Not(inner) => flags_kept(*inner),
        SearchEmailsFilterQuery::Flag(flag) => kept(flag@) == flag@,
        _ => true,
    }
}

/// A query's filter and sorters are those it was given, in their order; without
/// a query, or without a part of it, there are none.
pub proof fn law_parts_of_a_query(query: SearchEmailsQuery)
    ensures
        filter_of(Some(query)) == query.filter,
        filter_of(None) is None,
        query.sort matches Some(chain) ==> sorters_of(Some(query)) == chain@,
        query.sort is None ==> sorters_of(Some(query)).len() == 0,
        sorters_of(None).len() == 0,
{
}

} // verus!
