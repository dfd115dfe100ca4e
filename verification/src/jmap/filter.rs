//! JMAP email filters and comparators, and the translation of a shared
//! search query into them.
//!
//! AND, OR and NOT map to operators and leaves to conditions on one field;
//! the mailbox is a condition of its own on top. A query's dates are those
//! of sending while a JMAP bound is one of receipt: a date leaf becomes a
//! lower bound that lets too much through, and a [`PostFilter`] that the
//! result is held to. Under a NOT such a bound would let too little through,
//! so there a date leaf has no condition.
//!
//! Whether an email meets a leaf that is no date is for the server to say:
//! JMAP leaves open how it looks for a text, so the envelope does not show
//! it. Beside such a leaf under an OR the date of sending alone drops no
//! email.
use vstd::prelude::*;

use io_jmap::rfc8620::filter::JmapFilter;
use io_jmap::rfc8621::email::query::JmapEmailFilter;

use crate::date::{midnight_text, Date, DateTime};
use crate::envelope::{Envelope, EnvelopeView};
use crate::flag::types::kept;
use crate::jmap::convert::{keyword, keyword_from, law_keyword_names_flag};
use crate::jmap::wire::{filter_content, wire_and, wire_condition, wire_not, wire_or};
use crate::page::{page_of, paginate};
use crate::search::{
    asked_for, filter_of, flags_kept, sorters_of, Mail, SearchEmailsFilterQuery, SearchEmailsQuery, SearchEmailsSorter,
    SearchEmailsSorterKind, SearchEmailsSorterOrder,
};

verus! {

/// The field of a filter condition.
#[derive(Clone, Copy, Debug, PartialEq, Eq, Structural)]
pub enum ConditionField {
    InMailbox,
    From,
    To,
    Subject,
    Body,
    HasKeyword,
    /// A lower bound of the receive time, as RFC 3339 writes it.
    After,
}

/// A filter condition on one field.
#[derive(Debug)]
pub struct Condition {
    pub field: ConditionField,
    pub value: String,
}

/// A JMAP email filter.
#[derive(Debug)]
pub enum Filter {
    And(Box<Filter>, Box<Filter>),
    Or(Box<Filter>, Box<Filter>),
    Not(Box<Filter>),
    Condition(Condition),
}

/// What a [`Filter`] says.
pub enum FilterView {
    And(Box<FilterView>, Box<FilterView>),
    Or(Box<FilterView>, Box<FilterView>),
    Not(Box<FilterView>),
    Condition(ConditionField, Seq<char>),
}

impl Filter {
    pub open spec fn content(self) -> FilterView
        decreases self,
    {
        match self {
            Filter::And(left, right) => FilterView::And(
                Box::new(left.content()),
                Box::new(right.content()),
            ),
            Filter::Or(left, right) => FilterView::Or(
                Box::new(left.content()),
                Box::new(right.content()),
            ),
            Filter::Not(inner) => FilterView::Not(Box::new(inner.content())),
            Filter::Condition(condition) => FilterView::Condition(
                condition.field,
                condition.value@,
            ),
        }
    }
}

/// The same filter as `io_jmap` holds it.
pub(crate) fn wire_filter(filter: &Filter) -> (r: JmapFilter<JmapEmailFilter>)
    ensures
        filter_content(r) == filter.content(),
    decreases filter,
{
    match filter {
        Filter::And(left, right) => wire_and(wire_filter(left), wire_filter(right)),
        Filter::Or(left, right) => wire_or(wire_filter(left), wire_filter(right)),
        Filter::Not(inner) => wire_not(wire_filter(inner)),
        Filter::Condition(condition) => wire_condition(condition),
    }
}

/// A property that emails are sorted by.
#[derive(Clone, Copy, Debug, PartialEq, Eq, Structural)]
pub enum EmailSortProperty {
    SentAt,
    From,
    To,
    Subject,
}

/// One sort property and its direction.
#[derive(Clone, Copy, Debug, PartialEq, Eq, Structural)]
pub struct EmailComparator {
    pub property: EmailSortProperty,
    pub is_ascending: bool,
}

/// Residual predicate on the date of sending, left after the JMAP filter
/// ran.
#[derive(Debug)]
pub enum PostFilter {
    /// Sent on this day.
    Date(Date),
    /// Sent on a later day than this one.
    AfterDate(Date),
    Not(Box<PostFilter>),
    Both(Box<PostFilter>, Box<PostFilter>),
    Any(Box<PostFilter>, Box<PostFilter>),
}

/// Both filters, `None` being one that lets everything through.
pub open spec fn and_filter(left: Option<FilterView>, right: Option<FilterView>) -> Option<FilterView> {
    match (left, right) {
        (Some(left), Some(right)) => Some(FilterView::And(Box::new(left), Box::new(right))),
        (Some(left), None) => Some(left),
        (None, right) => right,
    }
}

/// Both filters, `None` being one that lets nothing through.
pub open spec fn strict_and(left: Option<FilterView>, right: Option<FilterView>) -> Option<FilterView> {
    match (left, right) {
        (Some(left), Some(right)) => Some(FilterView::And(Box::new(left), Box::new(right))),
        _ => None,
    }
}

/// Either filter, `None` being one that lets everything through.
pub open spec fn or_filter(left: Option<FilterView>, right: Option<FilterView>) -> Option<FilterView> {
    match (left, right) {
        (Some(left), Some(right)) => Some(FilterView::Or(Box::new(left), Box::new(right))),
        _ => None,
    }
}

/// Either filter, `None` being one that lets nothing through.
pub open spec fn strict_or(left: Option<FilterView>, right: Option<FilterView>) -> Option<FilterView> {
    match (left, right) {
        (Some(left), Some(right)) => Some(FilterView::Or(Box::new(left), Box::new(right))),
        (Some(left), None) => Some(left),
        (None, right) => right,
    }
}

/// The opposite of a filter.
pub open spec fn not_filter(inner: Option<FilterView>) -> Option<FilterView> {
    match inner {
        Some(inner) => Some(FilterView::Not(Box::new(inner))),
        None => None,
    }
}

/// The condition of a leaf that is no date.
pub open spec fn leaf_filter(node: SearchEmailsFilterQuery) -> Option<FilterView> {
    match node {
        SearchEmailsFilterQuery::From(pattern) => Some(
            FilterView::Condition(ConditionField::From, pattern@),
        ),
        SearchEmailsFilterQuery::To(pattern) => Some(
            FilterView::Condition(ConditionField::To, pattern@),
        ),
        SearchEmailsFilterQuery::Subject(pattern) => Some(
            FilterView::Condition(ConditionField::Subject, pattern@),
        ),
        SearchEmailsFilterQuery::Body(pattern) => Some(
            FilterView::Condition(ConditionField::Body, pattern@),
        ),
        SearchEmailsFilterQuery::Flag(flag) => Some(
            FilterView::Condition(ConditionField::HasKeyword, keyword(flag@)),
        ),
        _ => None,
    }
}

/// The JMAP filter of what stands under a NOT, without its date leaves: it
/// lets too much through where `loose` is set, `None` being everything, and
/// else too little, `None` being nothing.
pub open spec fn dateless(node: SearchEmailsFilterQuery, loose: bool) -> Option<FilterView>
    decreases node,
{
    match node {
        SearchEmailsFilterQuery::And(left, right) => {
            let a = dateless(*left, loose);
            let b = dateless(*right, loose);
            if loose {
                and_filter(a, b)
            } else {
                strict_and(a, b)
            }
        },
        SearchEmailsFilterQuery::Or(left, right) => {
            let a = dateless(*left, loose);
            let b = dateless(*right, loose);
            if loose {
                or_filter(a, b)
            } else {
                strict_or(a, b)
            }
        },
        SearchEmailsFilterQuery::Not(inner) => not_filter(dateless(*inner, !loose)),
        leaf => leaf_filter(leaf),
    }
}

/// The JMAP filter of a query's filter, `None` where it lets everything
/// through.
pub open spec fn jmap_filter(node: SearchEmailsFilterQuery) -> Option<FilterView>
    decreases node,
{
    match node {
        SearchEmailsFilterQuery::And(left, right) => and_filter(
            jmap_filter(*left),
            jmap_filter(*right),
        ),
        SearchEmailsFilterQuery::Or(left, right) => or_filter(
            jmap_filter(*left),
            jmap_filter(*right),
        ),
        SearchEmailsFilterQuery::Not(inner) => not_filter(dateless(*inner, false)),
        SearchEmailsFilterQuery::Date(date) => Some(
            FilterView::Condition(ConditionField::After, midnight_text(date@)),
        ),
        SearchEmailsFilterQuery::AfterDate(date) => Some(
            FilterView::Condition(ConditionField::After, midnight_text(date@.next())),
        ),
        leaf => leaf_filter(leaf),
    }
}

/// Both predicates, `None` being one that everything meets.
pub open spec fn both(left: Option<PostFilter>, right: Option<PostFilter>) -> Option<PostFilter> {
    match (left, right) {
        (Some(left), Some(right)) => Some(PostFilter::Both(Box::new(left), Box::new(right))),
        (Some(left), None) => Some(left),
        (None, right) => right,
    }
}

/// Either predicate, `None` being one that everything meets.
pub open spec fn either(left: Option<PostFilter>, right: Option<PostFilter>) -> Option<PostFilter> {
    match (left, right) {
        (Some(left), Some(right)) => Some(PostFilter::Any(Box::new(left), Box::new(right))),
        _ => None,
    }
}

/// The predicate that the date of sending does not rule a filter out, or its
/// opposite where `negated` is set; leaves that are no dates may hold or not.
pub open spec fn date_check(node: SearchEmailsFilterQuery, negated: bool) -> Option<PostFilter>
    decreases node,
{
    match node {
        SearchEmailsFilterQuery::And(left, right) => {
            let a = date_check(*left, negated);
            let b = date_check(*right, negated);
            if negated {
                either(a, b)
            } else {
                both(a, b)
            }
        },
        SearchEmailsFilterQuery::Or(left, right) => {
            let a = date_check(*left, negated);
            let b = date_check(*right, negated);
            if negated {
                both(a, b)
            } else {
                either(a, b)
            }
        },
        SearchEmailsFilterQuery::Not(inner) => date_check(*inner, !negated),
        SearchEmailsFilterQuery::Date(date) => if negated {
            Some(PostFilter::Not(Box::new(PostFilter::Date(date))))
        } else {
            Some(PostFilter::Date(date))
        },
        SearchEmailsFilterQuery::AfterDate(date) => if negated {
            Some(PostFilter::Not(Box::new(PostFilter::AfterDate(date))))
        } else {
            Some(PostFilter::AfterDate(date))
        },
        _ => None,
    }
}

/// The residual predicates of a query's filter: one for each side of its
/// outer ANDs that has dates in it, from left to right.
pub open spec fn residue(node: SearchEmailsFilterQuery) -> Seq<PostFilter>
    decreases node,
{
    match node {
        SearchEmailsFilterQuery::And(left, right) => residue(*left) + residue(*right),
        other => match date_check(other, false) {
            Some(check) => seq![check],
            None => seq![],
        },
    }
}

fn condition(field: ConditionField, value: String) -> (r: Filter)
    ensures
        r.content() == FilterView::Condition(field, value@),
{
    Filter::Condition(Condition { field, value })
}

fn all_of(left: Option<Filter>, right: Option<Filter>) -> (r: Option<Filter>)
    ensures
        optional_content(r) == and_filter(optional_content(left), optional_content(right)),
{
    match (left, right) {
        (Some(left), Some(right)) => Some(Filter::And(Box::new(left), Box::new(right))),
        (Some(left), None) => Some(left),
        (None, right) => right,
    }
}

fn convert_leaf(node: &SearchEmailsFilterQuery) -> (r: Option<Filter>)
    ensures
        optional_content(r) == leaf_filter(*node),
{
    match node {
        SearchEmailsFilterQuery::From(pattern) => Some(
            condition(ConditionField::From, pattern.clone()),
        ),
        SearchEmailsFilterQuery::To(pattern) => Some(condition(ConditionField::To, pattern.clone())),
        SearchEmailsFilterQuery::Subject(pattern) => Some(
            condition(ConditionField::Subject, pattern.clone()),
        ),
        SearchEmailsFilterQuery::Body(pattern) => Some(
            condition(ConditionField::Body, pattern.clone()),
        ),
        SearchEmailsFilterQuery::Flag(flag) => Some(
            condition(ConditionField::HasKeyword, keyword_from(flag)),
        ),
        _ => None,
    }
}

fn convert_dateless(node: &SearchEmailsFilterQuery, loose: bool) -> (r: Option<Filter>)
    ensures
        optional_content(r) == dateless(*node, loose),
    decreases node,
{
    match node {
        SearchEmailsFilterQuery::And(left, right) => {
            let a = convert_dateless(left, loose);
            let b = convert_dateless(right, loose);
            if loose {
                all_of(a, b)
            } else {
                match (a, b) {
                    (Some(a), Some(b)) => Some(Filter::And(Box::new(a), Box::new(b))),
                    _ => None,
                }
            }
        },
        SearchEmailsFilterQuery::Or(left, right) => {
            let a = convert_dateless(left, loose);
            let b = convert_dateless(right, loose);
            match (a, b) {
                (Some(a), Some(b)) => Some(Filter::Or(Box::new(a), Box::new(b))),
                (a, b) => if loose {
                    None
                } else if a.is_some() {
                    a
                } else {
                    b
                },
            }
        },
        SearchEmailsFilterQuery::Not(inner) => match convert_dateless(inner, !loose) {
            Some(inner) => Some(Filter::Not(Box::new(inner))),
            None => None,
        },
        leaf => convert_leaf(leaf),
    }
}

fn convert_date_check(node: &SearchEmailsFilterQuery, negated: bool) -> (r: Option<PostFilter>)
    ensures
        r == date_check(*node, negated),
    decreases node,
{
    match node {
        SearchEmailsFilterQuery::And(left, right) => {
            let a = convert_date_check(left, negated);
            let b = convert_date_check(right, negated);
            join_checks(a, b, negated)
        },
        SearchEmailsFilterQuery::Or(left, right) => {
            let a = convert_date_check(left, negated);
            let b = convert_date_check(right, negated);
            join_checks(a, b, !negated)
        },
        SearchEmailsFilterQuery::Not(inner) => convert_date_check(inner, !negated),
        SearchEmailsFilterQuery::Date(date) => if negated {
            Some(PostFilter::Not(Box::new(PostFilter::Date(*date))))
        } else {
            Some(PostFilter::Date(*date))
        },
        SearchEmailsFilterQuery::AfterDate(date) => if negated {
            Some(PostFilter::Not(Box::new(PostFilter::AfterDate(*date))))
        } else {
            Some(PostFilter::AfterDate(*date))
        },
        _ => None,
    }
}

fn join_checks(left: Option<PostFilter>, right: Option<PostFilter>, any: bool) -> (r: Option<
    PostFilter,
>)
    ensures
        r == if any {
            either(left, right)
        } else {
            both(left, right)
        },
{
    match (left, right) {
        (Some(left), Some(right)) => if any {
            Some(PostFilter::Any(Box::new(left), Box::new(right)))
        } else {
            Some(PostFilter::Both(Box::new(left), Box::new(right)))
        },
        (left, right) => if any {
            None
        } else if left.is_some() {
            left
        } else {
            right
        },
    }
}

/// Appends the residual predicates of a query's filter.
fn push_residue(node: &SearchEmailsFilterQuery, post_filters: &mut Vec<PostFilter>)
    ensures
        final(post_filters)@ == old(post_filters)@ + residue(*node),
    decreases node,
{
    let ghost was = post_filters@;
    match node {
        SearchEmailsFilterQuery::And(left, right) => {
            push_residue(left, post_filters);
            push_residue(right, post_filters);
        },
        other => {
            if let Some(check) = convert_date_check(other, false) {
                post_filters.push(check);
            }
        },
    }
    proof {
        assert(post_filters@ =~= was + residue(*node));
    }
}

fn convert_bounds(node: &SearchEmailsFilterQuery) -> (r: Option<Filter>)
    ensures
        optional_content(r) == jmap_filter(*node),
    decreases node,
{
    match node {
        SearchEmailsFilterQuery::And(left, right) => {
            let a = convert_bounds(left);
            let b = convert_bounds(right);
            all_of(a, b)
        },
        SearchEmailsFilterQuery::Or(left, right) => match (convert_bounds(left), convert_bounds(right)) {
            (Some(a), Some(b)) => Some(Filter::Or(Box::new(a), Box::new(b))),
            _ => None,
        },
        SearchEmailsFilterQuery::Not(inner) => match convert_dateless(inner, false) {
            Some(inner) => Some(Filter::Not(Box::new(inner))),
            None => None,
        },
        SearchEmailsFilterQuery::Date(date) => Some(
            condition(ConditionField::After, date.utc_midnight()),
        ),
        SearchEmailsFilterQuery::AfterDate(date) => Some(
            condition(ConditionField::After, date.next().utc_midnight()),
        ),
        leaf => convert_leaf(leaf),
    }
}

/// Translates a query's filter into a JMAP filter, `None` where it lets
/// everything through; its dates push [`PostFilter`]s.
pub fn convert_filter(node: &SearchEmailsFilterQuery, post_filters: &mut Vec<PostFilter>) -> (r:
    Option<Filter>)
    ensures
        optional_content(r) == jmap_filter(*node),
        final(post_filters)@ == old(post_filters)@ + residue(*node),
{
    push_residue(node, post_filters);
    convert_bounds(node)
}

/// The property that a sorter sorts by; the date is that of sending.
pub open spec fn sort_property(kind: SearchEmailsSorterKind) -> EmailSortProperty {
    match kind {
        SearchEmailsSorterKind::Date => EmailSortProperty::SentAt,
        SearchEmailsSorterKind::From => EmailSortProperty::From,
        SearchEmailsSorterKind::To => EmailSortProperty::To,
        SearchEmailsSorterKind::Subject => EmailSortProperty::Subject,
    }
}

/// The comparator of a sorter.
pub open spec fn comparator(sorter: SearchEmailsSorter) -> EmailComparator {
    EmailComparator { property: sort_property(sorter.0), is_ascending: sorter.1 is Ascending }
}

/// The comparators of a chain of sorters; without any, the newest first.
pub open spec fn comparators(sorters: Seq<SearchEmailsSorter>) -> Seq<EmailComparator> {
    if sorters.len() == 0 {
        seq![EmailComparator { property: EmailSortProperty::SentAt, is_ascending: false }]
    } else {
        sorters.map_values(|sorter: SearchEmailsSorter| comparator(sorter))
    }
}

/// Translates one sorter.
pub fn convert_sorter(sorter: &SearchEmailsSorter) -> (r: EmailComparator)
    ensures
        r == comparator(*sorter),
{
    let is_ascending = match sorter.1 {
        SearchEmailsSorterOrder::Ascending => true,
        SearchEmailsSorterOrder::Descending => false,
    };
    let property = match sorter.0 {
        SearchEmailsSorterKind::Date => EmailSortProperty::SentAt,
        SearchEmailsSorterKind::From => EmailSortProperty::From,
        SearchEmailsSorterKind::To => EmailSortProperty::To,
        SearchEmailsSorterKind::Subject => EmailSortProperty::Subject,
    };
    EmailComparator { property, is_ascending }
}

/// Translates a chain of sorters.
pub fn convert_sort(sort: Option<&[SearchEmailsSorter]>) -> (r: Vec<EmailComparator>)
    ensures
        r@ == comparators(match sort {
            Some(chain) => chain@,
            None => seq![],
        }),
{
    let mut out: Vec<EmailComparator> = Vec::new();
    if let Some(chain) = sort {
        let mut i: usize = 0;
        while i < chain.len()
            invariant
                i <= chain@.len(),
                out@.len() == i,
                forall|j: int| 0 <= j < i ==> #[trigger] out@[j] == comparator(chain@[j]),
            decreases chain@.len() - i,
        {
            out.push(convert_sorter(&chain[i]));
            i = i + 1;
        }
    }
    if out.len() == 0 {
        out.push(EmailComparator { property: EmailSortProperty::SentAt, is_ascending: false });
    }
    proof {
        assert(out@ =~= comparators(match sort {
            Some(chain) => chain@,
            None => seq![],
        }));
    }
    out
}

/// A query's parts for JMAP, the mailbox left out.
pub struct QueryParts {
    pub filter: Option<Filter>,
    pub sort: Vec<EmailComparator>,
    pub post_filters: Vec<PostFilter>,
}

/// The residual predicates of an optional filter.
pub open spec fn optional_residue(filter: Option<SearchEmailsFilterQuery>) -> Seq<PostFilter> {
    match filter {
        Some(node) => residue(node),
        None => seq![],
    }
}

/// The filter of a search: the mailbox, and within it the query's filter.
pub open spec fn scoped(filter: Option<FilterView>, mailbox_id: Seq<char>) -> FilterView {
    let scope = FilterView::Condition(ConditionField::InMailbox, mailbox_id);
    match filter {
        Some(user) => FilterView::And(Box::new(scope), Box::new(user)),
        None => scope,
    }
}

/// The filter of a query as JMAP has it.
pub open spec fn user_filter(filter: Option<SearchEmailsFilterQuery>) -> Option<FilterView> {
    match filter {
        Some(node) => jmap_filter(node),
        None => None,
    }
}

/// What an optional filter says.
pub open spec fn optional_content(filter: Option<Filter>) -> Option<FilterView> {
    match filter {
        Some(filter) => Some(filter.content()),
        None => None,
    }
}

/// What a [`QueryParts`] says.
pub struct QueryPartsView {
    pub filter: Option<FilterView>,
    pub sort: Seq<EmailComparator>,
    pub post_filters: Seq<PostFilter>,
}

impl View for QueryParts {
    type V = QueryPartsView;

    open spec fn view(&self) -> QueryPartsView {
        QueryPartsView {
            filter: optional_content(self.filter),
            sort: self.sort@,
            post_filters: self.post_filters@,
        }
    }
}

/// The parts of a query.
pub open spec fn query_parts(query: Option<SearchEmailsQuery>) -> QueryPartsView {
    QueryPartsView {
        filter: user_filter(filter_of(query)),
        sort: comparators(sorters_of(query)),
        post_filters: optional_residue(filter_of(query)),
    }
}

/// What a query says, if there is one.
pub open spec fn given(query: Option<&SearchEmailsQuery>) -> Option<SearchEmailsQuery> {
    match query {
        Some(query) => Some(*query),
        None => None,
    }
}

/// Converts `query` into JMAP primitives.
pub fn convert_query(query: Option<&SearchEmailsQuery>) -> (r: QueryParts)
    ensures
        r@ == query_parts(given(query)),
{
    let mut post_filters: Vec<PostFilter> = Vec::new();
    let mut filter: Option<Filter> = None;
    if let Some(query) = query {
        if let Some(node) = &query.filter {
            filter = convert_filter(node, &mut post_filters);
        }
    }
    proof {
        assert(post_filters@ =~= optional_residue(filter_of(given(query))));
    }
    let sort = match query {
        Some(query) => match &query.sort {
            Some(chain) => convert_sort(Some(chain.as_slice())),
            None => convert_sort(None),
        },
        None => convert_sort(None),
    };
    QueryParts { filter, sort, post_filters }
}

/// The filter of a search scoped to `mailbox_id`.
pub fn scope_filter(filter: Option<Filter>, mailbox_id: String) -> (r: Filter)
    ensures
        r.content() == scoped(optional_content(filter), mailbox_id@),
{
    let scope = condition(ConditionField::InMailbox, mailbox_id);
    match filter {
        Some(user) => Filter::And(Box::new(scope), Box::new(user)),
        None => scope,
    }
}

/// A query as JMAP has it, scoped to a mailbox.
#[derive(Debug)]
pub struct Converted {
    pub filter: Filter,
    pub sort: Vec<EmailComparator>,
    pub post_filters: Vec<PostFilter>,
}

/// Converts `query` into JMAP primitives, scoped to `mailbox_id`.
pub fn build(query: Option<&SearchEmailsQuery>, mailbox_id: String) -> (r: Converted)
    ensures
        r.filter.content() == scoped(query_parts(given(query)).filter, mailbox_id@),
        r.sort@ == query_parts(given(query)).sort,
        r.post_filters@ == query_parts(given(query)).post_filters,
{
    let parts = convert_query(query);
    Converted {
        filter: scope_filter(parts.filter, mailbox_id),
        sort: parts.sort,
        post_filters: parts.post_filters,
    }
}

/// Whether a date of sending is on a day; no date is.
pub open spec fn sent_on(date: Option<DateTime>, day: Date) -> bool {
    date matches Some(at) && at.date@ == day@
}

/// Whether a date of sending is later than a day; no date is.
pub open spec fn sent_after(date: Option<DateTime>, day: Date) -> bool {
    date matches Some(at) && day@.before(at.date@)
}

/// Whether a date of sending meets a residual predicate.
pub open spec fn meets(date: Option<DateTime>, post_filter: PostFilter) -> bool
    decreases post_filter,
{
    match post_filter {
        PostFilter::Date(day) => sent_on(date, day),
        PostFilter::AfterDate(day) => sent_after(date, day),
        PostFilter::Not(inner) => !meets(date, *inner),
        PostFilter::Both(left, right) => meets(date, *left) && meets(date, *right),
        PostFilter::Any(left, right) => meets(date, *left) || meets(date, *right),
    }
}

/// Whether a date of sending meets every residual predicate.
pub open spec fn meets_all(date: Option<DateTime>, post_filters: Seq<PostFilter>) -> bool {
    forall|i: int| 0 <= i < post_filters.len() ==> meets(date, #[trigger] post_filters[i])
}

fn date_meets(date: Option<DateTime>, post_filter: &PostFilter) -> (r: bool)
    ensures
        r == meets(date, *post_filter),
    decreases post_filter,
{
    match post_filter {
        PostFilter::Date(day) => match date {
            Some(at) => at.date.is(*day),
            None => false,
        },
        PostFilter::AfterDate(day) => match date {
            Some(at) => day.is_before(at.date),
            None => false,
        },
        PostFilter::Not(inner) => !date_meets(date, inner),
        PostFilter::Both(left, right) => date_meets(date, left) && date_meets(date, right),
        PostFilter::Any(left, right) => date_meets(date, left) || date_meets(date, right),
    }
}

/// True when `envelope` matches every residual predicate.
pub fn post_match(envelope: &Envelope, post_filters: &[PostFilter]) -> (r: bool)
    ensures
        r == meets_all(envelope.date, post_filters@),
{
    let mut i: usize = 0;
    while i < post_filters.len()
        invariant
            i <= post_filters@.len(),
            forall|j: int| 0 <= j < i ==> meets(envelope.date, #[trigger] post_filters@[j]),
        decreases post_filters@.len() - i,
    {
        if !date_meets(envelope.date, &post_filters[i]) {
            proof {
                assert(!meets(envelope.date, post_filters@[i as int]));
            }
            return false;
        }
        i = i + 1;
    }
    true
}

/// The envelopes that meet every residual predicate, in their order.
pub open spec fn retained(envelopes: Seq<EnvelopeView>, post_filters: Seq<PostFilter>) -> Seq<
    EnvelopeView,
>
    decreases envelopes.len(),
{
    if envelopes.len() == 0 {
        seq![]
    } else {
        let before = retained(envelopes.drop_last(), post_filters);
        if meets_all(envelopes.last().date, post_filters) {
            before.push(envelopes.last())
        } else {
            before
        }
    }
}

/// Keeps the envelopes that meet every residual predicate.
pub fn retain(envelopes: &Vec<Envelope>, post_filters: &Vec<PostFilter>) -> (r: Vec<Envelope>)
    ensures
        r.deep_view() == retained(envelopes.deep_view(), post_filters@),
{
    let mut out: Vec<Envelope> = Vec::new();
    let ghost all = envelopes.deep_view();
    proof {
        assert(out.deep_view() =~= seq![]);
        assert(all.subrange(0, 0) =~= seq![]);
    }
    let mut i: usize = 0;
    while i < envelopes.len()
        invariant
            i <= envelopes@.len(),
            all == envelopes.deep_view(),
            out.deep_view() == retained(all.subrange(0, i as int), post_filters@),
        decreases envelopes@.len() - i,
    {
        proof {
            assert(all.subrange(0, i + 1).drop_last() =~= all.subrange(0, i as int));
            assert(all.subrange(0, i + 1).last() == envelopes@[i as int].deep_view());
        }
        let ghost before = out.deep_view();
        if post_match(&envelopes[i], post_filters) {
            let kept = envelopes[i].clone();
            let ghost last = kept.deep_view();
            out.push(kept);
            proof {
                assert(out.deep_view() =~= before.push(last));
            }
        }
        i = i + 1;
    }
    proof {
        assert(all.subrange(0, all.len() as int) =~= all);
    }
    out
}

/// What a search gives of the envelopes that the server found: all of them
/// where nothing is left to check, else a page of those that pass.
pub open spec fn found(
    envelopes: Seq<EnvelopeView>,
    post_filters: Seq<PostFilter>,
    page: Option<u32>,
    page_size: Option<u32>,
) -> Seq<EnvelopeView> {
    if post_filters.len() == 0 {
        envelopes
    } else {
        page_of(retained(envelopes, post_filters), page, page_size)
    }
}

/// Applies the residual predicates and the page to what the server found.
pub fn finish(
    envelopes: Vec<Envelope>,
    post_filters: &Vec<PostFilter>,
    page: Option<u32>,
    page_size: Option<u32>,
) -> (r: Vec<Envelope>)
    ensures
        r.deep_view() == found(envelopes.deep_view(), post_filters@, page, page_size),
{
    if post_filters.len() == 0 {
        envelopes
    } else {
        let kept = retain(&envelopes, post_filters);
        paginate(&kept, page, page_size)
    }
}

/// What is retained are exactly the envelopes that meet every residual
/// predicate.
pub proof fn law_retained(envelopes: Seq<EnvelopeView>, post_filters: Seq<PostFilter>)
    ensures
        forall|e: EnvelopeView|
            retained(envelopes, post_filters).contains(e) <==> envelopes.contains(e) && meets_all(
                e.date,
                post_filters,
            ),
    decreases envelopes.len(),
{
    if envelopes.len() > 0 {
        let most = envelopes.drop_last();
        law_retained(most, post_filters);
        let kept = retained(most, post_filters);
        let all = retained(envelopes, post_filters);
        assert forall|e: EnvelopeView| all.contains(e) <==> envelopes.contains(e) && meets_all(
            e.date,
            post_filters,
        ) by {
            if all.contains(e) {
                let i = choose|i: int| 0 <= i < all.len() && all[i] == e;
                if i < kept.len() {
                    assert(kept[i] == e);
                    assert(kept.contains(e));
                    assert(most.contains(e));
                    let k = choose|k: int| 0 <= k < most.len() && most[k] == e;
                    assert(envelopes[k] == e);
                } else {
                    assert(e == envelopes[envelopes.len() - 1]);
                }
            }
            if envelopes.contains(e) && meets_all(e.date, post_filters) {
                let k = choose|k: int| 0 <= k < envelopes.len() && envelopes[k] == e;
                if k < envelopes.len() - 1 {
                    assert(most[k] == e);
                    assert(most.contains(e));
                    let i = choose|i: int| 0 <= i < kept.len() && kept[i] == e;
                    assert(all[i] == e);
                } else {
                    assert(all[all.len() - 1] == e);
                }
            }
        }
    } else {
        assert forall|e: EnvelopeView| !retained(envelopes, post_filters).contains(e) by {}
    }
}

/// Whether a date of sending alone makes a query's filter hold.
pub open spec fn date_settles(node: SearchEmailsFilterQuery, date: Option<DateTime>) -> bool
    decreases node,
{
    match node {
        SearchEmailsFilterQuery::And(left, right) => date_settles(*left, date) && date_settles(
            *right,
            date,
        ),
        SearchEmailsFilterQuery::Or(left, right) => date_settles(*left, date) || date_settles(
            *right,
            date,
        ),
        SearchEmailsFilterQuery::Not(inner) => date_rules_out(*inner, date),
        SearchEmailsFilterQuery::Date(day) => sent_on(date, day),
        SearchEmailsFilterQuery::AfterDate(day) => sent_after(date, day),
        _ => false,
    }
}

/// Whether a date of sending alone keeps a query's filter from holding.
pub open spec fn date_rules_out(node: SearchEmailsFilterQuery, date: Option<DateTime>) -> bool
    decreases node,
{
    match node {
        SearchEmailsFilterQuery::And(left, right) => date_rules_out(*left, date) || date_rules_out(
            *right,
            date,
        ),
        SearchEmailsFilterQuery::Or(left, right) => date_rules_out(*left, date) && date_rules_out(
            *right,
            date,
        ),
        SearchEmailsFilterQuery::Not(inner) => date_settles(*inner, date),
        SearchEmailsFilterQuery::Date(day) => !sent_on(date, day),
        SearchEmailsFilterQuery::AfterDate(day) => !sent_after(date, day),
        _ => false,
    }
}

proof fn lemma_date_check(node: SearchEmailsFilterQuery, date: Option<DateTime>)
    ensures
        (date_check(node, false) matches Some(check) ==> meets(date, check)) <==> !date_rules_out(
            node,
            date,
        ),
        (date_check(node, true) matches Some(check) ==> meets(date, check)) <==> !date_settles(
            node,
            date,
        ),
    decreases node,
{
    match node {
        SearchEmailsFilterQuery::And(left, right) => {
            lemma_date_check(*left, date);
            lemma_date_check(*right, date);
        },
        SearchEmailsFilterQuery::Or(left, right) => {
            lemma_date_check(*left, date);
            lemma_date_check(*right, date);
        },
        SearchEmailsFilterQuery::Not(inner) => {
            lemma_date_check(*inner, date);
        },
        _ => {
            reveal_with_fuel(meets, 2);
        },
    }
}

/// The residual predicates are exactly the date rules of a filter: an
/// envelope passes them if and only if its date of sending does not rule the
/// filter out.
pub proof fn law_residue_is_date_rule(node: SearchEmailsFilterQuery, date: Option<DateTime>)
    ensures
        meets_all(date, residue(node)) <==> !date_rules_out(node, date),
    decreases node,
{
    match node {
        SearchEmailsFilterQuery::And(left, right) => {
            law_residue_is_date_rule(*left, date);
            law_residue_is_date_rule(*right, date);
            let a = residue(*left);
            let b = residue(*right);
            assert(meets_all(date, a + b) <==> meets_all(date, a) && meets_all(date, b)) by {
                if meets_all(date, a + b) {
                    assert forall|i: int| 0 <= i < a.len() implies meets(date, #[trigger] a[i]) by {
                        assert((a + b)[i] == a[i]);
                    }
                    assert forall|i: int| 0 <= i < b.len() implies meets(date, #[trigger] b[i]) by {
                        assert((a + b)[a.len() + i] == b[i]);
                    }
                }
            }
        },
        _ => {
            lemma_date_check(node, date);
            if let Some(check) = date_check(node, false) {
                assert(residue(node)[0] == check);
            }
        },
    }
}

/// Whether a query's filter holds of an email: `holds` says which conditions
/// it meets, `date` when it was sent.
pub open spec fn query_holds(
    node: SearchEmailsFilterQuery,
    holds: spec_fn(ConditionField, Seq<char>) -> bool,
    date: Option<DateTime>,
) -> bool
    decreases node,
{
    match node {
        SearchEmailsFilterQuery::And(left, right) => query_holds(*left, holds, date) && query_holds(
            *right,
            holds,
            date,
        ),
        SearchEmailsFilterQuery::Or(left, right) => query_holds(*left, holds, date) || query_holds(
            *right,
            holds,
            date,
        ),
        SearchEmailsFilterQuery::Not(inner) => !query_holds(*inner, holds, date),
        SearchEmailsFilterQuery::Date(day) => sent_on(date, day),
        SearchEmailsFilterQuery::AfterDate(day) => sent_after(date, day),
        SearchEmailsFilterQuery::From(pattern) => holds(ConditionField::From, pattern@),
        SearchEmailsFilterQuery::To(pattern) => holds(ConditionField::To, pattern@),
        SearchEmailsFilterQuery::Subject(pattern) => holds(ConditionField::Subject, pattern@),
        SearchEmailsFilterQuery::Body(pattern) => holds(ConditionField::Body, pattern@),
        SearchEmailsFilterQuery::Flag(flag) => holds(ConditionField::HasKeyword, keyword(flag@)),
    }
}

/// Whether an email that meets the conditions `holds` passes a JMAP filter.
pub open spec fn passes(
    filter: FilterView,
    holds: spec_fn(ConditionField, Seq<char>) -> bool,
) -> bool
    decreases filter,
{
    match filter {
        FilterView::And(left, right) => passes(*left, holds) && passes(*right, holds),
        FilterView::Or(left, right) => passes(*left, holds) || passes(*right, holds),
        FilterView::Not(inner) => !passes(*inner, holds),
        FilterView::Condition(field, value) => holds(field, value),
    }
}

/// Whether an email was received no earlier than its date says: it meets the
/// lower bound of every day that it was sent on or after.
pub open spec fn received_later(
    holds: spec_fn(ConditionField, Seq<char>) -> bool,
    date: Option<DateTime>,
) -> bool {
    &&& forall|day: Date| #[trigger]
        sent_on(date, day) ==> holds(ConditionField::After, midnight_text(day@))
    &&& forall|day: Date| #[trigger]
        sent_after(date, day) ==> holds(ConditionField::After, midnight_text(day@.next()))
}

proof fn lemma_dateless(
    node: SearchEmailsFilterQuery,
    holds: spec_fn(ConditionField, Seq<char>) -> bool,
    date: Option<DateTime>,
)
    ensures
        dateless(node, true) matches Some(filter) ==> (query_holds(node, holds, date) ==> passes(
            filter,
            holds,
        )),
        match dateless(node, false) {
            Some(filter) => passes(filter, holds) ==> query_holds(node, holds, date),
            None => true,
        },
    decreases node,
{
    match node {
        SearchEmailsFilterQuery::And(left, right) => {
            lemma_dateless(*left, holds, date);
            lemma_dateless(*right, holds, date);
        },
        SearchEmailsFilterQuery::Or(left, right) => {
            lemma_dateless(*left, holds, date);
            lemma_dateless(*right, holds, date);
        },
        SearchEmailsFilterQuery::Not(inner) => {
            lemma_dateless(*inner, holds, date);
        },
        _ => {},
    }
}

/// The JMAP filter lets too much through and never too little: an email that
/// the query's filter holds of passes it, provided that it was received no
/// earlier than its date says.
pub proof fn law_server_lets_matches_through(
    node: SearchEmailsFilterQuery,
    holds: spec_fn(ConditionField, Seq<char>) -> bool,
    date: Option<DateTime>,
)
    requires
        received_later(holds, date),
        query_holds(node, holds, date),
    ensures
        jmap_filter(node) matches Some(filter) ==> passes(filter, holds),
    decreases node,
{
    match node {
        SearchEmailsFilterQuery::And(left, right) => {
            law_server_lets_matches_through(*left, holds, date);
            law_server_lets_matches_through(*right, holds, date);
        },
        SearchEmailsFilterQuery::Or(left, right) => {
            if query_holds(*left, holds, date) {
                law_server_lets_matches_through(*left, holds, date);
            } else {
                law_server_lets_matches_through(*right, holds, date);
            }
        },
        SearchEmailsFilterQuery::Not(inner) => {
            lemma_dateless(*inner, holds, date);
        },
        SearchEmailsFilterQuery::Date(day) => {
            assert(sent_on(date, day));
        },
        SearchEmailsFilterQuery::AfterDate(day) => {
            assert(sent_after(date, day));
        },
        _ => {},
    }
}

proof fn lemma_date_decides(
    node: SearchEmailsFilterQuery,
    holds: spec_fn(ConditionField, Seq<char>) -> bool,
    date: Option<DateTime>,
)
    ensures
        date_settles(node, date) ==> query_holds(node, holds, date),
        date_rules_out(node, date) ==> !query_holds(node, holds, date),
    decreases node,
{
    match node {
        SearchEmailsFilterQuery::And(left, right) => {
            lemma_date_decides(*left, holds, date);
            lemma_date_decides(*right, holds, date);
        },
        SearchEmailsFilterQuery::Or(left, right) => {
            lemma_date_decides(*left, holds, date);
            lemma_date_decides(*right, holds, date);
        },
        SearchEmailsFilterQuery::Not(inner) => {
            lemma_date_decides(*inner, holds, date);
        },
        _ => {},
    }
}

/// The residual predicates drop no email that the query's filter holds of.
pub proof fn law_residue_keeps_matches(
    node: SearchEmailsFilterQuery,
    holds: spec_fn(ConditionField, Seq<char>) -> bool,
    date: Option<DateTime>,
)
    requires
        query_holds(node, holds, date),
    ensures
        meets_all(date, residue(node)),
{
    lemma_date_decides(node, holds, date);
    law_residue_is_date_rule(node, date);
}

/// Whether a query's filter speaks of no date.
pub open spec fn undated(node: SearchEmailsFilterQuery) -> bool
    decreases node,
{
    match node {
        SearchEmailsFilterQuery::And(left, right) => undated(*left) && undated(*right),
        SearchEmailsFilterQuery::Or(left, right) => undated(*left) && undated(*right),
        SearchEmailsFilterQuery::Not(inner) => undated(*inner),
        SearchEmailsFilterQuery::Date(_) => false,
        SearchEmailsFilterQuery::AfterDate(_) => false,
        _ => true,
    }
}

/// Whether the dates of a query's filter are only joined to the rest by `and`.
pub open spec fn dates_joined(node: SearchEmailsFilterQuery) -> bool
    decreases node,
{
    match node {
        SearchEmailsFilterQuery::And(left, right) => dates_joined(*left) && dates_joined(*right),
        SearchEmailsFilterQuery::Date(_) => true,
        SearchEmailsFilterQuery::AfterDate(_) => true,
        other => undated(other),
    }
}

proof fn lemma_undated(
    node: SearchEmailsFilterQuery,
    holds: spec_fn(ConditionField, Seq<char>) -> bool,
    date: Option<DateTime>,
    loose: bool,
)
    requires
        undated(node),
    ensures
        dateless(node, loose) matches Some(filter) && (passes(filter, holds) <==> query_holds(
            node,
            holds,
            date,
        )),
        date_check(node, loose) is None,
    decreases node,
{
    match node {
        SearchEmailsFilterQuery::And(left, right) => {
            lemma_undated(*left, holds, date, loose);
            lemma_undated(*right, holds, date, loose);
        },
        SearchEmailsFilterQuery::Or(left, right) => {
            lemma_undated(*left, holds, date, loose);
            lemma_undated(*right, holds, date, loose);
        },
        SearchEmailsFilterQuery::Not(inner) => {
            lemma_undated(*inner, holds, date, !loose);
        },
        _ => {},
    }
}

/// Without dates the server decides alone and exactly: an email passes the
/// JMAP filter if and only if the query's filter holds of it, and nothing is
/// left to check.
pub proof fn law_undated_filter_is_exact(
    node: SearchEmailsFilterQuery,
    holds: spec_fn(ConditionField, Seq<char>) -> bool,
    date: Option<DateTime>,
)
    requires
        undated(node),
    ensures
        jmap_filter(node) matches Some(filter) && (passes(filter, holds) <==> query_holds(
            node,
            holds,
            date,
        )),
        residue(node).len() == 0,
    decreases node,
{
    lemma_undated(node, holds, date, false);
    match node {
        SearchEmailsFilterQuery::And(left, right) => {
            law_undated_filter_is_exact(*left, holds, date);
            law_undated_filter_is_exact(*right, holds, date);
        },
        SearchEmailsFilterQuery::Or(left, right) => {
            law_undated_filter_is_exact(*left, holds, date);
            law_undated_filter_is_exact(*right, holds, date);
        },
        SearchEmailsFilterQuery::Not(inner) => {
            lemma_undated(*inner, holds, date, false);
        },
        _ => {},
    }
}

/// Where the dates are only joined to the rest by `and`, the server's answer
/// and the residual predicates together let through nothing that the query's
/// filter does not hold of.
pub proof fn law_joined_dates_are_exact(
    node: SearchEmailsFilterQuery,
    holds: spec_fn(ConditionField, Seq<char>) -> bool,
    date: Option<DateTime>,
)
    requires
        dates_joined(node),
        meets_all(date, residue(node)),
    ensures
        jmap_filter(node) matches Some(filter) && (passes(filter, holds) ==> query_holds(
            node,
            holds,
            date,
        )),
    decreases node,
{
    match node {
        SearchEmailsFilterQuery::And(left, right) => {
            let all = residue(node);
            let n = residue(*left).len();
            assert forall|i: int| 0 <= i < n implies meets(date, #[trigger] residue(*left)[i]) by {
                assert(all[i] == residue(*left)[i]);
            }
            assert forall|i: int| 0 <= i < residue(*right).len() implies meets(
                date,
                #[trigger] residue(*right)[i],
            ) by {
                assert(all[n + i] == residue(*right)[i]);
            }
            law_joined_dates_are_exact(*left, holds, date);
            law_joined_dates_are_exact(*right, holds, date);
        },
        SearchEmailsFilterQuery::Date(day) => {
            assert(residue(node)[0] == PostFilter::Date(day));
            assert(meets(date, residue(node)[0]));
        },
        SearchEmailsFilterQuery::AfterDate(day) => {
            assert(residue(node)[0] == PostFilter::AfterDate(day));
            assert(meets(date, residue(node)[0]));
        },
        _ => {
            law_undated_filter_is_exact(node, holds, date);
        },
    }
}

/// Which conditions of JMAP an email meets.
pub open spec fn conditions_of(mail: Mail) -> spec_fn(ConditionField, Seq<char>) -> bool {
    |field: ConditionField, value: Seq<char>|
        match field {
            ConditionField::From => (mail.sender)(value),
            ConditionField::To => (mail.recipient)(value),
            ConditionField::Subject => (mail.subject)(value),
            ConditionField::Body => (mail.body)(value),
            ConditionField::HasKeyword => mail.flags.contains(kept(value)),
            _ => true,
        }
}

/// A query's filter holds of an email, by the conditions that it meets,
/// exactly when the email is one that the filter asks for.
pub proof fn law_query_holds_of_what_is_asked_for(
    node: SearchEmailsFilterQuery,
    mail: Mail,
    date: Option<DateTime>,
)
    requires
        flags_kept(node),
        mail.sent == match date {
            Some(at) => Some(at.date@),
            None => None,
        },
    ensures
        query_holds(node, conditions_of(mail), date) <==> asked_for(node, mail),
    decreases node,
{
    match node {
        SearchEmailsFilterQuery::And(left, right) => {
            law_query_holds_of_what_is_asked_for(*left, mail, date);
            law_query_holds_of_what_is_asked_for(*right, mail, date);
        },
        SearchEmailsFilterQuery::Or(left, right) => {
            law_query_holds_of_what_is_asked_for(*left, mail, date);
            law_query_holds_of_what_is_asked_for(*right, mail, date);
        },
        SearchEmailsFilterQuery::Not(inner) => {
            law_query_holds_of_what_is_asked_for(*inner, mail, date);
        },
        SearchEmailsFilterQuery::Flag(flag) => {
            law_keyword_names_flag(flag@);
        },
        _ => {},
    }
}

/// A search stays in its mailbox: an email passes its filter exactly when it is
/// in the mailbox and passes the query's filter, if there is one.
pub proof fn law_search_stays_in_its_mailbox(
    filter: Option<FilterView>,
    mailbox_id: Seq<char>,
    holds: spec_fn(ConditionField, Seq<char>) -> bool,
)
    ensures
        passes(scoped(filter, mailbox_id), holds) <==> holds(ConditionField::InMailbox, mailbox_id) && (
        filter matches Some(user) ==> passes(user, holds)),
{
    reveal_with_fuel(passes, 2);
}

/// Sorters reach the server in their order, each by its own property and in
/// its own direction; without any the newest come first.
pub proof fn law_comparators_follow_the_sorters(sorters: Seq<SearchEmailsSorter>)
    ensures
        sorters.len() == 0 ==> comparators(sorters).len() == 1 && comparators(sorters)[0].property
            == EmailSortProperty::SentAt && !comparators(sorters)[0].is_ascending,
        sorters.len() > 0 ==> comparators(sorters).len() == sorters.len(),
        forall|i: int|
            0 <= i < sorters.len() ==> {
                let c = #[trigger] comparators(sorters)[i];
                &&& c.is_ascending <==> sorters[i].1 == SearchEmailsSorterOrder::Ascending
                &&& c.property == EmailSortProperty::SentAt <==> sorters[i].0
                    == SearchEmailsSorterKind::Date
                &&& c.property == EmailSortProperty::From <==> sorters[i].0
                    == SearchEmailsSorterKind::From
                &&& c.property == EmailSortProperty::To <==> sorters[i].0 == SearchEmailsSorterKind::To
                &&& c.property == EmailSortProperty::Subject <==> sorters[i].0
                    == SearchEmailsSorterKind::Subject
            },
{
}

/// What is retained is in the order the server gave, each as often as it came.
pub proof fn law_retained_in_order(envelopes: Seq<EnvelopeView>, post_filters: Seq<PostFilter>)
    ensures
        retained(envelopes, post_filters) == envelopes.filter(
            |e: EnvelopeView| meets_all(e.date, post_filters),
        ),
    decreases envelopes.len(),
{
    reveal(Seq::filter);
    if envelopes.len() > 0 {
        law_retained_in_order(envelopes.drop_last(), post_filters);
    }
}

/// Of a query nothing is lost: its filter goes to the server as far as the
/// server can decide it, its date rules are checked afterwards, and its
/// sorters go along; without a filter nothing is ruled out.
pub proof fn law_nothing_of_a_query_is_lost(query: SearchEmailsQuery, date: Option<DateTime>)
    ensures
        ({
            let parts = query_parts(Some(query));
            &&& query.filter is None ==> parts.filter is None && parts.post_filters.len() == 0
            &&& query.filter matches Some(node) ==> parts.filter == jmap_filter(node)
            &&& query.filter matches Some(node) ==> (meets_all(date, parts.post_filters)
                <==> !date_rules_out(node, date))
            &&& query.sort matches Some(chain) ==> parts.sort == comparators(chain@)
            &&& query.sort is None ==> parts.sort == comparators(seq![])
        }),
{
    if let Some(node) = query.filter {
        law_residue_is_date_rule(node, date);
    }
    assert(query.sort is None ==> sorters_of(Some(query)) =~= seq![]);
}

} // verus!
