use io_email::address::Address;
use io_email::date::{parse_rfc3339, Date};
use io_email::envelope::Envelope;
use io_email::flag::types::{Flag, FlagSet, IanaFlag};
use io_email::jmap::filter::{
    build, post_match, ConditionField, EmailSortProperty, Filter, PostFilter,
};
use io_email::search::{SearchEmailsFilterQuery, SearchEmailsQuery};

fn day(y: i32, m: u32, d: u32) -> Date {
    Date::from_ymd(y, m, d).unwrap()
}

fn envelope_at(date: &str) -> Envelope {
    Envelope {
        id: "1".into(),
        message_id: None,
        flags: FlagSet::new(),
        subject: String::new(),
        from: vec![Address { name: None, email: String::new() }],
        to: vec![],
        date: parse_rfc3339(date),
        size: 0,
        has_attachment: None,
    }
}

fn query(filter: SearchEmailsFilterQuery) -> SearchEmailsQuery {
    SearchEmailsQuery { filter: Some(filter), sort: None }
}

/// The filter of the query, next to the mailbox under one AND.
fn pluck_user_filter(filter: Filter) -> Filter {
    match filter {
        Filter::And(_, user) => *user,
        other => panic!("expected top-level AND combinator, got {other:?}"),
    }
}

#[test]
fn search_empty_query_yields_just_the_mailbox_scope() {
    let c = build(None, "mbox-1".into());
    match c.filter {
        Filter::Condition(condition) => {
            assert_eq!(condition.field, ConditionField::InMailbox);
            assert_eq!(condition.value, "mbox-1");
        }
        other => panic!("expected mailbox-scope condition, got {other:?}"),
    }
    assert!(c.post_filters.is_empty());
    assert_eq!(c.sort.len(), 1);
    assert!(matches!(c.sort[0].property, EmailSortProperty::SentAt));
    assert!(!c.sort[0].is_ascending);
}

#[test]
fn search_or_translates_to_filter_operator() {
    let q = query(SearchEmailsFilterQuery::Or(
        Box::new(SearchEmailsFilterQuery::From("alice".into())),
        Box::new(SearchEmailsFilterQuery::From("bob".into())),
    ));
    let c = build(Some(&q), "mbox".into());
    match pluck_user_filter(c.filter) {
        Filter::Or(left, right) => {
            assert!(matches!(*left, Filter::Condition(c) if c.value == "alice"));
            assert!(matches!(*right, Filter::Condition(c) if c.value == "bob"));
        }
        other => panic!("expected OR operator, got {other:?}"),
    }
}

#[test]
fn search_not_wraps_a_single_subfilter() {
    let q = query(SearchEmailsFilterQuery::Not(Box::new(SearchEmailsFilterQuery::From(
        "a".into(),
    ))));
    let c = build(Some(&q), "mbox".into());
    match pluck_user_filter(c.filter) {
        Filter::Not(inner) => assert!(matches!(*inner, Filter::Condition(_))),
        other => panic!("expected NOT operator, got {other:?}"),
    }
}

#[test]
fn search_date_clause_records_post_filter_and_bounds_after() {
    let q = query(SearchEmailsFilterQuery::Date(day(2026, 1, 15)));
    let c = build(Some(&q), "mbox".into());
    assert!(matches!(
        c.post_filters.as_slice(),
        [PostFilter::Date(d)] if *d == day(2026, 1, 15)
    ));
    match pluck_user_filter(c.filter) {
        Filter::Condition(condition) => {
            assert_eq!(condition.field, ConditionField::After);
            assert_eq!(condition.value, "2026-01-15T00:00:00Z");
        }
        other => panic!("expected condition, got {other:?}"),
    }
}

#[test]
fn search_after_clause_bumps_lower_bound_by_one_day() {
    let q = query(SearchEmailsFilterQuery::AfterDate(day(2026, 1, 15)));
    let c = build(Some(&q), "mbox".into());
    assert!(matches!(
        c.post_filters.as_slice(),
        [PostFilter::AfterDate(d)] if *d == day(2026, 1, 15)
    ));
    match pluck_user_filter(c.filter) {
        Filter::Condition(condition) => {
            assert_eq!(condition.field, ConditionField::After);
            assert_eq!(condition.value, "2026-01-16T00:00:00Z");
        }
        other => panic!("expected condition, got {other:?}"),
    }
}

#[test]
fn search_post_filter_drops_false_positives_for_date_clause() {
    let post = [PostFilter::Date(day(2026, 5, 15))];
    let on_day = envelope_at("2026-05-15T10:00:00+00:00");
    let next_day = envelope_at("2026-05-16T00:00:00+00:00");
    assert!(post_match(&on_day, &post));
    assert!(!post_match(&next_day, &post));
}

#[test]
fn search_post_filter_strict_after() {
    let post = [PostFilter::AfterDate(day(2026, 5, 15))];
    let on_day = envelope_at("2026-05-15T23:59:59+00:00");
    let next_day = envelope_at("2026-05-16T00:00:00+00:00");
    assert!(!post_match(&on_day, &post));
    assert!(post_match(&next_day, &post));
}

#[test]
fn search_flag_clause_sets_has_keyword() {
    let q = query(SearchEmailsFilterQuery::Flag(Flag::from_iana(IanaFlag::Flagged)));
    let c = build(Some(&q), "mbox".into());
    match pluck_user_filter(c.filter) {
        Filter::Condition(condition) => {
            assert_eq!(condition.field, ConditionField::HasKeyword);
            assert_eq!(condition.value, "$flagged");
        }
        other => panic!("expected condition, got {other:?}"),
    }
}

#[test]
fn envelope_search_empty_query_yields_just_the_mailbox_scope() {
    let c = build(None, "mbox-1".into());
    match c.filter {
        Filter::Condition(condition) => {
            assert_eq!(condition.field, ConditionField::InMailbox);
            assert_eq!(condition.value, "mbox-1");
        }
        other => panic!("expected mailbox-scope condition, got {other:?}"),
    }
    assert!(c.post_filters.is_empty());
    assert_eq!(c.sort.len(), 1);
    assert!(matches!(c.sort[0].property, EmailSortProperty::SentAt));
    assert!(!c.sort[0].is_ascending);
}

#[test]
fn envelope_search_or_translates_to_filter_operator() {
    let q = query(SearchEmailsFilterQuery::Or(
        Box::new(SearchEmailsFilterQuery::From("alice".into())),
        Box::new(SearchEmailsFilterQuery::From("bob".into())),
    ));
    let c = build(Some(&q), "mbox".into());
    match pluck_user_filter(c.filter) {
        Filter::Or(left, right) => {
            assert!(matches!(*left, Filter::Condition(c) if c.value == "alice"));
            assert!(matches!(*right, Filter::Condition(c) if c.value == "bob"));
        }
        other => panic!("expected OR operator, got {other:?}"),
    }
}

#[test]
fn envelope_search_not_wraps_a_single_subfilter() {
    let q = query(SearchEmailsFilterQuery::Not(Box::new(SearchEmailsFilterQuery::From(
        "a".into(),
    ))));
    let c = build(Some(&q), "mbox".into());
    match pluck_user_filter(c.filter) {
        Filter::Not(inner) => assert!(matches!(*inner, Filter::Condition(_))),
        other => panic!("expected NOT operator, got {other:?}"),
    }
}

#[test]
fn envelope_search_date_clause_records_post_filter_and_bounds_after() {
    let q = query(SearchEmailsFilterQuery::Date(day(2026, 1, 15)));
    let c = build(Some(&q), "mbox".into());
    assert!(matches!(
        c.post_filters.as_slice(),
        [PostFilter::Date(d)] if *d == day(2026, 1, 15)
    ));
    match pluck_user_filter(c.filter) {
        Filter::Condition(condition) => {
            assert_eq!(condition.field, ConditionField::After);
            assert_eq!(condition.value, "2026-01-15T00:00:00Z");
        }
        other => panic!("expected condition, got {other:?}"),
    }
}

#[test]
fn envelope_search_after_clause_bumps_lower_bound_by_one_day() {
    let q = query(SearchEmailsFilterQuery::AfterDate(day(2026, 1, 15)));
    let c = build(Some(&q), "mbox".into());
    assert!(matches!(
        c.post_filters.as_slice(),
        [PostFilter::AfterDate(d)] if *d == day(2026, 1, 15)
    ));
    match pluck_user_filter(c.filter) {
        Filter::Condition(condition) => {
            assert_eq!(condition.field, ConditionField::After);
            assert_eq!(condition.value, "2026-01-16T00:00:00Z");
        }
        other => panic!("expected condition, got {other:?}"),
    }
}

#[test]
fn envelope_search_post_filter_drops_false_positives_for_date_clause() {
    let post = [PostFilter::Date(day(2026, 5, 15))];
    let on_day = envelope_at("2026-05-15T10:00:00+00:00");
    let next_day = envelope_at("2026-05-16T00:00:00+00:00");
    assert!(post_match(&on_day, &post));
    assert!(!post_match(&next_day, &post));
}

#[test]
fn envelope_search_post_filter_strict_after() {
    let post = [PostFilter::AfterDate(day(2026, 5, 15))];
    let on_day = envelope_at("2026-05-15T23:59:59+00:00");
    let next_day = envelope_at("2026-05-16T00:00:00+00:00");
    assert!(!post_match(&on_day, &post));
    assert!(post_match(&next_day, &post));
}

#[test]
fn envelope_search_flag_clause_sets_has_keyword() {
    let q = query(SearchEmailsFilterQuery::Flag(Flag::from_iana(IanaFlag::Flagged)));
    let c = build(Some(&q), "mbox".into());
    match pluck_user_filter(c.filter) {
        Filter::Condition(condition) => {
            assert_eq!(condition.field, ConditionField::HasKeyword);
            assert_eq!(condition.value, "$flagged");
        }
        other => panic!("expected condition, got {other:?}"),
    }
}
