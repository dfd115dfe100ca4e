use io_email::date::Date;
use io_email::flag::types::{Flag, IanaFlag};
use io_email::flag::Flag as CommonFlag;
use io_email::imap::search_key::{
    convert_filter, search_keys, sort_criteria, PlainKey, SearchKey, TextField,
};
use io_email::search::{
    SearchEmailsFilterQuery, SearchEmailsSorter, SearchEmailsSorterKind, SearchEmailsSorterOrder,
};

fn day(y: i32, m: u32, d: u32) -> Date {
    Date::from_ymd(y, m, d).unwrap()
}

fn newest_then_subject() -> Vec<SearchEmailsSorter> {
    vec![
        SearchEmailsSorter(SearchEmailsSorterKind::Date, SearchEmailsSorterOrder::Descending),
        SearchEmailsSorter(SearchEmailsSorterKind::Subject, SearchEmailsSorterOrder::Ascending),
    ]
}

#[test]
fn search_empty_filter_yields_all() {
    let key = search_keys(None).unwrap();
    assert!(matches!(key, SearchKey::Plain(PlainKey::All)));
}

#[test]
fn search_date_clauses_target_sent_at() {
    let q = SearchEmailsFilterQuery::Date(day(2026, 1, 15));
    match convert_filter(&q).unwrap() {
        SearchKey::SentOn(d) => assert_eq!(d, day(2026, 1, 15)),
        other => panic!("expected SentOn, got {other:?}"),
    }
}

#[test]
fn search_after_date_bumps_by_one_day() {
    let q = SearchEmailsFilterQuery::AfterDate(day(2026, 1, 15));
    match convert_filter(&q).unwrap() {
        SearchKey::SentSince(d) => assert_eq!(d, day(2026, 1, 16)),
        other => panic!("expected SentSince, got {other:?}"),
    }
}

#[test]
fn search_empty_sort_defaults_to_date_descending() {
    let crit = sort_criteria(None);
    assert_eq!(crit.len(), 1);
    assert!(crit[0].reverse);
    assert!(matches!(crit[0].key, SearchEmailsSorterKind::Date));
}

#[test]
fn search_sort_chain_preserves_order_and_direction() {
    let chain = newest_then_subject();
    let crit = sort_criteria(Some(&chain));
    assert_eq!(crit.len(), 2);
    assert!(crit[0].reverse);
    assert!(matches!(crit[0].key, SearchEmailsSorterKind::Date));
    assert!(!crit[1].reverse);
    assert!(matches!(crit[1].key, SearchEmailsSorterKind::Subject));
}

#[test]
fn envelope_search_empty_filter_yields_all() {
    let key = search_keys(None).unwrap();
    assert!(matches!(key, SearchKey::Plain(PlainKey::All)));
}

#[test]
fn envelope_search_date_clauses_target_sent_at() {
    let q = SearchEmailsFilterQuery::Date(day(2026, 1, 15));
    match convert_filter(&q).unwrap() {
        SearchKey::SentOn(d) => assert_eq!(d, day(2026, 1, 15)),
        other => panic!("expected SentOn, got {other:?}"),
    }
}

#[test]
fn envelope_search_after_date_bumps_by_one_day() {
    let q = SearchEmailsFilterQuery::AfterDate(day(2026, 1, 15));
    match convert_filter(&q).unwrap() {
        SearchKey::SentSince(d) => assert_eq!(d, day(2026, 1, 16)),
        other => panic!("expected SentSince, got {other:?}"),
    }
}

#[test]
fn envelope_search_empty_sort_defaults_to_date_descending() {
    let crit = sort_criteria(None);
    assert_eq!(crit.len(), 1);
    assert!(crit[0].reverse);
    assert!(matches!(crit[0].key, SearchEmailsSorterKind::Date));
}

#[test]
fn envelope_search_sort_chain_preserves_order_and_direction() {
    let chain = newest_then_subject();
    let crit = sort_criteria(Some(&chain));
    assert_eq!(crit.len(), 2);
    assert!(crit[0].reverse);
    assert!(matches!(crit[0].key, SearchEmailsSorterKind::Date));
    assert!(!crit[1].reverse);
    assert!(matches!(crit[1].key, SearchEmailsSorterKind::Subject));
}

#[test]
fn search_flag_lcd_mapping() {
    for (iana, expected_seen) in
        [(IanaFlag::Seen, true), (IanaFlag::Answered, false), (IanaFlag::Flagged, false)]
    {
        let key = convert_filter(&SearchEmailsFilterQuery::Flag(Flag::from_iana(iana))).unwrap();
        assert_eq!(matches!(key, SearchKey::Plain(PlainKey::Seen)), expected_seen);
    }
}

#[test]
fn envelope_search_flag_lcd_mapping() {
    for (variant, expected_seen) in [
        (CommonFlag::Seen, true),
        (CommonFlag::Answered, false),
        (CommonFlag::Flagged, false),
        (CommonFlag::Draft, false),
    ] {
        let flag = Flag::from_iana(variant.iana());
        let key = convert_filter(&SearchEmailsFilterQuery::Flag(flag)).unwrap();
        assert_eq!(matches!(key, SearchKey::Plain(PlainKey::Seen)), expected_seen);
    }
}

#[test]
fn flag_custom_keyword_becomes_imap_keyword() {
    let key = convert_filter(&SearchEmailsFilterQuery::Flag(Flag::from_raw("Work"))).unwrap();
    assert!(matches!(key, SearchKey::Keyword(_)));
}

#[test]
fn and_or_not_translate_to_searchkey_combinators() {
    let q = SearchEmailsFilterQuery::And(
        Box::new(SearchEmailsFilterQuery::From("alice".into())),
        Box::new(SearchEmailsFilterQuery::Not(Box::new(SearchEmailsFilterQuery::Subject(
            "draft".into(),
        )))),
    );
    let key = convert_filter(&q).unwrap();
    assert!(matches!(key, SearchKey::And(_, _)));

    let q = SearchEmailsFilterQuery::Or(
        Box::new(SearchEmailsFilterQuery::From("a".into())),
        Box::new(SearchEmailsFilterQuery::From("b".into())),
    );
    let key = convert_filter(&q).unwrap();
    assert!(matches!(key, SearchKey::Or(_, _)));
}

#[test]
fn and_collects_two_keys() {
    let q = SearchEmailsFilterQuery::And(
        Box::new(SearchEmailsFilterQuery::From("alice".into())),
        Box::new(SearchEmailsFilterQuery::Subject("release".into())),
    );
    match convert_filter(&q).unwrap() {
        SearchKey::And(left, right) => {
            assert!(matches!(*left, SearchKey::Text(TextField::From, _)));
            assert!(matches!(*right, SearchKey::Text(TextField::Subject, _)));
        }
        other => panic!("expected And, got {other:?}"),
    }
}

#[test]
fn or_and_not_box_the_subtree() {
    let q = SearchEmailsFilterQuery::Or(
        Box::new(SearchEmailsFilterQuery::From("alice".into())),
        Box::new(SearchEmailsFilterQuery::Not(Box::new(SearchEmailsFilterQuery::Subject(
            "draft".into(),
        )))),
    );
    match convert_filter(&q).unwrap() {
        SearchKey::Or(l, r) => {
            assert!(matches!(*l, SearchKey::Text(TextField::From, _)));
            assert!(matches!(*r, SearchKey::Not(_)));
        }
        other => panic!("expected Or, got {other:?}"),
    }
}
