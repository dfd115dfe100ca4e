use io_email::address::Address;
use io_email::client::{ping_targets, route, Operation, Registered, RouteError};
use io_email::coroutine::EmailBackend;
use io_email::date::{parse_rfc2822_date, parse_rfc3339, Date};
use io_email::envelope::{normalize_message_id, Envelope};
use io_email::event::WatchEvent;
use io_email::flag::types::{Flag, FlagSet, IanaFlag};
use io_email::flag::Flag as CommonFlag;
use io_email::page::{page_bounds, paginate, paginate_uids};
use io_email::text::{
    contains_text, decimal_of, find_row, parse_number, replace_of, split_of, trim_of,
};
use io_email::watch::{diff, Shadow};

fn envelope(id: &str, flags: &[IanaFlag]) -> Envelope {
    let mut set = FlagSet::new();
    for flag in flags {
        set.insert(Flag::from_iana(*flag));
    }
    Envelope {
        id: id.into(),
        message_id: None,
        flags: set,
        subject: String::new(),
        from: vec![],
        to: vec![],
        date: None,
        size: 0,
        has_attachment: None,
    }
}

fn raw_flags(flags: &FlagSet) -> Vec<String> {
    flags.as_vec().iter().map(|flag| flag.raw().to_string()).collect()
}

#[test]
fn message_ids_are_comparable() {
    assert_eq!(normalize_message_id("<a@b>"), Some("a@b".to_string()));
    assert_eq!(normalize_message_id("a@b"), Some("a@b".to_string()));
    assert_eq!(normalize_message_id("  < a@b > \r\n"), Some("a@b".to_string()));
    assert_eq!(normalize_message_id("<<a@b>>"), Some("<a@b>".to_string()));
    assert_eq!(normalize_message_id("<>"), None);
    assert_eq!(normalize_message_id(" \t"), None);
    assert_eq!(normalize_message_id("<a@b"), Some("<a@b".to_string()));
}

#[test]
fn common_flags_parse_every_spelling() {
    for spelling in ["\\Seen", "$seen", "SEEN", "S", "s"] {
        assert_eq!(CommonFlag::parse(spelling), Some(CommonFlag::Seen));
    }
    assert_eq!(CommonFlag::parse("R"), Some(CommonFlag::Answered));
    assert_eq!(CommonFlag::parse("\\Flagged"), Some(CommonFlag::Flagged));
    assert_eq!(CommonFlag::parse("$draft"), Some(CommonFlag::Draft));
    assert_eq!(CommonFlag::parse("$forwarded"), None);
    assert_eq!(CommonFlag::parse(""), None);
}

#[test]
fn common_flags_agree_with_the_open_set() {
    for flag in [CommonFlag::Seen, CommonFlag::Answered, CommonFlag::Flagged, CommonFlag::Draft] {
        assert_eq!(CommonFlag::parse(flag.iana().as_str()), Some(flag));
    }
}

#[test]
fn registered_spellings_parse_back() {
    for flag in [
        IanaFlag::Seen,
        IanaFlag::Answered,
        IanaFlag::Flagged,
        IanaFlag::Draft,
        IanaFlag::Deleted,
        IanaFlag::Forwarded,
        IanaFlag::Junk,
        IanaFlag::NotJunk,
        IanaFlag::Phishing,
        IanaFlag::Important,
        IanaFlag::MdnSent,
    ] {
        assert_eq!(IanaFlag::parse(flag.as_str()), Some(flag));
    }
    assert_eq!(IanaFlag::parse("Work"), None);
}

#[test]
fn raw_flags_are_kept_canonical() {
    assert_eq!(Flag::from_raw("$SEEN").raw(), "\\Seen");
    assert_eq!(Flag::from_raw("Work").raw(), "Work");
    assert!(Flag::from_raw("$seen").is_seen());
    assert!(Flag::from_raw("\\flagged").is_flagged());
    assert!(Flag::from_raw("$important").is_important());
    assert!(Flag::from_raw("draft").is_draft());
    assert!(Flag::from_raw("$Junk").is_junk());
}

#[test]
fn flag_sets_hold_each_flag_once_in_order() {
    let mut flags = FlagSet::new();
    assert!(flags.is_empty());
    for raw in ["Work", "$seen", "\\Seen", "\\Answered"] {
        flags.insert(Flag::from_raw(raw));
    }
    assert_eq!(raw_flags(&flags), ["Work", "\\Answered", "\\Seen"]);
    assert!(flags.contains(&Flag::from_iana(IanaFlag::Seen)));
    let mut other = FlagSet::new();
    other.insert(Flag::from_raw("work"));
    other.insert(Flag::from_raw("\\Seen"));
    assert_eq!(raw_flags(&flags.without(&other)), ["Work", "\\Answered"]);
}

#[test]
fn days_follow_the_calendar() {
    let next = |y, m, d| {
        let day = Date::from_ymd(y, m, d).unwrap().next();
        (day.year(), day.month(), day.day())
    };
    assert_eq!(next(2026, 1, 15), (2026, 1, 16));
    assert_eq!(next(2024, 2, 28), (2024, 2, 29));
    assert_eq!(next(2026, 2, 28), (2026, 3, 1));
    assert_eq!(next(1900, 2, 28), (1900, 3, 1));
    assert_eq!(next(2026, 12, 31), (2027, 1, 1));
    assert!(Date::from_ymd(2026, 2, 29).is_none());
    assert!(Date::from_ymd(2026, 13, 1).is_none());
    assert_eq!(Date::from_ymd(2026, 5, 3).unwrap().utc_midnight(), "2026-05-03T00:00:00Z");
}

#[test]
fn dates_are_read_with_their_offset() {
    let at = parse_rfc2822_date("  Thu, 15 Jan 2026 23:30:00 -0200 ").unwrap();
    assert_eq!(at.offset, -7200);
    assert_eq!(at.seconds, 1_768_527_000);
    assert_eq!((at.date.year(), at.date.month(), at.date.day()), (2026, 1, 15));
    assert_eq!(parse_rfc2822_date(""), None);
    assert_eq!(parse_rfc2822_date("yesterday"), None);
    let at = parse_rfc3339("2026-01-16T01:30:00.25Z").unwrap();
    assert_eq!((at.seconds, at.nanos, at.offset), (1_768_527_000, 250_000_000, 0));
    assert_eq!(parse_rfc3339(" "), None);
}

#[test]
fn pages_cut_the_list() {
    let uids = [1, 2, 3, 4, 5];
    assert_eq!(paginate_uids(&uids, Some(1), Some(2)), [1, 2]);
    assert_eq!(paginate_uids(&uids, Some(3), Some(2)), [5]);
    assert!(paginate_uids(&uids, Some(4), Some(2)).is_empty());
    assert_eq!(paginate_uids(&uids, None, None), [1, 2, 3, 4, 5]);
    assert_eq!(paginate_uids(&uids, Some(0), Some(3)), [1, 2, 3]);
    assert!(paginate_uids(&uids, Some(u32::MAX), Some(u32::MAX)).is_empty());
    assert_eq!(page_bounds(5, Some(2), Some(2)), (2, 4));
    let list = vec![envelope("a", &[]), envelope("b", &[]), envelope("c", &[])];
    let page = paginate(&list, Some(2), Some(2));
    assert_eq!(page.len(), 1);
    assert_eq!(page[0].id, "c");
}

#[test]
fn texts() {
    assert_eq!(replace_of("{x}-{x}", "{x}", "ab"), "ab-ab");
    assert_eq!(replace_of("{{x}", "{x}", "1"), "{1");
    assert_eq!(replace_of("aaa", "aa", "b"), "ba");
    assert_eq!(split_of("a,,b", ','), ["a", "", "b"]);
    assert_eq!(split_of("", ','), [""]);
    assert_eq!(trim_of("\u{3000} a b\r\n"), "a b");
    assert!(contains_text("abc", ""));
    assert!(contains_text("abc", "bc"));
    assert!(!contains_text("abc", "ac"));
    assert_eq!(decimal_of(0), "0");
    assert_eq!(decimal_of(u64::MAX), "18446744073709551615");
    assert_eq!(parse_number("42"), Some(42));
    assert_eq!(parse_number("4294967296"), None);
    assert_eq!(parse_number("4x"), None);
    let rows = vec![("a".to_string(), 1u32), ("b".to_string(), 2), ("a".to_string(), 3)];
    assert_eq!(find_row(&rows, "a"), Some(&1));
    assert_eq!(find_row(&rows, "c"), None);
}

#[test]
fn addresses_are_built_by_hand() {
    let address = Address::new("alice@example.org".into());
    assert_eq!(address.name, None);
    let address = address.with_name("Alice".into());
    assert_eq!(address.name.as_deref(), Some("Alice"));
    assert_eq!(address.email, "alice@example.org");
}

#[test]
fn snapshots_tell_what_changed() {
    let old = Shadow::of(vec![
        envelope("2", &[IanaFlag::Seen]),
        envelope("1", &[]),
        envelope("3", &[]),
    ]);
    let new = Shadow::of(vec![
        envelope("4", &[]),
        envelope("2", &[IanaFlag::Flagged]),
        envelope("1", &[]),
    ]);
    assert_eq!(old.ids(), ["1", "2", "3"]);
    let events = diff("INBOX", &old, &new);
    assert_eq!(events.len(), 4);
    assert!(matches!(&events[0], WatchEvent::FlagsAdded { id, flags, mailbox }
        if id == "2" && mailbox == "INBOX" && raw_flags(flags) == ["\\Flagged"]));
    assert!(matches!(&events[1], WatchEvent::FlagsRemoved { id, flags, .. }
        if id == "2" && raw_flags(flags) == ["\\Seen"]));
    assert!(matches!(&events[2], WatchEvent::EnvelopeAdded { envelope, .. } if envelope.id == "4"));
    assert!(matches!(&events[3], WatchEvent::EnvelopeRemoved { id, .. } if id == "3"));
    assert!(diff("INBOX", &new, &new).is_empty());
}

#[test]
fn snapshots_forget_what_is_removed() {
    let mut shadow = Shadow::of(vec![envelope("b", &[]), envelope("a", &[]), envelope("c", &[])]);
    assert!(shadow.remove("b"));
    assert!(!shadow.remove("b"));
    assert_eq!(shadow.ids(), ["a", "c"]);
}

#[test]
fn operations_go_to_the_first_backend_by_priority() {
    let all = Registered::none()
        .with(EmailBackend::Imap)
        .with(EmailBackend::Jmap)
        .with(EmailBackend::Smtp)
        .with(EmailBackend::Maildir)
        .with(EmailBackend::M2dir);
    assert_eq!(route(all, Operation::ListEnvelopes), Ok(EmailBackend::Maildir));
    assert_eq!(route(all, Operation::SendMessage), Ok(EmailBackend::Jmap));
    assert_eq!(route(all, Operation::WatchMailbox), Ok(EmailBackend::Jmap));
    assert_eq!(route(all, Operation::DiffMailboxes), Ok(EmailBackend::Jmap));

    let imap = Registered::none().with(EmailBackend::Imap).with(EmailBackend::Smtp);
    assert_eq!(route(imap, Operation::GetMessage), Ok(EmailBackend::Imap));
    assert_eq!(route(imap, Operation::DiffEnvelopes), Ok(EmailBackend::Imap));
    assert_eq!(route(imap, Operation::SendMessage), Ok(EmailBackend::Smtp));
    assert_eq!(
        route(imap, Operation::DiffMailboxes),
        Err(RouteError::UnsupportedOperation)
    );
    assert_eq!(ping_targets(imap), [EmailBackend::Imap, EmailBackend::Smtp]);

    let files = Registered::none().with(EmailBackend::M2dir);
    assert_eq!(route(files, Operation::StoreFlags), Ok(EmailBackend::M2dir));
    assert_eq!(
        route(files, Operation::DiffEnvelopes),
        Err(RouteError::UnsupportedOperation)
    );
    assert_eq!(route(files, Operation::WatchMailbox), Err(RouteError::NoBackendRegistered));
    assert_eq!(route(files, Operation::SendMessage), Err(RouteError::NoBackendRegistered));
    assert!(ping_targets(files).is_empty());
    assert_eq!(
        route(Registered::none(), Operation::ListMailboxes),
        Err(RouteError::NoBackendRegistered)
    );
}
