use std::collections::{BTreeMap, BTreeSet};

use io_email::address::Address;
use io_email::coroutine::EmailCoroutineState;
use io_email::date::{parse_rfc3339, Date};
use io_email::envelope::Envelope;
use io_email::flag::types::{Flag, FlagOp, FlagSet, IanaFlag};
use io_email::m2dir::convert::parse_meta_flags;
use io_email::m2dir::envelope_search::{M2dirEnvelopeSearch, M2dirEnvelopeSearchError};
use io_email::m2dir::query::{
    body_contains, compare_with, contains_ignore_ascii_case, matches_filter, sort_envelopes,
    Relation,
};
use io_email::maildir::flag_store::{MaildirFlagStore, MaildirFlagStoreError};
use io_email::search::{
    SearchEmailsFilterQuery, SearchEmailsQuery, SearchEmailsSorter, SearchEmailsSorterKind,
    SearchEmailsSorterOrder,
};
use io_m2dir::coroutine::{M2dirArg, M2dirYield};
use io_m2dir::path::M2dirPath;
use io_maildir::coroutine::{MaildirReply, MaildirYield};
use io_maildir::flag::types::{MaildirFlag, MaildirFlags};
use io_maildir::maildir::types::Maildir;

const MAIL: &str = "From: Alice <alice@example.org>\r\nTo: bob@example.org\r\nSubject: Hello World\r\nDate: Thu, 15 Jan 2026 10:00:00 +0000\r\nMessage-ID: <id@example.org>\r\n\r\nThe Body.\r\n";

fn envelope(id: &str, date: Option<&str>, from: &[(Option<&str>, &str)], subject: &str) -> Envelope {
    Envelope {
        id: id.into(),
        message_id: None,
        flags: FlagSet::new(),
        subject: subject.into(),
        from: from
            .iter()
            .map(|(name, email)| Address {
                name: name.map(|n| n.to_string()),
                email: email.to_string(),
            })
            .collect(),
        to: vec![],
        date: date.and_then(parse_rfc3339),
        size: 0,
        has_attachment: None,
    }
}

fn raw_flags(flags: &FlagSet) -> Vec<String> {
    flags.as_vec().iter().map(|flag| flag.raw().to_string()).collect()
}

fn ids(envelopes: &[Envelope]) -> Vec<&str> {
    envelopes.iter().map(|envelope| envelope.id.as_str()).collect()
}

#[test]
fn flags_files_hold_one_flag_a_line() {
    let flags = parse_meta_flags(b" $seen \r\n\n\tWork\nwork\n");
    assert_eq!(raw_flags(&flags), ["Work", "\\Seen", "work"]);
    assert!(parse_meta_flags(b"").is_empty());
    assert!(parse_meta_flags(&[b'a', 0xff]).is_empty());
}

#[test]
fn bytes_occur_in_any_ascii_case() {
    assert!(contains_ignore_ascii_case(b"Hello", b""));
    assert!(contains_ignore_ascii_case(b"Hello", b"LLO"));
    assert!(!contains_ignore_ascii_case(b"Hello", b"lo!"));
    assert!(!contains_ignore_ascii_case(b"He", b"Hello"));
    assert!(contains_ignore_ascii_case(b"", b""));
}

#[test]
fn bodies_are_looked_into() {
    assert!(body_contains(MAIL.as_bytes(), "the body"));
    assert!(!body_contains(MAIL.as_bytes(), "Hello World"));
}

#[test]
fn filters_match_what_they_say() {
    let raw = MAIL.as_bytes();
    let mut mail = envelope(
        "1",
        Some("2026-01-15T10:00:00Z"),
        &[(Some("\u{c9}mile"), "emile@example.org")],
        "Hello World",
    );
    mail.flags.insert(Flag::from_iana(IanaFlag::Seen));
    let day = |d| Date::from_ymd(2026, 1, d).unwrap();
    let yes = |filter: SearchEmailsFilterQuery| assert!(matches_filter(&mail, raw, &filter));
    let no = |filter: SearchEmailsFilterQuery| assert!(!matches_filter(&mail, raw, &filter));
    yes(SearchEmailsFilterQuery::Date(day(15)));
    no(SearchEmailsFilterQuery::Date(day(14)));
    yes(SearchEmailsFilterQuery::AfterDate(day(14)));
    no(SearchEmailsFilterQuery::AfterDate(day(15)));
    yes(SearchEmailsFilterQuery::From("\u{e9}MILE".into()));
    yes(SearchEmailsFilterQuery::From("EXAMPLE".into()));
    no(SearchEmailsFilterQuery::From("bob".into()));
    no(SearchEmailsFilterQuery::To("".into()));
    yes(SearchEmailsFilterQuery::Subject("lo wo".into()));
    yes(SearchEmailsFilterQuery::Body("BODY.".into()));
    yes(SearchEmailsFilterQuery::Flag(Flag::from_raw("$seen")));
    no(SearchEmailsFilterQuery::Flag(Flag::from_raw("$junk")));
    no(SearchEmailsFilterQuery::Not(Box::new(SearchEmailsFilterQuery::Subject("hello".into()))));
    no(SearchEmailsFilterQuery::And(
        Box::new(SearchEmailsFilterQuery::Subject("hello".into())),
        Box::new(SearchEmailsFilterQuery::Subject("x".into())),
    ));
    yes(SearchEmailsFilterQuery::Or(
        Box::new(SearchEmailsFilterQuery::Subject("hello".into())),
        Box::new(SearchEmailsFilterQuery::Subject("x".into())),
    ));
    let undated = envelope("2", None, &[], "");
    assert!(!matches_filter(&undated, raw, &SearchEmailsFilterQuery::AfterDate(day(1))));
}

#[test]
fn envelopes_sort_by_the_chain() {
    let list = vec![
        envelope("1", Some("2026-01-15T10:00:00+01:00"), &[(Some("bob"), "z@x")], "b"),
        envelope("2", None, &[], "a"),
        envelope("3", Some("2026-01-15T09:00:00Z"), &[(None, "Alice@x")], "b"),
        envelope("4", Some("2026-01-16T00:00:00Z"), &[(Some("bob"), "a@x")], "B"),
    ];
    let by = |kind, order| [SearchEmailsSorter(kind, order)];
    let up = SearchEmailsSorterOrder::Ascending;
    let down = SearchEmailsSorterOrder::Descending;
    let sorted = sort_envelopes(&list, &by(SearchEmailsSorterKind::Date, down));
    assert_eq!(ids(&sorted), ["4", "1", "3", "2"]);
    let sorted = sort_envelopes(&list, &by(SearchEmailsSorterKind::Date, up));
    assert_eq!(ids(&sorted), ["2", "1", "3", "4"]);
    let sorted = sort_envelopes(&list, &by(SearchEmailsSorterKind::From, up));
    assert_eq!(ids(&sorted), ["2", "3", "1", "4"]);
    let sorted = sort_envelopes(&list, &by(SearchEmailsSorterKind::Subject, up));
    assert_eq!(ids(&sorted), ["4", "2", "1", "3"]);
    let chain = [
        SearchEmailsSorter(SearchEmailsSorterKind::From, up),
        SearchEmailsSorter(SearchEmailsSorterKind::Date, down),
    ];
    assert_eq!(ids(&sort_envelopes(&list, &chain)), ["2", "3", "4", "1"]);
    assert_eq!(compare_with(&list[0], &list[2], &chain[1..]), Relation::Equal);
    assert_eq!(compare_with(&list[0], &list[2], &chain[..1]), Relation::Greater);
    assert_eq!(
        compare_with(&list[0], &list[1], &by(SearchEmailsSorterKind::To, up)),
        Relation::Equal
    );
}

fn listed(run: &mut M2dirEnvelopeSearch, names: &[&str]) -> Result<BTreeSet<M2dirPath>, usize> {
    let EmailCoroutineState::Yielded(M2dirYield::WantsDirRead(dirs)) = run.resume(None) else {
        panic!("expected a directory read")
    };
    assert_eq!(dirs.iter().map(|p| p.as_str()).collect::<Vec<_>>(), ["root/INBOX"]);
    let entries: BTreeSet<M2dirPath> =
        names.iter().map(|name| M2dirPath::new(format!("root/INBOX/{name}"))).collect();
    let dir = BTreeMap::from([(M2dirPath::new("root/INBOX"), entries.clone())]);
    match run.resume(Some(M2dirArg::DirRead(dir))) {
        EmailCoroutineState::Yielded(M2dirYield::WantsFileExists(paths)) => {
            let found = paths.into_iter().map(|path| (path, true)).collect();
            match run.resume(Some(M2dirArg::FileExists(found))) {
                EmailCoroutineState::Yielded(M2dirYield::WantsFileRead(files)) => Ok(files),
                _ => panic!("expected a file read"),
            }
        }
        EmailCoroutineState::Complete(Ok(envelopes)) => Err(envelopes.len()),
        _ => panic!("expected an existence check"),
    }
}

#[test]
fn an_m2dir_is_searched() {
    let query = SearchEmailsQuery {
        filter: Some(SearchEmailsFilterQuery::Or(
            Box::new(SearchEmailsFilterQuery::Body("the body".into())),
            Box::new(SearchEmailsFilterQuery::Flag(Flag::from_raw("work"))),
        )),
        sort: None,
    };
    let mut run = M2dirEnvelopeSearch::new("root/INBOX", Some(query), Some(1), Some(2), true);
    let files = listed(&mut run, &["d1,a.1", "d2,b.2", "d3,c.3", ".m2dir"]).unwrap();
    assert_eq!(
        files.iter().map(|path| path.as_str()).collect::<Vec<_>>(),
        [
            "root/INBOX/.meta/a.1.flags",
            "root/INBOX/.meta/b.2.flags",
            "root/INBOX/.meta/c.3.flags",
            "root/INBOX/d1,a.1",
            "root/INBOX/d2,b.2",
            "root/INBOX/d3,c.3",
        ]
    );
    assert!(matches!(
        run.resume(None),
        EmailCoroutineState::Complete(Err(M2dirEnvelopeSearchError::UnexpectedArg))
    ));
    let newer = MAIL.replace("15 Jan 2026", "17 Jan 2026").replace("The Body.", "other");
    let contents = BTreeMap::from([
        (M2dirPath::new("root/INBOX/d1,a.1"), MAIL.as_bytes().to_vec()),
        (M2dirPath::new("root/INBOX/.meta/a.1.flags"), b"$seen\n".to_vec()),
        (M2dirPath::new("root/INBOX/d2,b.2"), newer.clone().into_bytes()),
        (M2dirPath::new("root/INBOX/.meta/b.2.flags"), b"work\n".to_vec()),
        (M2dirPath::new("root/INBOX/d3,c.3"), newer.into_bytes()),
    ]);
    let EmailCoroutineState::Complete(Ok(envelopes)) =
        run.resume(Some(M2dirArg::FileRead(contents)))
    else {
        panic!("expected envelopes")
    };
    assert_eq!(ids(&envelopes), ["b.2", "a.1"]);
    assert_eq!(raw_flags(&envelopes[0].flags), ["work"]);
    assert_eq!(raw_flags(&envelopes[1].flags), ["\\Seen"]);
    assert_eq!(envelopes[1].subject, "Hello World");
    assert_eq!(envelopes[1].from[0].name.as_deref(), Some("Alice"));
    assert_eq!(envelopes[1].to[0].email, "bob@example.org");
    assert_eq!(envelopes[1].message_id.as_deref(), Some("id@example.org"));
    assert_eq!(envelopes[1].date.unwrap().seconds, 1_768_471_200);
    assert_eq!(envelopes[1].size, MAIL.len() as u64);
    assert_eq!(envelopes[1].has_attachment, Some(false));
    assert!(matches!(
        run.resume(None),
        EmailCoroutineState::Complete(Err(M2dirEnvelopeSearchError::ResumedAfterDone))
    ));
}

#[test]
fn an_empty_m2dir_has_no_hits() {
    let mut run = M2dirEnvelopeSearch::new("root/INBOX", None, None, None, false);
    assert_eq!(listed(&mut run, &[".m2dir"]), Err(0));
}

#[test]
fn an_unreadable_message_ends_the_search() {
    let mut run = M2dirEnvelopeSearch::new("root/INBOX", None, None, None, false);
    listed(&mut run, &["d1,a.1"]).unwrap();
    let contents = BTreeMap::from([(M2dirPath::new("root/INBOX/d1,a.1"), vec![])]);
    assert!(matches!(
        run.resume(Some(M2dirArg::FileRead(contents))),
        EmailCoroutineState::Complete(Err(M2dirEnvelopeSearchError::Parse(path)))
            if path == "root/INBOX/d1,a.1"
    ));
}

#[test]
fn an_m2dir_listing_fails_out_of_turn() {
    let mut run = M2dirEnvelopeSearch::new("root/INBOX", None, None, None, false);
    assert!(matches!(
        run.resume(Some(M2dirArg::DirCreate)),
        EmailCoroutineState::Complete(Err(M2dirEnvelopeSearchError::List(_)))
    ));
}

#[test]
fn maildir_flags_are_stored_message_by_message() {
    let maildir = Maildir::from_path("root");
    let flags = MaildirFlags::from_iter([MaildirFlag::Seen]);
    let mut store = MaildirFlagStore::new(&maildir, &["a", "b"], flags, FlagOp::Add);
    for id in ["a", "b"] {
        let reply = if id == "a" { None } else { Some(MaildirReply::Rename) };
        let EmailCoroutineState::Yielded(MaildirYield::WantsFileExists(paths)) = store.resume(reply)
        else {
            panic!("expected an existence check")
        };
        assert!(paths.iter().any(|path| path.as_str() == format!("root/new/{id}")));
        let probes = paths.into_iter().map(|path| (path, false)).collect();
        let EmailCoroutineState::Yielded(MaildirYield::WantsDirRead(dirs)) =
            store.resume(Some(MaildirReply::FileExists(probes)))
        else {
            panic!("expected a directory read")
        };
        let dir = dirs.into_iter().next().unwrap();
        let file = dir.join(&format!("{id}:2,F"));
        let EmailCoroutineState::Yielded(MaildirYield::WantsRename(pairs)) =
            store.resume(Some(MaildirReply::DirRead(BTreeMap::from([(
                dir,
                BTreeSet::from([file]),
            )]))))
        else {
            panic!("expected a rename")
        };
        assert_eq!(pairs[0].1.as_str(), format!("root/cur/{id}:2,SF"));
    }
    assert!(matches!(
        store.resume(Some(MaildirReply::Rename)),
        EmailCoroutineState::Complete(Ok(()))
    ));
    assert!(matches!(store.resume(None), EmailCoroutineState::Complete(Ok(()))));
}

#[test]
fn maildir_flags_fail_with_their_message() {
    let maildir = Maildir::from_path("root");
    let run = |op| {
        let mut store = MaildirFlagStore::new(&maildir, &["a"], MaildirFlags::default(), op);
        let EmailCoroutineState::Yielded(_) = store.resume(None) else { panic!("expected a yield") };
        store.resume(Some(MaildirReply::DirCreate))
    };
    assert!(matches!(
        run(FlagOp::Add),
        EmailCoroutineState::Complete(Err(MaildirFlagStoreError::Add(_)))
    ));
    assert!(matches!(
        run(FlagOp::Replace),
        EmailCoroutineState::Complete(Err(MaildirFlagStoreError::Replace(_)))
    ));
    assert!(matches!(
        run(FlagOp::Remove),
        EmailCoroutineState::Complete(Err(MaildirFlagStoreError::Remove(_)))
    ));
    let mut store = MaildirFlagStore::new(&maildir, &[], MaildirFlags::default(), FlagOp::Add);
    assert!(matches!(store.resume(None), EmailCoroutineState::Complete(Ok(()))));
}
