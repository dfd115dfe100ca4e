use std::collections::BTreeMap;
use std::sync::atomic::{AtomicBool, Ordering};
use std::sync::Arc;

use io_email::coroutine::{
    EmailBackend, EmailCoroutine, EmailCoroutineArg, EmailCoroutineState, JmapStep,
};
use io_email::date::Date;
use io_email::event::WatchEvent;
use io_email::flag::types::{Flag, FlagOp, FlagSet, IanaFlag};
use io_email::http::{ChunkScan, HttpFault, SizeText};
use io_email::jmap::blob_url::{resolve_download_url, resolve_upload_url};
use io_email::jmap::convert::{compute_position_limit, envelope_from, keyword_from};
use io_email::jmap::envelope_diff::{
    decode, encode, is_cannot_calculate_changes, is_resync_fault, ChangesFault, ClientFault, MethodFault,
};
use io_email::jmap::envelope_list::{JmapEnvelopeList, JmapEnvelopeListError};
use io_email::jmap::envelope_search::{JmapEnvelopeSearch, JmapEnvelopeSearchError};
use io_email::jmap::event_source::{event_target, StateChange};
use io_email::jmap::flag_add::{FlagAdd, FlagAddResult};
use io_email::jmap::flag_delete::{FlagDelete, FlagDeleteResult};
use io_email::jmap::flag_set::{FlagSet as FlagSetRun, FlagSetResult};
use io_email::jmap::flag_store::{JmapFlagStore, JmapFlagStoreError};
use io_email::jmap::mailbox_delete::{JmapMailboxDelete, JmapMailboxDeleteError};
use io_email::jmap::mailbox_list::JmapMailboxList;
use io_email::jmap::message_add::{JmapMessageAdd, JmapMessageAddError};
use io_email::jmap::message_copy::{JmapMessageCopy, JmapMessageCopyError};
use io_email::jmap::message_delete::{JmapMessageDelete, JmapMessageDeleteError};
use io_email::jmap::message_get::{JmapMessageGet, JmapMessageGetError};
use io_email::jmap::message_move::JmapMessageMove;
use io_email::jmap::message_send::{JmapMessageSend, JmapMessageSendError};
use io_email::jmap::shadow::MailboxShadow;
use io_email::jmap::watch::{
    email_is_in_mailbox, mailbox_filter, seed_shadow, touched, FrameAction, JmapWatch,
};
use io_email::jmap::watch_mailbox::{
    JmapWatchMailbox, JmapWatchMailboxError, JmapWatchMailboxYield,
};
use io_email::jmap::wire::{ChangesOutput, Email, HttpAuth};
use io_email::search::{SearchEmailsFilterQuery, SearchEmailsQuery};
use io_jmap::client::JmapClientStdError;
use io_jmap::rfc8620::changes::JmapChangesError;
use io_jmap::rfc8620::error::JmapMethodError;
use io_jmap::rfc8620::session::JmapSession;
use io_jmap::rfc8621::email::changes::JmapEmailChangesError;

fn session() -> JmapSession {
    let mut primary_accounts = BTreeMap::new();
    primary_accounts.insert("urn:ietf:params:jmap:mail".to_string(), "acc".to_string());
    JmapSession {
        username: "me".into(),
        accounts: BTreeMap::new(),
        primary_accounts,
        capabilities: BTreeMap::new(),
        api_url: "https://example.org/api".parse().unwrap(),
        download_url: "https://example.org/dl/{accountId}/{blobId}/{name}?t={type}".into(),
        upload_url: "https://example.org/up/{accountId}/".into(),
        event_source_url: "https://push.example.org:8443/events".into(),
        state: "s".into(),
    }
}

fn auth() -> HttpAuth {
    HttpAuth { header: "Bearer token".into() }
}

fn response(body: &str) -> Vec<u8> {
    format!(
        "HTTP/1.1 200 OK\r\nContent-Type: application/json\r\nContent-Length: {}\r\n\r\n{body}",
        body.len()
    )
    .into_bytes()
}

fn methods(responses: &str) -> Vec<u8> {
    response(&format!(r#"{{"methodResponses":[{responses}],"sessionState":"s"}}"#))
}

/// Runs a coroutine against canned responses, one for each request; gives
/// the requests and what the coroutine completed with.
fn drive<R>(
    mut resume: impl FnMut(Option<&[u8]>) -> EmailCoroutineState<JmapStep, R>,
    responses: &[Vec<u8>],
) -> (Vec<String>, R) {
    let mut requests = vec![];
    let mut replies = responses.iter();
    let mut bytes: Option<Vec<u8>> = None;
    loop {
        match resume(bytes.as_deref()) {
            EmailCoroutineState::Complete(result) => return (requests, result),
            EmailCoroutineState::Yielded(JmapStep::WantsWrite(out)) => {
                requests.push(String::from_utf8_lossy(&out).into_owned());
                bytes = None;
            }
            EmailCoroutineState::Yielded(JmapStep::WantsRead) => {
                bytes = Some(replies.next().cloned().unwrap_or_default());
            }
        }
    }
}

fn raw_flags(flags: &FlagSet) -> Vec<String> {
    flags.as_vec().iter().map(|flag| flag.raw().to_string()).collect()
}

fn email(id: &str, mailboxes: &[(&str, bool)], keywords: &[&str]) -> Email {
    Email {
        id: Some(id.into()),
        blob_id: None,
        mailbox_ids: Some(mailboxes.iter().map(|(id, on)| (id.to_string(), *on)).collect()),
        keywords: Some(keywords.iter().map(|word| (word.to_string(), true)).collect()),
        size: None,
        message_id: None,
        from: None,
        to: None,
        subject: None,
        sent_at: None,
        has_attachment: None,
    }
}

const SET_OK: &str = r#"["Email/set",{"newState":"s2"},"c0"]"#;

#[test]
fn keywords_are_lower_case_with_a_dollar() {
    assert_eq!(keyword_from(&Flag::from_iana(IanaFlag::Seen)), "$seen");
    assert_eq!(keyword_from(&Flag::from_iana(IanaFlag::MdnSent)), "$mdnsent");
    assert_eq!(keyword_from(&Flag::from_raw("Work")), "Work");
}

#[test]
fn positions_count_from_the_page() {
    assert_eq!(compute_position_limit(Some(3), Some(10)), (Some(20), Some(10)));
    assert_eq!(compute_position_limit(None, Some(10)), (Some(0), Some(10)));
    assert_eq!(compute_position_limit(Some(0), Some(10)), (Some(0), Some(10)));
    assert_eq!(compute_position_limit(Some(3), None), (None, None));
    assert_eq!(
        compute_position_limit(Some(u32::MAX), Some(u32::MAX)),
        (Some(u64::from(u32::MAX - 1) * u64::from(u32::MAX)), Some(u64::from(u32::MAX)))
    );
}

#[test]
fn an_email_becomes_an_envelope() {
    let mut mail = email("e1", &[], &["$seen", "work"]);
    mail.keywords.as_mut().unwrap().push(("$flagged".into(), false));
    mail.message_id = Some(vec![" ".into(), "<id@x>".into()]);
    mail.sent_at = Some("2026-01-15T10:00:00+01:00".into());
    mail.size = Some(9);
    mail.has_attachment = Some(true);
    let envelope = envelope_from(&mail);
    assert_eq!(envelope.id, "e1");
    assert_eq!(raw_flags(&envelope.flags), ["\\Seen", "work"]);
    assert_eq!(envelope.message_id.as_deref(), Some("id@x"));
    assert_eq!(envelope.date.unwrap().seconds, 1_768_467_600);
    assert_eq!(envelope.size, 9);
    assert_eq!(envelope.has_attachment, Some(true));
    assert!(envelope.from.is_empty() && envelope.subject.is_empty());
}

#[test]
fn states_round_trip() {
    assert_eq!(decode(&encode("état-1")).as_deref(), Some("état-1"));
    assert_eq!(encode("ab"), b"ab");
    assert_eq!(decode(&[0xff, 0xfe]), None);
}

#[test]
fn only_cannot_calculate_changes_counts() {
    let method = |err| {
        JmapClientStdError::EmailChanges(JmapEmailChangesError::Changes(JmapChangesError::Method(
            err,
        )))
    };
    assert!(is_cannot_calculate_changes(&method(JmapMethodError::CannotCalculateChanges {
        description: None
    })));
    assert!(!is_cannot_calculate_changes(&method(JmapMethodError::Unknown)));
    assert!(!is_cannot_calculate_changes(&JmapClientStdError::EmailChanges(
        JmapEmailChangesError::Changes(JmapChangesError::MissingResponse)
    )));
    assert!(is_resync_fault(ClientFault::EmailChanges(ChangesFault::Method(
        MethodFault::CannotCalculateChanges
    ))));
    assert!(!is_resync_fault(ClientFault::EmailChanges(ChangesFault::Method(MethodFault::Other))));
    assert!(!is_resync_fault(ClientFault::EmailChanges(ChangesFault::Send)));
    assert!(!is_resync_fault(ClientFault::Other));
}

#[test]
fn blob_urls_are_filled_in() {
    let mut session = session();
    assert_eq!(
        resolve_upload_url(&session).unwrap().as_str(),
        "https://example.org/up/acc/"
    );
    assert_eq!(
        resolve_download_url(&session.download_url, "acc", "b1"),
        "https://example.org/dl/acc/b1/message.eml?t=message%2Frfc822"
    );
    session.upload_url = "{accountId}".into();
    assert_eq!(resolve_upload_url(&session).unwrap_err(), "acc");
}

#[test]
fn listing_asks_for_one_page() {
    let mut list = JmapEnvelopeList::new(&session(), &auth(), "mb", Some(2), Some(5)).unwrap();
    let (requests, result) = drive(
        |bytes| list.resume(bytes),
        &[methods(
            r#"["Email/query",{"queryState":"q","ids":["e1"]},"c0"],
               ["Email/get",{"state":"s","list":[{"id":"e1","subject":"Hi"}],"notFound":[]},"c1"]"#,
        )],
    );
    assert!(requests[0].starts_with("POST /api HTTP/1.1"));
    assert!(requests[0].contains("Bearer token"));
    assert!(requests[0].contains(r#""inMailbox":"mb""#));
    assert!(requests[0].contains(r#""position":5"#));
    assert!(requests[0].contains(r#""limit":5"#));
    assert!(!requests[0].contains(r#""sort""#));
    let envelopes = result.unwrap();
    assert_eq!(envelopes.len(), 1);
    assert_eq!((envelopes[0].id.as_str(), envelopes[0].subject.as_str()), ("e1", "Hi"));
    assert!(matches!(
        list.resume(None),
        EmailCoroutineState::Complete(Err(JmapEnvelopeListError::ResumedAfterDone))
    ));
}

#[test]
fn listing_reports_a_method_error() {
    let mut list = JmapEnvelopeList::new(&session(), &auth(), "mb", None, None).unwrap();
    let (_, result) = drive(
        |bytes| list.resume(bytes),
        &[methods(r#"["error",{"type":"invalidArguments"},"c0"]"#)],
    );
    assert!(matches!(result, Err(JmapEnvelopeListError::EmailQuery(_))));
}

fn search_reply() -> Vec<u8> {
    methods(
        r#"["Email/query",{"queryState":"q","ids":[]},"c0"],
           ["Email/get",{"state":"s","notFound":[],"list":[
              {"id":"e1","sentAt":"2026-01-15T23:00:00Z"},
              {"id":"e2","sentAt":"2026-01-16T01:00:00Z"},
              {"id":"e3"},
              {"id":"e4","sentAt":"2026-01-15T00:00:00Z"}]},"c1"]"#,
    )
}

#[test]
fn search_pages_on_the_server() {
    let query = SearchEmailsQuery {
        filter: Some(SearchEmailsFilterQuery::Not(Box::new(SearchEmailsFilterQuery::And(
            Box::new(SearchEmailsFilterQuery::Subject("x".into())),
            Box::new(SearchEmailsFilterQuery::Flag(Flag::from_iana(IanaFlag::Draft))),
        )))),
        sort: None,
    };
    let mut search =
        JmapEnvelopeSearch::new(&session(), &auth(), "mb", Some(&query), Some(1), Some(2)).unwrap();
    let (requests, result) = drive(|bytes| search.resume(bytes), &[search_reply()]);
    assert!(requests[0].contains(r#""limit":2"#));
    assert!(requests[0].contains(r#""operator":"NOT""#));
    assert!(requests[0].contains(r#""subject":"x""#));
    assert!(requests[0].contains(r#""hasKeyword":"$draft""#));
    assert!(requests[0].contains(r#""property":"sentAt""#));
    assert!(requests[0].contains(r#""isAscending":false"#));
    assert_eq!(result.unwrap().len(), 4);
    assert!(matches!(
        search.resume(None),
        EmailCoroutineState::Complete(Err(JmapEnvelopeSearchError::ResumedAfterDone))
    ));
}

#[test]
fn search_by_day_pages_on_the_client() {
    let query = SearchEmailsQuery {
        filter: Some(SearchEmailsFilterQuery::Date(Date::from_ymd(2026, 1, 15).unwrap())),
        sort: None,
    };
    let mut search =
        JmapEnvelopeSearch::new(&session(), &auth(), "mb", Some(&query), Some(2), Some(1)).unwrap();
    let (requests, result) = drive(|bytes| search.resume(bytes), &[search_reply()]);
    assert!(!requests[0].contains(r#""limit""#));
    assert!(requests[0].contains(r#""after":"2026-01-15T00:00:00Z""#));
    let envelopes = result.unwrap();
    assert_eq!(envelopes.len(), 1);
    assert_eq!(envelopes[0].id, "e4");
}

fn found(filter: SearchEmailsFilterQuery) -> (String, Vec<String>) {
    let query = SearchEmailsQuery { filter: Some(filter), sort: None };
    let mut search =
        JmapEnvelopeSearch::new(&session(), &auth(), "mb", Some(&query), None, None).unwrap();
    let (mut requests, result) = drive(|bytes| search.resume(bytes), &[search_reply()]);
    (requests.remove(0), result.unwrap().into_iter().map(|envelope| envelope.id).collect())
}

#[test]
fn search_by_day_minds_not_and_or() {
    let on = || Box::new(SearchEmailsFilterQuery::Date(Date::from_ymd(2026, 1, 15).unwrap()));
    let after =
        || Box::new(SearchEmailsFilterQuery::AfterDate(Date::from_ymd(2026, 1, 15).unwrap()));
    let flagged =
        || Box::new(SearchEmailsFilterQuery::Flag(Flag::from_iana(IanaFlag::Flagged)));

    let (request, ids) = found(SearchEmailsFilterQuery::Not(on()));
    assert_eq!(ids, ["e2", "e3"]);
    assert!(!request.contains(r#""after""#) && !request.contains(r#""operator":"NOT""#));

    let (request, ids) = found(SearchEmailsFilterQuery::Or(on(), flagged()));
    assert_eq!(ids, ["e1", "e2", "e3", "e4"]);
    assert!(request.contains(r#""operator":"OR""#) && request.contains(r#""after""#));

    let (_, ids) = found(SearchEmailsFilterQuery::Or(on(), after()));
    assert_eq!(ids, ["e1", "e2", "e4"]);

    let (_, ids) = found(SearchEmailsFilterQuery::And(on(), flagged()));
    assert_eq!(ids, ["e1", "e4"]);

    let (request, ids) = found(SearchEmailsFilterQuery::Not(Box::new(
        SearchEmailsFilterQuery::Or(on(), flagged()),
    )));
    assert_eq!(ids, ["e2", "e3"]);
    assert!(request.contains(r#""operator":"NOT""#) && request.contains(r#""hasKeyword""#));
    assert!(!request.contains(r#""after""#));

    let (request, ids) = found(SearchEmailsFilterQuery::Not(Box::new(
        SearchEmailsFilterQuery::And(on(), flagged()),
    )));
    assert_eq!(ids, ["e1", "e2", "e3", "e4"]);
    assert!(!request.contains(r#""hasKeyword""#));

    let (_, ids) = found(SearchEmailsFilterQuery::Not(Box::new(SearchEmailsFilterQuery::Not(on()))));
    assert_eq!(ids, ["e1", "e4"]);
}

fn in_chunks(head: &str, body: &str) -> Vec<u8> {
    format!("{head}\r\n\r\n{body}").into_bytes()
}

const CHUNKED: &str = "HTTP/1.1 200 OK\r\nTransfer-Encoding: Chunked";

fn stored(responses: &[Vec<u8>]) -> Result<(), JmapFlagStoreError> {
    let mut store =
        JmapFlagStore::new(&session(), &auth(), "mb", &["e1"], &[], FlagOp::Add).unwrap();
    drive(|bytes| store.resume(bytes), responses).1
}

#[test]
fn a_chunk_that_leaves_no_room_is_refused() {
    for size in [usize::MAX, usize::MAX - 1] {
        let reply = in_chunks(CHUNKED, &format!("{size:X}\r\n"));
        assert!(matches!(
            stored(&[reply]),
            Err(JmapFlagStoreError::EmailSet(HttpFault::ChunkSize))
        ));
    }
    let json = format!(r#"{{"methodResponses":[{SET_OK}],"sessionState":"s"}}"#);
    let (start, end) = json.split_at(10);
    let first = format!("{:x};ext=1\r\n{start}\r", start.len());
    let split = format!("\n +{:x} \r", usize::MAX);
    assert!(matches!(
        stored(&[in_chunks(CHUNKED, &first), split.into_bytes(), b"\n".to_vec()]),
        Err(JmapFlagStoreError::EmailSet(HttpFault::ChunkSize))
    ));
    let last = format!("\n000{:X}\r\n{end}\r\n0\r\n\r\n", end.len());
    assert!(stored(&[in_chunks(CHUNKED, &first), last.into_bytes()]).is_ok());
    let too_long = in_chunks(CHUNKED, &format!("{:x}0\r\n", usize::MAX));
    assert!(matches!(
        stored(&[too_long]),
        Err(JmapFlagStoreError::EmailSet(HttpFault::Exchange(_)))
    ));
}

#[test]
fn sizes_are_looked_for_between_chunks_only() {
    let line = format!("{:X}\r\n", usize::MAX);
    let get = methods(r#"["Email/get",{"state":"s","list":[{"id":"e1","blobId":"b1"}],"notFound":[]},"c0"]"#);
    let fetch = |reply: Vec<u8>| {
        let mut run = JmapMessageGet::new(&session(), &auth(), "mb", "e1").unwrap();
        drive(|bytes| run.resume(bytes), &[get.clone(), reply]).1.unwrap().bytes
    };
    let plain = format!("HTTP/1.1 200 OK\r\nContent-Length: {}\r\n\r\n{line}", line.len());
    assert_eq!(fetch(plain.into_bytes()), line.as_bytes());
    let body = format!("{:x}\r\n{line}\r\n0\r\n\r\n{line}", line.len());
    assert_eq!(fetch(in_chunks(CHUNKED, &body)), line.as_bytes());
    let old = format!(
        "HTTP/1.0 200 OK\r\nTransfer-Encoding: chunked\r\nContent-Length: {}\r\n\r\n{line}",
        line.len()
    );
    assert_eq!(fetch(old.into_bytes()), line.as_bytes());
}

#[test]
fn a_push_channel_refuses_such_a_chunk() {
    let shutdown = Arc::new(AtomicBool::new(false));
    let mut run = JmapWatchMailbox::new(&session(), &auth(), "mb", shutdown).unwrap();
    assert!(matches!(run.advance(false, None), EmailCoroutineState::Yielded(_)));
    assert!(matches!(run.advance(false, None), EmailCoroutineState::Yielded(_)));
    let reply = in_chunks(CHUNKED, &format!("2\r\n\n\n\r\n{:x}\r\n", usize::MAX));
    assert!(matches!(
        run.advance(false, Some(&reply)),
        EmailCoroutineState::Complete(Err(JmapWatchMailboxError::EventSource(
            HttpFault::ChunkSize
        )))
    ));
}

#[test]
fn a_push_channel_is_followed_over_several_frames() {
    let frame = |state: &str| {
        format!(
            "event: state\ndata: {{\"@type\":\"StateChange\",\"changed\":{{\"acc\":{{\"Email\":\"{state}\"}}}}}}\n\n"
        )
    };
    let both = frame("s1") + &frame("s2");
    let opened = || {
        let shutdown = Arc::new(AtomicBool::new(false));
        let mut run = JmapWatchMailbox::new(&session(), &auth(), "mb", shutdown).unwrap();
        assert!(matches!(run.advance(false, None), EmailCoroutineState::Yielded(_)));
        assert!(matches!(run.advance(false, None), EmailCoroutineState::Yielded(_)));
        let reply = in_chunks(CHUNKED, &format!("{:x}\r\n{both}\r\n5\r\n: pin", both.len()));
        assert!(matches!(
            run.advance(false, Some(&reply)),
            EmailCoroutineState::Yielded(JmapWatchMailboxYield::WantsRead)
        ));
        run
    };
    let refused = format!("\r\n{:x}\r\n", usize::MAX);
    assert!(matches!(
        opened().advance(false, Some(refused.as_bytes())),
        EmailCoroutineState::Complete(Err(JmapWatchMailboxError::EventSource(
            HttpFault::ChunkSize
        )))
    ));
    assert!(matches!(
        opened().advance(false, Some(b"\r\n0\r\n\r\n")),
        EmailCoroutineState::Yielded(JmapWatchMailboxYield::WantsWrite(out))
            if String::from_utf8_lossy(&out).contains("Email/changes")
    ));
}

#[test]
fn a_scan_follows_the_chunks() {
    let start = ChunkScan::Size { text: SizeText::Blank, extension: false, cr: false };
    assert_eq!(start.scan(b"5"), ChunkScan::Size {
        text: SizeText::Digits(5),
        extension: false,
        cr: false
    });
    assert_eq!(start.scan(b"5\r\nab"), ChunkScan::Data { left: 5, last: false });
    assert_eq!(start.scan(b"1\r\na\r\n"), start);
    assert_eq!(start.scan(b"0\r\n\r\nffff"), ChunkScan::Over);
    assert_eq!(start.scan(b"x\r\n"), ChunkScan::Over);
    assert_eq!(start.scan(b"\r\n"), ChunkScan::Over);
    assert_eq!(start.scan(b"+\r\n"), ChunkScan::Over);
    assert_eq!(start.scan(b"1 2\r\n"), ChunkScan::Over);
    assert_eq!(start.scan(b"1;\n2\r\n"), ChunkScan::Data { left: 3, last: false });
    let most = format!("{:x}\r\n", usize::MAX - 2);
    assert_eq!(start.scan(most.as_bytes()), ChunkScan::Data { left: usize::MAX, last: false });
    let more = format!("{:x}\r\n", usize::MAX - 1);
    assert_eq!(start.scan(more.as_bytes()), ChunkScan::Oversized);
    assert_eq!(start.scan(more.as_bytes()).scan(b"0\r\n"), ChunkScan::Oversized);
}

#[test]
fn search_by_name_resolves_the_mailbox() {
    let mailboxes = methods(
        r#"["Mailbox/query",{"queryState":"q","ids":["m0","m1"]},"c0"],
           ["Mailbox/get",{"state":"s","notFound":[],"list":[
              {"id":"m0","name":"Archive 2"},{"id":"m1","name":"Archive"}]},"c1"]"#,
    );
    let mut search =
        JmapEnvelopeSearch::by_name(&session(), &auth(), "Archive", None, None, None).unwrap();
    let (requests, result) =
        drive(|bytes| search.resume(bytes), &[mailboxes.clone(), search_reply()]);
    assert_eq!(requests.len(), 2);
    assert!(requests[0].contains(r#""name":"Archive""#));
    assert!(requests[1].contains(r#""inMailbox":"m1""#));
    assert_eq!(result.unwrap().len(), 4);

    let mut search =
        JmapEnvelopeSearch::by_name(&session(), &auth(), "Nope", None, None, None).unwrap();
    let (_, result) = drive(|bytes| search.resume(bytes), &[mailboxes]);
    assert!(matches!(result, Err(JmapEnvelopeSearchError::NotFound(name)) if name == "Nope"));

    let mut search =
        JmapEnvelopeSearch::by_name(&session(), &auth(), "Nope", None, None, None).unwrap();
    let (_, result) =
        drive(|bytes| search.resume(bytes), &[methods(r#"["error",{"type":"forbidden"},"c0"]"#)]);
    assert!(matches!(result, Err(JmapEnvelopeSearchError::MailboxQuery(_))));
}

#[test]
fn flags_are_stored_as_keywords() {
    let flags = [Flag::from_iana(IanaFlag::Seen), Flag::from_raw("work")];
    let run = |op| {
        let mut store =
            JmapFlagStore::new(&session(), &auth(), "mb", &["e1", "e2"], &flags, op).unwrap();
        let (requests, result) = drive(|bytes| store.resume(bytes), &[methods(SET_OK)]);
        assert!(result.is_ok());
        requests[0].clone()
    };
    let add = run(FlagOp::Add);
    assert!(add.contains(r#""e1":{"keywords/$seen":true,"keywords/work":true}"#));
    assert!(add.contains(r#""e2":{"keywords/$seen":true,"keywords/work":true}"#));
    let remove = run(FlagOp::Remove);
    assert!(remove.contains(r#""e1":{"keywords/$seen":null,"keywords/work":null}"#));
    let replace = run(FlagOp::Replace);
    assert!(replace.contains(r#""e2":{"keywords":{"$seen":true,"work":true}}"#));
}

#[test]
fn flags_not_stored_are_reported() {
    let mut store = JmapFlagStore::new(
        &session(),
        &auth(),
        "mb",
        &["e1", "e2"],
        &[Flag::from_iana(IanaFlag::Seen)],
        FlagOp::Add,
    )
    .unwrap();
    let (_, result) = drive(
        |bytes| store.resume(bytes),
        &[methods(
            r#"["Email/set",{"newState":"s2","notUpdated":{"e2":{"type":"notFound"}}},"c0"]"#,
        )],
    );
    assert!(matches!(result, Err(JmapFlagStoreError::NotUpdated(ids)) if ids == ["e2"]));

    let mut store =
        JmapFlagStore::new(&session(), &auth(), "mb", &["e1"], &[], FlagOp::Replace).unwrap();
    let (_, result) = drive(
        |bytes| store.resume(bytes),
        &[methods(r#"["error",{"type":"stateMismatch"},"c0"]"#)],
    );
    assert!(matches!(result, Err(JmapFlagStoreError::EmailSet(_))));
}

#[test]
fn raw_keywords_are_added_replaced_and_removed() {
    let words = vec!["$seen".to_string()];
    let refused = methods(
        r#"["Email/set",{"newState":"s2","notUpdated":{"e1":{"type":"notFound"}}},"c0"]"#,
    );

    let mut add = FlagAdd::new(&session(), &auth(), &["e1"], &words).unwrap();
    let FlagAddResult::WantsWrite(out) = add.resume(None) else { panic!("expected a write") };
    assert!(String::from_utf8_lossy(&out).contains(r#""e1":{"keywords/$seen":true}"#));
    assert!(matches!(add.resume(None), FlagAddResult::WantsRead));
    assert!(matches!(add.resume(Some(&refused)), FlagAddResult::Done));

    let mut set = FlagSetRun::new(&session(), &auth(), &["e1"], &words).unwrap();
    let FlagSetResult::WantsWrite(out) = set.resume(None) else { panic!("expected a write") };
    assert!(String::from_utf8_lossy(&out).contains(r#""e1":{"keywords":{"$seen":true}}"#));
    assert!(matches!(set.resume(None), FlagSetResult::WantsRead));
    assert!(matches!(set.resume(Some(&refused)), FlagSetResult::Done));

    let mut delete = FlagDelete::new(&session(), &auth(), &["e1"], &words).unwrap();
    let FlagDeleteResult::WantsWrite(out) = delete.resume(None) else { panic!("expected a write") };
    assert!(String::from_utf8_lossy(&out).contains(r#""e1":{"keywords/$seen":null}"#));
    assert!(matches!(delete.resume(None), FlagDeleteResult::WantsRead));
    let error = methods(r#"["error",{"type":"stateMismatch"},"c0"]"#);
    assert!(matches!(delete.resume(Some(&error)), FlagDeleteResult::Failed(_)));
}

#[test]
fn messages_are_copied_and_moved() {
    let mut copy = JmapMessageCopy::new(&session(), &auth(), "from", "to", &["e1"]).unwrap();
    let (requests, result) = drive(|bytes| copy.resume(bytes), &[methods(SET_OK)]);
    assert!(result.is_ok());
    assert!(requests[0].contains(r#""e1":{"mailboxIds/to":true}"#));
    assert!(matches!(
        copy.resume(None),
        EmailCoroutineState::Complete(Err(JmapMessageCopyError::ResumedAfterDone))
    ));

    let mut run = JmapMessageMove::new(&session(), &auth(), "from", "to", &["e1"]).unwrap();
    let (requests, result) = drive(|bytes| run.resume(bytes), &[methods(SET_OK)]);
    assert!(result.is_ok());
    assert!(requests[0].contains(r#""e1":{"mailboxIds/from":null,"mailboxIds/to":true}"#));

    let mut copy = JmapMessageCopy::new(&session(), &auth(), "from", "to", &["e1"]).unwrap();
    let (_, result) = drive(
        |bytes| copy.resume(bytes),
        &[methods(
            r#"["Email/set",{"newState":"s2","notUpdated":{"e1":{"type":"notFound"}}},"c0"]"#,
        )],
    );
    assert!(matches!(result, Err(JmapMessageCopyError::NotUpdated(ids)) if ids == ["e1"]));
}

#[test]
fn a_message_is_deleted_or_not() {
    let mut run = JmapMessageDelete::new(&session(), &auth(), "mb", "e1").unwrap();
    let (requests, result) = drive(
        |bytes| run.resume(bytes),
        &[methods(r#"["Email/set",{"newState":"s2","destroyed":["e0","e1"]},"c0"]"#)],
    );
    assert!(requests[0].contains(r#""destroy":["e1"]"#));
    assert!(result.is_ok());
    let mut run = JmapMessageDelete::new(&session(), &auth(), "mb", "e1").unwrap();
    let (_, result) = drive(|bytes| run.resume(bytes), &[methods(SET_OK)]);
    assert!(matches!(result, Err(JmapMessageDeleteError::NotDestroyed(id)) if id == "e1"));
}

#[test]
fn a_mailbox_is_deleted_or_not() {
    let mut run = JmapMailboxDelete::new(&session(), &auth(), "m1").unwrap();
    let (requests, result) = drive(
        |bytes| run.resume(bytes),
        &[methods(r#"["Mailbox/set",{"newState":"s2","destroyed":["m1"]},"c0"]"#)],
    );
    assert!(requests[0].contains(r#""destroy":["m1"]"#));
    assert!(requests[0].contains(r#""onDestroyRemoveEmails":true"#));
    assert!(result.is_ok());
    assert!(matches!(
        run.resume(None),
        EmailCoroutineState::Complete(Err(JmapMailboxDeleteError::ResumedAfterDone))
    ));
    let mut run = JmapMailboxDelete::new(&session(), &auth(), "m1").unwrap();
    let (_, result) = drive(
        |bytes| run.resume(bytes),
        &[methods(r#"["Mailbox/set",{"newState":"s2"},"c0"]"#)],
    );
    assert!(matches!(result, Err(JmapMailboxDeleteError::NotDestroyed(id)) if id == "m1"));
}

#[test]
fn mailboxes_are_listed() {
    let reply = methods(
        r#"["Mailbox/query",{"queryState":"q","ids":["m1"]},"c0"],
           ["Mailbox/get",{"state":"s","notFound":[],"list":[
              {"id":"m1","name":"Inbox","totalEmails":3,"unreadEmails":1}]},"c1"]"#,
    );
    let mut list = JmapMailboxList::new(&session(), &auth(), true).unwrap();
    let (requests, result) = drive(|bytes| list.resume(bytes), &[reply]);
    assert!(requests[0].contains("totalEmails"));
    let mailboxes = result.unwrap();
    assert_eq!(mailboxes.len(), 1);
    assert_eq!((mailboxes[0].id.as_str(), mailboxes[0].name.as_str()), ("m1", "Inbox"));
    assert_eq!((mailboxes[0].total, mailboxes[0].unread), (Some(3), Some(1)));
    let mut list = JmapMailboxList::new(&session(), &auth(), false).unwrap();
    let EmailCoroutineState::Yielded(JmapStep::WantsWrite(out)) = list.resume(None) else {
        panic!("expected a write")
    };
    assert!(!String::from_utf8_lossy(&out).contains("totalEmails"));
}

fn uploaded() -> Vec<u8> {
    response(r#"{"accountId":"acc","blobId":"b1","type":"message/rfc822","size":3}"#)
}

const IMPORTED_NEW: &str =
    r#"["Email/import",{"newState":"s2","created":{"new":{"id":"e9"}}},"c0"]"#;

#[test]
fn a_message_is_added() {
    let flags = [Flag::from_iana(IanaFlag::Seen)];
    let mut add =
        JmapMessageAdd::new(&session(), &auth(), "mb", &flags, b"raw".to_vec()).unwrap();
    let (requests, result) =
        drive(|bytes| add.resume(bytes), &[uploaded(), methods(IMPORTED_NEW)]);
    assert_eq!(requests.len(), 2);
    assert!(requests[0].starts_with("POST /up/acc/ HTTP/1.1"));
    assert!(requests[0].to_lowercase().contains("content-type: message/rfc822"));
    assert!(requests[0].ends_with("raw"));
    assert!(requests[1].contains(r#""blobId":"b1""#));
    assert!(requests[1].contains(r#""mailboxIds":{"mb":true}"#));
    assert!(requests[1].contains(r#""keywords":{"$seen":true}"#));
    assert_eq!(result.unwrap(), "e9");
    assert!(matches!(
        add.resume(None),
        EmailCoroutineState::Complete(Err(JmapMessageAddError::ResumedAfterDone))
    ));

    let mut add = JmapMessageAdd::new(&session(), &auth(), "mb", &[], b"raw".to_vec()).unwrap();
    let (requests, result) = drive(
        |bytes| add.resume(bytes),
        &[uploaded(), methods(r#"["Email/import",{"newState":"s2","created":{}},"c0"]"#)],
    );
    assert!(!requests[1].contains("keywords"));
    assert!(matches!(result, Err(JmapMessageAddError::NotImported)));
}

#[test]
fn a_message_is_not_added() {
    let redirect =
        b"HTTP/1.1 301 Moved\r\nLocation: https://other.example.org/\r\nContent-Length: 0\r\n\r\n";
    let mut add = JmapMessageAdd::new(&session(), &auth(), "mb", &[], vec![]).unwrap();
    let (_, result) = drive(|bytes| add.resume(bytes), &[redirect.to_vec()]);
    assert!(matches!(result, Err(JmapMessageAddError::UnsupportedRedirect)));

    let denied = b"HTTP/1.1 403 Forbidden\r\nContent-Length: 0\r\n\r\n";
    let mut add = JmapMessageAdd::new(&session(), &auth(), "mb", &[], vec![]).unwrap();
    let (_, result) = drive(|bytes| add.resume(bytes), &[denied.to_vec()]);
    assert!(matches!(result, Err(JmapMessageAddError::BlobUpload(_))));

    let mut add = JmapMessageAdd::new(&session(), &auth(), "mb", &[], vec![]).unwrap();
    let (_, result) = drive(
        |bytes| add.resume(bytes),
        &[uploaded(), methods(r#"["error",{"type":"stateMismatch"},"c0"]"#)],
    );
    assert!(matches!(result, Err(JmapMessageAddError::Import(_))));

    let mut session = session();
    session.upload_url = "nowhere".into();
    assert!(matches!(
        JmapMessageAdd::new(&session, &auth(), "mb", &[], vec![]),
        Err(JmapMessageAddError::InvalidUploadUrl(text)) if text == "nowhere"
    ));
}

fn send(responses: &[Vec<u8>]) -> (Vec<String>, Result<(), JmapMessageSendError>) {
    let mut run =
        JmapMessageSend::new(&session(), &auth(), "id1", "drafts", b"raw".to_vec()).unwrap();
    let out = drive(|bytes| run.resume(bytes), responses);
    assert!(matches!(
        run.resume(None),
        EmailCoroutineState::Complete(Err(JmapMessageSendError::ResumedAfterDone))
    ));
    out
}

const IMPORTED: &str =
    r#"["Email/import",{"newState":"s2","created":{"outgoing":{"id":"e9"}}},"c0"]"#;

#[test]
fn a_message_is_sent() {
    let (requests, result) = send(&[
        uploaded(),
        methods(IMPORTED),
        methods(
            r#"["EmailSubmission/set",{"newState":"s3","created":{"outgoing":{"id":"x1"}}},"c0"]"#,
        ),
    ]);
    assert!(result.is_ok());
    assert_eq!(requests.len(), 3);
    assert!(requests[1].contains(r#""mailboxIds":{"drafts":true}"#));
    assert!(requests[1].contains(r#""keywords":{"$draft":true}"#));
    assert!(requests[2].contains(r#""identityId":"id1""#));
    assert!(requests[2].contains(r#""emailId":"e9""#));
}

#[test]
fn a_message_is_not_sent() {
    let (_, result) = send(&[
        uploaded(),
        methods(IMPORTED),
        methods(
            r#"["EmailSubmission/set",{"newState":"s3",
                "notCreated":{"outgoing":{"type":"forbidden"}}},"c0"]"#,
        ),
    ]);
    assert!(matches!(result, Err(JmapMessageSendError::NotSubmitted)));

    let (_, result) = send(&[
        uploaded(),
        methods(
            r#"["Email/import",{"newState":"s2","created":{"outgoing":{"id":"e9"}},
                "notCreated":{"outgoing":{"type":"invalidEmail"}}},"c0"]"#,
        ),
    ]);
    assert!(matches!(result, Err(JmapMessageSendError::NotImported)));

    let (_, result) = send(&[uploaded(), methods(IMPORTED_NEW)]);
    assert!(matches!(result, Err(JmapMessageSendError::NotImported)));

    let (_, result) = send(&[
        uploaded(),
        methods(r#"["Email/import",{"newState":"s2","created":{"outgoing":{}}},"c0"]"#),
    ]);
    assert!(matches!(result, Err(JmapMessageSendError::MissingImportedEmailId)));

    let (_, result) =
        send(&[uploaded(), methods(IMPORTED), methods(r#"["error",{"type":"forbidden"},"c0"]"#)]);
    assert!(matches!(result, Err(JmapMessageSendError::Submit(_))));

    let (_, result) = send(&[uploaded(), methods(r#"["error",{"type":"forbidden"},"c0"]"#)]);
    assert!(matches!(result, Err(JmapMessageSendError::Import(_))));

    let (_, result) = send(&[b"HTTP/1.1 500 Oops\r\nContent-Length: 0\r\n\r\n".to_vec()]);
    assert!(matches!(result, Err(JmapMessageSendError::BlobUpload(_))));
}

#[test]
fn a_message_is_fetched() {
    let found = methods(
        r#"["Email/get",{"state":"s","notFound":[],"list":[{"id":"e1","blobId":"b7"}]},"c0"]"#,
    );
    let blob = b"HTTP/1.1 200 OK\r\nContent-Length: 8\r\n\r\nraw mail".to_vec();
    let mut get = JmapMessageGet::new(&session(), &auth(), "mb", "e1").unwrap();
    let (requests, result) = drive(|bytes| get.resume(bytes), &[found.clone(), blob]);
    assert!(requests[0].contains(r#""ids":["e1"]"#));
    assert!(requests[0].contains(r#""properties":["blobId"]"#));
    assert!(requests[1].starts_with("GET /dl/acc/b7/message.eml?t=message%2Frfc822 HTTP/1.1"));
    assert_eq!(result.unwrap().bytes, b"raw mail");
    assert!(matches!(
        get.resume(None),
        EmailCoroutineState::Complete(Err(JmapMessageGetError::ResumedAfterDone))
    ));

    let run = |session: &JmapSession, replies: &[Vec<u8>]| {
        let mut get = JmapMessageGet::new(session, &auth(), "mb", "e1").unwrap();
        drive(|bytes| get.resume(bytes), replies).1
    };
    let none = methods(r#"["Email/get",{"state":"s","notFound":["e1"],"list":[]},"c0"]"#);
    assert!(matches!(run(&session(), &[none]), Err(JmapMessageGetError::EmailNotFound)));
    let bare = methods(r#"["Email/get",{"state":"s","notFound":[],"list":[{"id":"e1"}]},"c0"]"#);
    assert!(matches!(run(&session(), &[bare]), Err(JmapMessageGetError::MissingBlobId)));
    let error = methods(r#"["error",{"type":"forbidden"},"c0"]"#);
    assert!(matches!(run(&session(), &[error]), Err(JmapMessageGetError::EmailGet(_))));
    let redirect =
        b"HTTP/1.1 302 Found\r\nLocation: https://other.example.org/\r\nContent-Length: 0\r\n\r\n";
    assert!(matches!(
        run(&session(), &[found.clone(), redirect.to_vec()]),
        Err(JmapMessageGetError::UnsupportedRedirect)
    ));
    let gone = b"HTTP/1.1 404 Not Found\r\nContent-Length: 0\r\n\r\n";
    assert!(matches!(
        run(&session(), &[found.clone(), gone.to_vec()]),
        Err(JmapMessageGetError::BlobDownload(_))
    ));
    let mut broken = session();
    broken.download_url = "{blobId}".into();
    assert!(matches!(
        run(&broken, &[found]),
        Err(JmapMessageGetError::InvalidDownloadUrl(text)) if text == "b7"
    ));
}

#[test]
fn the_shared_driver_routes_jmap() {
    let mut run =
        JmapMessageSend::new(&session(), &auth(), "id1", "drafts", b"raw".to_vec()).unwrap();
    assert_eq!(<JmapMessageSend as EmailCoroutine>::BACKEND, EmailBackend::Jmap);
    assert!(matches!(
        EmailCoroutine::resume(&mut run, EmailCoroutineArg::Smtp { bytes: None }),
        EmailCoroutineState::Complete(Err(JmapMessageSendError::InvalidArg))
    ));
    assert!(matches!(
        EmailCoroutine::resume(&mut run, EmailCoroutineArg::Jmap { bytes: None }),
        EmailCoroutineState::Yielded(JmapStep::WantsWrite(_))
    ));
    let mut store =
        JmapFlagStore::new(&session(), &auth(), "mb", &["e1"], &[], FlagOp::Replace).unwrap();
    assert!(matches!(
        EmailCoroutine::resume(&mut store, EmailCoroutineArg::Fs { batch: None }),
        EmailCoroutineState::Complete(Err(JmapFlagStoreError::InvalidArg))
    ));
}

#[test]
fn the_mirror_follows_the_mailbox() {
    let mut shadow = MailboxShadow::new();
    let emails = vec![
        email("e1", &[("mb", true)], &["$seen"]),
        email("e2", &[("mb", true), ("other", true)], &[]),
        email("e3", &[("mb", false)], &[]),
    ];
    let events = shadow.apply_diff("mb", &emails, &vec![]);
    assert_eq!(events.len(), 2);
    assert!(shadow.contains("e1") && shadow.contains("e2") && !shadow.contains("e3"));

    let mut nameless = email("x", &[("mb", true)], &[]);
    nameless.id = None;
    let emails = vec![
        email("e1", &[("mb", true)], &["$flagged", "work"]),
        email("e2", &[("other", true)], &[]),
        nameless,
    ];
    let events = shadow.apply_diff("mb", &emails, &vec!["e1".into(), "e7".into()]);
    assert_eq!(events.len(), 4);
    assert!(matches!(&events[0], WatchEvent::FlagsAdded { id, flags, mailbox }
        if id == "e1" && mailbox == "mb" && raw_flags(flags) == ["\\Flagged", "work"]));
    assert!(matches!(&events[1], WatchEvent::FlagsRemoved { id, flags, .. }
        if id == "e1" && raw_flags(flags) == ["\\Seen"]));
    assert!(matches!(&events[2], WatchEvent::EnvelopeRemoved { id, .. } if id == "e2"));
    assert!(matches!(&events[3], WatchEvent::EnvelopeRemoved { id, .. } if id == "e1"));
    assert!(!shadow.contains("e1"));
}

fn chunked(state: &str) -> Vec<u8> {
    let data = format!(
        "event: state\ndata: {{\"@type\":\"StateChange\",\"changed\":{{\"acc\":{{\"Email\":\"{state}\"}}}}}}\n\n"
    );
    format!(
        "HTTP/1.1 200 OK\r\nTransfer-Encoding: chunked\r\nContent-Type: text/event-stream\r\n\r\n{:x}\r\n{data}\r\n0\r\n\r\n",
        data.len()
    )
    .into_bytes()
}

enum Seen {
    Write(String),
    Event(WatchEvent),
}

/// Runs a watch until it wants to read more than there is.
fn watch(run: &mut JmapWatchMailbox, responses: &[Vec<u8>]) -> Vec<Seen> {
    let mut seen = vec![];
    let mut replies = responses.iter();
    let mut bytes: Option<Vec<u8>> = None;
    loop {
        match run.resume(bytes.as_deref()) {
            EmailCoroutineState::Yielded(JmapWatchMailboxYield::WantsWrite(out)) => {
                seen.push(Seen::Write(String::from_utf8_lossy(&out).into_owned()));
                bytes = None;
            }
            EmailCoroutineState::Yielded(JmapWatchMailboxYield::Event(event)) => {
                seen.push(Seen::Event(event));
                bytes = None;
            }
            EmailCoroutineState::Yielded(JmapWatchMailboxYield::WantsRead) => {
                match replies.next() {
                    Some(reply) => bytes = Some(reply.clone()),
                    None => return seen,
                }
            }
            EmailCoroutineState::Complete(result) => panic!("completed: {result:?}"),
        }
    }
}

#[test]
fn a_watch_is_silent_first_and_then_tells() {
    let shutdown = Arc::new(AtomicBool::new(false));
    let mut run = JmapWatchMailbox::new(&session(), &auth(), "mb", shutdown.clone()).unwrap();
    let inventory = methods(
        r#"["Email/changes",{"accountId":"acc","oldState":"","newState":"s1","hasMoreChanges":false,
            "created":["e1"],"updated":[],"destroyed":[]},"c0"]"#,
    );
    let first = methods(
        r#"["Email/get",{"state":"s1","notFound":[],"list":[
            {"id":"e1","mailboxIds":{"mb":true},"keywords":{"$seen":true}}]},"c0"]"#,
    );
    let seen = watch(&mut run, &[chunked("s1"), inventory, first]);
    assert_eq!(seen.len(), 4);
    let writes: Vec<&String> = seen
        .iter()
        .filter_map(|s| match s {
            Seen::Write(text) => Some(text),
            Seen::Event(_) => None,
        })
        .collect();
    assert_eq!(writes.len(), 4);
    assert!(writes[0].starts_with("GET /events?types=Email&closeafter=state&ping=30 HTTP/1.1"));
    assert!(writes[1].contains(r#""sinceState":"""#));
    assert!(writes[2].contains(r#""ids":["e1"]"#) && writes[2].contains("mailboxIds"));
    assert_eq!(writes[0], writes[3]);

    let seen = watch(&mut run, &[chunked("s1")]);
    assert!(matches!(seen[0], Seen::Event(WatchEvent::KeepAlive)));
    assert!(matches!(seen[1], Seen::Write(_)));
    assert_eq!(seen.len(), 2);

    let changes = methods(
        r#"["Email/changes",{"accountId":"acc","oldState":"s1","newState":"s2","hasMoreChanges":false,
            "created":["e2"],"updated":["e1"],"destroyed":["e0"]},"c0"]"#,
    );
    let emails = methods(
        r#"["Email/get",{"state":"s2","notFound":[],"list":[
            {"id":"e2","mailboxIds":{"mb":true},"keywords":{}},
            {"id":"e1","mailboxIds":{"mb":true},"keywords":{}}]},"c0"]"#,
    );
    let seen = watch(&mut run, &[chunked("s2"), changes, emails]);
    assert!(matches!(&seen[0], Seen::Write(text) if text.contains(r#""sinceState":"s1""#)));
    assert!(matches!(&seen[1], Seen::Write(text) if text.contains(r#""ids":["e2","e1"]"#)));
    assert!(matches!(&seen[2], Seen::Event(WatchEvent::EnvelopeAdded { envelope, mailbox })
        if envelope.id == "e2" && mailbox == "mb"));
    assert!(matches!(&seen[3], Seen::Event(WatchEvent::FlagsRemoved { id, .. }) if id == "e1"));
    assert!(matches!(seen[4], Seen::Write(_)));
    assert_eq!(seen.len(), 5);

    shutdown.store(true, Ordering::SeqCst);
    assert!(matches!(run.resume(None), EmailCoroutineState::Complete(Ok(()))));
    shutdown.store(false, Ordering::SeqCst);
    assert!(matches!(run.resume(None), EmailCoroutineState::Complete(Ok(()))));
}

#[test]
fn a_watch_fails_with_its_channel() {
    let shutdown = Arc::new(AtomicBool::new(false));
    let mut run = JmapWatchMailbox::new(&session(), &auth(), "mb", shutdown).unwrap();
    assert!(matches!(run.advance(false, None), EmailCoroutineState::Yielded(_)));
    assert!(matches!(run.advance(false, None), EmailCoroutineState::Yielded(_)));
    let denied = b"HTTP/1.1 401 Unauthorized\r\nContent-Length: 0\r\n\r\n";
    assert!(matches!(run.advance(false, Some(denied)), EmailCoroutineState::Complete(Err(_))));
    assert!(matches!(run.advance(false, None), EmailCoroutineState::Complete(Ok(()))));

    let mut broken = session();
    broken.event_source_url = "nowhere".into();
    let shutdown = Arc::new(AtomicBool::new(false));
    assert!(JmapWatchMailbox::new(&broken, &auth(), "mb", shutdown).is_err());
}

#[test]
fn an_open_channel_is_watched_push_by_push() {
    let shadow = seed_shadow(&vec![
        email("e2", &[("mb", true)], &["$seen"]),
        email("e1", &[("mb", true)], &[]),
        email("e3", &[("mb", true)], &[]),
    ]);
    assert_eq!(shadow.ids(), ["e1", "e2", "e3"]);
    let mut watch = JmapWatch::new("mb", shadow, "s1".into());
    assert_eq!(watch.since(), "s1");
    assert_eq!(watch.on_data(""), FrameAction::KeepAlive);
    assert_eq!(watch.on_data("nonsense"), FrameAction::Skip);
    assert_eq!(
        watch.on_data(r#"{"@type":"StateChange","changed":{"a":{"Mailbox":"x"}}}"#),
        FrameAction::Skip
    );
    assert_eq!(
        watch.on_data(r#"{"@type":"StateChange","changed":{"a":{"Email":"s1"}}}"#),
        FrameAction::Skip
    );
    assert_eq!(
        watch.on_data(r#"{"@type":"StateChange","changed":{"a":{"Mailbox":"x"},"b":{"Email":"s2"}}}"#),
        FrameAction::Refresh
    );
    assert_eq!(watch.on_change(&StateChange { changed: vec![] }), FrameAction::KeepAlive);

    let changes = ChangesOutput {
        new_state: "s2".into(),
        created: vec!["e4".into()],
        updated: vec!["e2".into(), "e3".into()],
        destroyed: vec!["e1".into(), "e3".into()],
    };
    assert_eq!(touched(&changes), ["e4", "e2", "e3"]);
    let emails = vec![
        email("e4", &[("mb", false)], &[]),
        email("e2", &[("mb", true)], &["$flagged"]),
        email("e3", &[("other", true)], &[]),
    ];
    assert!(email_is_in_mailbox(&emails[0], "mb"));
    assert!(!email_is_in_mailbox(&emails[2], "mb"));
    let events = watch.refresh(&changes, &emails);
    assert_eq!(events.len(), 5);
    assert!(
        matches!(&events[0], WatchEvent::EnvelopeAdded { envelope, .. } if envelope.id == "e4")
    );
    assert!(matches!(&events[1], WatchEvent::FlagsAdded { id, .. } if id == "e2"));
    assert!(matches!(&events[2], WatchEvent::FlagsRemoved { id, .. } if id == "e2"));
    assert!(matches!(&events[3], WatchEvent::EnvelopeRemoved { id, .. } if id == "e3"));
    assert!(matches!(&events[4], WatchEvent::EnvelopeRemoved { id, .. } if id == "e1"));
    assert_eq!(watch.since(), "s2");

    let gone = vec![email("e2", &[("other", true)], &["$flagged"])];
    let changes = ChangesOutput {
        new_state: "s3".into(),
        created: vec![],
        updated: vec!["e2".into()],
        destroyed: vec![],
    };
    let events = watch.refresh(&changes, &gone);
    assert_eq!(events.len(), 1);
    assert!(matches!(&events[0], WatchEvent::EnvelopeRemoved { id, mailbox }
        if id == "e2" && mailbox == "mb"));
    assert!(watch.refresh(&changes, &gone).is_empty());
    assert!(mailbox_filter("").is_none());
    assert!(mailbox_filter("mb").is_some());
}

#[test]
fn an_open_channel_is_opened_at_its_target() {
    let target = event_target(&session(), &["Email"], 10).unwrap();
    assert_eq!(
        target.url.as_str(),
        "https://push.example.org:8443/events?types=Email&closeafter=no&ping=10"
    );
    assert_eq!((target.host.as_str(), target.port), ("push.example.org", 8443));
    let mut other = session();
    other.event_source_url = "https://push.example.org/e".into();
    assert_eq!(event_target(&other, &["Email"], 10).unwrap().port, 443);
    other.event_source_url = "https://push.example.org/e?k=v".into();
    assert_eq!(
        event_target(&other, &["Email", "Mailbox"], 0).unwrap().url.as_str(),
        "https://push.example.org/e?k=v&types=Email,Mailbox&closeafter=no&ping=0"
    );
    other.event_source_url = "nowhere".into();
    assert!(event_target(&other, &["Email"], 10).is_err());
    other.event_source_url = "data:x".into();
    assert!(matches!(event_target(&other, &[], 10), Err(text) if text.starts_with("data:x")));
}
