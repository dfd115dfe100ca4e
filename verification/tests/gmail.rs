use io_email::coroutine::{EmailCoroutineState, GmailStep};
use io_email::event::WatchEvent;
use io_email::flag::types::{Flag, FlagOp, FlagSet, IanaFlag};
use io_email::gmail::convert::{
    envelope_from, flag_of_label, flags_from_labels, include_spam_trash, label_of, label_patch,
    parse_address, parse_addresses, GmailMetadata,
};
use io_email::gmail::envelope_list::{GmailEnvelopeList, GmailEnvelopeListError};
use io_email::gmail::flag_store::{GmailFlagStore, GmailFlagStoreError};
use io_email::gmail::watch::{
    history_diff_to_events, round_events, sleep_step, HistoryDiff, LabelChange, SleepStep,
};
use io_email::http::HttpFault;
use io_gmail::v1::history_poll::GmailHistoryDiff;
use io_http::rfc6750::bearer::HttpAuthBearer;

fn strings(list: &[&str]) -> Vec<String> {
    list.iter().map(|text| text.to_string()).collect()
}

fn raw_flags(flags: &FlagSet) -> Vec<String> {
    flags.as_vec().iter().map(|flag| flag.raw().to_string()).collect()
}

fn metadata(id: &str, labels: &[&str], headers: &[(&str, &str)]) -> GmailMetadata {
    GmailMetadata {
        id: id.into(),
        label_ids: strings(labels),
        size_estimate: Some(42),
        headers: Some(headers.iter().map(|(n, v)| (n.to_string(), v.to_string())).collect()),
    }
}

fn response(body: &str) -> Vec<u8> {
    format!(
        "HTTP/1.1 200 OK\r\nContent-Type: application/json\r\nContent-Length: {}\r\n\r\n{body}",
        body.len()
    )
    .into_bytes()
}

/// Runs a coroutine against canned responses, one for each request; gives
/// the first lines of the requests and what the coroutine completed with.
fn drive<R>(
    mut resume: impl FnMut(Option<&[u8]>) -> EmailCoroutineState<GmailStep, R>,
    responses: &[Vec<u8>],
) -> (Vec<String>, R) {
    let mut requests = vec![];
    let mut replies = responses.iter();
    let mut bytes: Option<Vec<u8>> = None;
    loop {
        match resume(bytes.as_deref()) {
            EmailCoroutineState::Complete(result) => return (requests, result),
            EmailCoroutineState::Yielded(GmailStep::WantsWrite(out)) => {
                requests.push(String::from_utf8_lossy(&out).into_owned());
                bytes = None;
            }
            EmailCoroutineState::Yielded(GmailStep::WantsRead) => {
                bytes = Some(replies.next().cloned().unwrap_or_default());
            }
        }
    }
}

#[test]
fn hidden_labels_are_asked_for() {
    assert!(include_spam_trash("SPAM"));
    assert!(include_spam_trash("TRASH"));
    assert!(!include_spam_trash("INBOX"));
    assert!(!include_spam_trash("spam"));
}

#[test]
fn labels_become_flags() {
    let flags = flags_from_labels(&strings(&["UNREAD", "STARRED", "INBOX"]));
    assert_eq!(raw_flags(&flags), ["\\Flagged"]);
    let flags = flags_from_labels(&strings(&["IMPORTANT", "DRAFT", "SPAM"]));
    assert_eq!(raw_flags(&flags), ["$Important", "$Junk", "\\Draft", "\\Seen"]);
}

#[test]
fn labels_and_flags_translate_back_and_forth() {
    for label in ["UNREAD", "STARRED", "IMPORTANT", "DRAFT", "SPAM"] {
        let (flag, inverted) = flag_of_label(label).unwrap();
        assert_eq!(label_of(&flag), Some((label.to_string(), inverted)));
        assert_eq!(inverted, label == "UNREAD");
    }
    assert!(flag_of_label("INBOX").is_none());
    assert_eq!(label_of(&Flag::from_iana(IanaFlag::Answered)), None);
    assert_eq!(label_of(&Flag::from_raw("Label_7")), Some(("Label_7".to_string(), false)));
}

#[test]
fn patches_invert_seen() {
    let flags = [
        Flag::from_iana(IanaFlag::Seen),
        Flag::from_iana(IanaFlag::Flagged),
        Flag::from_iana(IanaFlag::Answered),
        Flag::from_raw("Work"),
    ];
    let (add, remove) = label_patch(&flags, FlagOp::Add);
    assert_eq!(add, ["STARRED", "Work"]);
    assert_eq!(remove, ["UNREAD"]);
    let (add, remove) = label_patch(&flags, FlagOp::Remove);
    assert_eq!(add, ["UNREAD"]);
    assert_eq!(remove, ["STARRED", "Work"]);
    let (add, remove) = label_patch(&flags, FlagOp::Replace);
    assert_eq!(add, ["STARRED", "Work"]);
    assert_eq!(remove, ["UNREAD", "IMPORTANT", "DRAFT", "SPAM"]);
    let (add, remove) = label_patch(&[], FlagOp::Replace);
    assert_eq!(add, ["UNREAD"]);
    assert_eq!(remove, ["STARRED", "IMPORTANT", "DRAFT", "SPAM"]);
}

#[test]
fn replacing_settles_the_flags_whatever_the_labels() {
    let flags = [Flag::from_iana(IanaFlag::Seen), Flag::from_raw("Work"), Flag::from_raw("Home")];
    let (add, remove) = label_patch(&flags, FlagOp::Replace);
    assert!(add.iter().all(|label| !remove.contains(label)));
    for before in [&[][..], &["UNREAD", "STARRED", "INBOX"], &["SPAM", "Work"]] {
        let mut after = strings(before);
        after.retain(|label| !remove.contains(label));
        after.extend(add.iter().cloned());
        assert_eq!(raw_flags(&flags_from_labels(&after)), ["\\Seen"]);
        assert!(after.contains(&"Work".to_string()) && after.contains(&"Home".to_string()));
    }
}

#[test]
fn a_wait_is_cut_into_seconds() {
    let second = 1_000_000_000;
    assert_eq!(sleep_step(0, 2 * second + 5, false), SleepStep::Sleep(second));
    assert_eq!(sleep_step(second, 2 * second + 5, false), SleepStep::Sleep(second));
    assert_eq!(sleep_step(2 * second, 2 * second + 5, false), SleepStep::Sleep(5));
    assert_eq!(sleep_step(2 * second + 5, 2 * second + 5, true), SleepStep::Over);
    assert_eq!(sleep_step(0, second, true), SleepStep::Stop);
    assert_eq!(sleep_step(0, 0, false), SleepStep::Over);
}

#[test]
fn addresses_are_parsed() {
    let address = parse_address("\"Doe, J\" <j@example.org>");
    assert_eq!(address.name.as_deref(), Some("Doe, J"));
    assert_eq!(address.email, "j@example.org");
    let address = parse_address("< j@example.org >");
    assert_eq!(address.name, None);
    assert_eq!(address.email, "j@example.org");
    let address = parse_address("j@example.org");
    assert_eq!((address.name, address.email.as_str()), (None, "j@example.org"));
    let address = parse_address("broken <j@example.org");
    assert_eq!(address.email, "broken <j@example.org");
    let list = parse_addresses(" a@x , , B <b@y>,");
    assert_eq!(list.len(), 2);
    assert_eq!(list[0].email, "a@x");
    assert_eq!(list[1].name.as_deref(), Some("B"));
    assert!(parse_addresses("").is_empty());
}

#[test]
fn metadata_becomes_an_envelope() {
    let envelope = envelope_from(&metadata(
        "m1",
        &["INBOX", "UNREAD"],
        &[
            ("subject", "Hello"),
            ("FROM", "Alice <a@x>"),
            ("To", "b@y, c@z"),
            ("Date", "Thu, 15 Jan 2026 10:00:00 +0000"),
            ("Message-Id", "<id@x>"),
            ("Subject", "second"),
        ],
    ));
    assert_eq!(envelope.id, "m1");
    assert_eq!(envelope.subject, "Hello");
    assert_eq!(envelope.from[0].name.as_deref(), Some("Alice"));
    assert_eq!(envelope.to.len(), 2);
    assert_eq!(envelope.date.unwrap().seconds, 1_768_471_200);
    assert_eq!(envelope.message_id.as_deref(), Some("id@x"));
    assert_eq!(envelope.size, 42);
    assert!(envelope.flags.is_empty());
    assert_eq!(envelope.has_attachment, None);

    let bare = GmailMetadata {
        id: "m2".into(),
        label_ids: vec![],
        size_estimate: None,
        headers: None,
    };
    let envelope = envelope_from(&bare);
    assert_eq!((envelope.subject.as_str(), envelope.size), ("", 0));
    assert!(envelope.from.is_empty() && envelope.date.is_none());
}

#[test]
fn history_becomes_events() {
    let diff = HistoryDiff {
        added: vec![metadata("new", &["STARRED"], &[])],
        removed: strings(&["gone", "new"]),
        labels_added: vec![
            LabelChange { id: "new".into(), label_ids: strings(&["SPAM"]) },
            LabelChange { id: "old".into(), label_ids: strings(&["UNREAD", "STARRED", "INBOX"]) },
        ],
        labels_removed: vec![LabelChange { id: "old".into(), label_ids: strings(&["UNREAD"]) }],
    };
    let events = history_diff_to_events(&diff, "INBOX");
    assert_eq!(events.len(), 5);
    assert!(
        matches!(&events[0], WatchEvent::EnvelopeAdded { envelope, .. } if envelope.id == "new")
    );
    assert!(matches!(&events[1], WatchEvent::EnvelopeRemoved { id, .. } if id == "gone"));
    assert!(matches!(&events[2], WatchEvent::FlagsAdded { id, flags, .. }
        if id == "old" && raw_flags(flags) == ["\\Flagged"]));
    assert!(matches!(&events[3], WatchEvent::FlagsRemoved { id, flags, .. }
        if id == "old" && raw_flags(flags) == ["\\Seen"]));
    assert!(matches!(&events[4], WatchEvent::FlagsAdded { id, flags, .. }
        if id == "old" && raw_flags(flags) == ["\\Seen"]));
}

#[test]
fn a_round_without_changes_is_a_sign_of_life() {
    let events = round_events(GmailHistoryDiff::default(), "INBOX");
    assert!(matches!(events.as_slice(), [WatchEvent::KeepAlive]));
    let mut diff = GmailHistoryDiff::default();
    diff.removed.push(io_gmail::v1::rest::messages::GmailMessageId {
        id: "m1".into(),
        thread_id: None,
    });
    diff.added.push(io_gmail::v1::rest::messages::GmailMessage {
        id: "m2".into(),
        label_ids: strings(&["UNREAD", "DRAFT"]),
        ..Default::default()
    });
    let events = round_events(diff, "INBOX");
    assert_eq!(events.len(), 2);
    assert!(matches!(&events[0], WatchEvent::EnvelopeAdded { envelope, mailbox }
        if envelope.id == "m2" && mailbox == "INBOX" && raw_flags(&envelope.flags) == ["\\Draft"]));
    assert!(matches!(&events[1], WatchEvent::EnvelopeRemoved { id, .. } if id == "m1"));
}

#[test]
fn listing_walks_to_its_page() {
    let auth = HttpAuthBearer::new("token");
    let mut list = GmailEnvelopeList::new(&auth, "me", "SPAM", Some(2), Some(1)).unwrap();
    let (requests, result) = drive(
        |bytes| list.resume(bytes),
        &[
            response(r#"{"messages":[{"id":"m1"}],"nextPageToken":"p2"}"#),
            response(r#"{"messages":[{"id":"m2"},{"id":"m3"}]}"#),
            response(
                r#"{"id":"m2","labelIds":["SPAM"],"sizeEstimate":7,
                    "payload":{"headers":[{"name":"Subject","value":"two"}]}}"#,
            ),
            response(r#"{"id":"m3","labelIds":["UNREAD"]}"#),
        ],
    );
    let envelopes = result.unwrap();
    assert_eq!(requests.len(), 4);
    assert!(requests[0].starts_with("GET /gmail/v1/users/me/messages?"));
    assert!(requests[0].contains("labelIds=SPAM"));
    assert!(requests[0].contains("maxResults=1"));
    assert!(requests[0].contains("includeSpamTrash=true"));
    assert!(requests[0].contains("Bearer token"));
    assert!(!requests[0].contains("pageToken"));
    assert!(requests[1].contains("pageToken=p2"));
    assert!(requests[2].starts_with("GET /gmail/v1/users/me/messages/m2?"));
    assert!(requests[3].starts_with("GET /gmail/v1/users/me/messages/m3?"));
    assert_eq!(envelopes.len(), 2);
    assert_eq!((envelopes[0].id.as_str(), envelopes[0].subject.as_str()), ("m2", "two"));
    assert_eq!(raw_flags(&envelopes[0].flags), ["$Junk", "\\Seen"]);
    assert_eq!(envelopes[0].size, 7);
    assert_eq!(envelopes[1].id, "m3");
    assert!(matches!(
        list.resume(None),
        EmailCoroutineState::Complete(Err(GmailEnvelopeListError::ResumedAfterDone))
    ));
}

#[test]
fn listing_past_the_last_page_is_empty() {
    let auth = HttpAuthBearer::new("token");
    let mut list = GmailEnvelopeList::new(&auth, "me", "INBOX", Some(3), None).unwrap();
    let (requests, result) =
        drive(|bytes| list.resume(bytes), &[response(r#"{"messages":[{"id":"m1"}]}"#)]);
    assert_eq!(requests.len(), 1);
    assert!(!requests[0].contains("includeSpamTrash"));
    assert!(result.unwrap().is_empty());
}

#[test]
fn listing_reports_the_server_error() {
    let auth = HttpAuthBearer::new("token");
    let mut list = GmailEnvelopeList::new(&auth, "me", "INBOX", None, None).unwrap();
    let body = r#"{"error":{"code":403,"message":"no"}}"#;
    let reply = format!("HTTP/1.1 403 Forbidden\r\nContent-Length: {}\r\n\r\n{body}", body.len());
    let (_, result) = drive(|bytes| list.resume(bytes), &[reply.into_bytes()]);
    assert!(matches!(
        result,
        Err(GmailEnvelopeListError::Send(HttpFault::Exchange(err))) if err.status() == Some(403)
    ));
}

#[test]
fn listing_refuses_a_chunk_that_leaves_no_room() {
    let auth = HttpAuthBearer::new("token");
    let mut list = GmailEnvelopeList::new(&auth, "me", "INBOX", None, None).unwrap();
    let reply = format!(
        "HTTP/1.1 200 OK\r\nTransfer-Encoding: chunked\r\n\r\n{:x}\r\n",
        usize::MAX - 1
    );
    let (_, result) = drive(|bytes| list.resume(bytes), &[reply.into_bytes()]);
    assert!(matches!(result, Err(GmailEnvelopeListError::Send(HttpFault::ChunkSize))));
}

#[test]
fn store_modifies_each_message() {
    let auth = HttpAuthBearer::new("token");
    let flags = [Flag::from_iana(IanaFlag::Seen)];
    let mut store =
        GmailFlagStore::new(&auth, "me", "INBOX", &["m1", "m2"], &flags, FlagOp::Add).unwrap();
    let (requests, result) = drive(
        |bytes| store.resume(bytes),
        &[response(r#"{"id":"m1"}"#), response(r#"{"id":"m2"}"#)],
    );
    assert!(result.is_ok());
    assert_eq!(requests.len(), 2);
    assert!(requests[0].starts_with("POST /gmail/v1/users/me/messages/m1/modify"));
    assert!(requests[1].starts_with("POST /gmail/v1/users/me/messages/m2/modify"));
    assert!(requests[0].contains(r#"{"addLabelIds":[],"removeLabelIds":["UNREAD"]}"#));
    assert!(matches!(
        store.resume(None),
        EmailCoroutineState::Complete(Err(GmailFlagStoreError::ResumedAfterDone))
    ));
}

#[test]
fn store_without_labels_does_nothing() {
    let auth = HttpAuthBearer::new("token");
    let flags = [Flag::from_iana(IanaFlag::Answered)];
    let mut store =
        GmailFlagStore::new(&auth, "me", "INBOX", &["m1"], &flags, FlagOp::Add).unwrap();
    assert!(matches!(store.resume(None), EmailCoroutineState::Complete(Ok(()))));
    let mut store = GmailFlagStore::new(&auth, "me", "INBOX", &[], &[], FlagOp::Replace).unwrap();
    assert!(matches!(store.resume(None), EmailCoroutineState::Complete(Ok(()))));
}
