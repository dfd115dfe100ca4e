use std::sync::atomic::AtomicBool;
use std::sync::Arc;

use io_email::coroutine::{
    EmailBackend, EmailCoroutine, EmailCoroutineArg, EmailCoroutineState, ImapStep,
};
use io_email::date::Date;
use io_email::envelope::{Envelope, EnvelopeDiff};
use io_email::event::WatchEvent;
use io_email::flag::types::{Flag, FlagOp, FlagSet, IanaFlag};
use io_email::imap::convert::{parse_mailbox, parse_uids, sanitise_atom, InvalidUidSet};
use io_email::imap::envelope_diff::{
    new_message_window, BaselineData, DiffAction, DiffEvent, ImapDiff, ImapState, QresyncData,
};
use io_email::imap::envelope_list::{compute_window, ImapEnvelopeList, ImapEnvelopeListError};
use io_email::imap::envelope_search::{ImapEnvelopeSearch, ImapEnvelopeSearchError};
use io_email::imap::fetch::{
    address_from, body_structure_has_attachment, decode_mime_bytes, envelope_from, FetchItem,
    FetchRow,
};
use io_email::imap::flag_add::{FlagAdd, FlagAddError, FlagAddResult};
use io_email::imap::flag_store::{ImapFlagStore, ImapFlagStoreError};
use io_email::imap::mailbox_create::{ImapMailboxCreate, ImapMailboxCreateError};
use io_email::imap::mailbox_delete::{ImapMailboxDelete, ImapMailboxDeleteError};
use io_email::imap::mailbox_list::ImapMailboxList;
use io_email::imap::message_add::{ImapMessageAdd, ImapMessageAddError};
use io_email::imap::message_copy::{ImapMessageCopy, ImapMessageCopyError};
use io_email::imap::message_delete::{ImapMessageDelete, ImapMessageDeleteError};
use io_email::imap::message_get::{ImapMessageGet, ImapMessageGetError};
use io_email::imap::message_move::{ImapMessageMove, ImapMessageMoveError};
use io_email::imap::search_key::{convert_filter, InvalidFilter};
use io_email::imap::watch::{IdleAction, IdleEvent, IdleRound, ImapWatch, WatchAction};
use io_email::imap::watch_mailbox::{translate_event, Delta, ImapWatchMailbox, ImapWatchMailboxError};
use io_email::imap::wire::{BodyPart, FetchFlag, WireAddress};
use io_email::search::{
    SearchEmailsFilterQuery, SearchEmailsQuery, SearchEmailsSorter, SearchEmailsSorterKind,
    SearchEmailsSorterOrder,
};
use io_imap::codec::fragmentizer::Fragmentizer;

const SELECTED: &str = "* 3 EXISTS\r\n* 0 RECENT\r\n* FLAGS (\\Seen)\r\n* OK [UIDVALIDITY 7] ok\r\n{tag} OK [READ-WRITE] selected\r\n";

fn fragmentizer() -> Fragmentizer {
    Fragmentizer::new(1024 * 1024)
}

/// Runs a coroutine against canned responses, one for each read; `{tag}` in
/// a response stands for the tag of the last command. Gives the commands
/// without their tags, and what the coroutine completed with.
fn drive<R>(
    mut resume: impl FnMut(&mut Fragmentizer, Option<&[u8]>) -> EmailCoroutineState<ImapStep, R>,
    responses: &[&str],
) -> (Vec<String>, R) {
    let mut fragmentizer = fragmentizer();
    let mut commands: Vec<String> = vec![];
    let mut tag = String::new();
    let mut literal = false;
    let mut replies = responses.iter();
    let mut bytes: Option<Vec<u8>> = None;
    loop {
        match resume(&mut fragmentizer, bytes.as_deref()) {
            EmailCoroutineState::Complete(result) => return (commands, result),
            EmailCoroutineState::Yielded(ImapStep::WantsWrite(out)) => {
                let text = String::from_utf8_lossy(&out).into_owned();
                match text.split_once(' ') {
                    Some((head, rest)) if !literal => {
                        tag = head.to_string();
                        commands.push(rest.trim_end().to_string());
                    }
                    _ => commands.push(text),
                }
                bytes = None;
            }
            EmailCoroutineState::Yielded(ImapStep::WantsRead) => {
                let reply = replies.next().expect("no reply left");
                literal = reply.starts_with('+');
                bytes = Some(reply.replace("{tag}", &tag).into_bytes());
            }
        }
    }
}

fn raw_flags(flags: &FlagSet) -> Vec<String> {
    flags.as_vec().iter().map(|flag| flag.raw().to_string()).collect()
}

fn ids(envelopes: &[Envelope]) -> Vec<&str> {
    envelopes.iter().map(|envelope| envelope.id.as_str()).collect()
}

fn row(seq: u32, uid: u32, flags: &[&str]) -> FetchRow {
    FetchRow {
        seq,
        items: vec![
            FetchItem::Uid(uid),
            FetchItem::Flags(flags.iter().map(|flag| FetchFlag::Flag(flag.to_string())).collect()),
        ],
    }
}

#[test]
fn mailboxes_and_uids_are_parsed() {
    assert_eq!(parse_mailbox("Archive").unwrap().as_str(), "Archive");
    assert_eq!(parse_mailbox("a\0b").unwrap_err().0, "a\0b");
    assert_eq!(parse_uids(&["1", "42"]).unwrap().as_vec().as_slice(), [1, 42]);
    assert!(matches!(parse_uids(&[]), Err(InvalidUidSet::Empty)));
    assert!(matches!(parse_uids(&["1", "x", "y"]), Err(InvalidUidSet::Invalid(id)) if id == "x"));
    assert!(matches!(parse_uids(&["0"]), Err(InvalidUidSet::Invalid(id)) if id == "0"));
    assert!(matches!(parse_uids(&["4294967296"]), Err(InvalidUidSet::Invalid(_))));
    assert_eq!(sanitise_atom("a (b)"), "a__b_");
}

#[test]
fn windows_cover_the_newest_first() {
    assert_eq!(compute_window(10, Some(1), Some(3)).as_deref(), Some("8:10"));
    assert_eq!(compute_window(10, Some(2), Some(3)).as_deref(), Some("5:7"));
    assert_eq!(compute_window(10, Some(4), Some(3)).as_deref(), Some("1:1"));
    assert_eq!(compute_window(10, Some(5), Some(3)), None);
    assert_eq!(compute_window(0, None, None), None);
    assert_eq!(compute_window(10, None, None).as_deref(), Some("1:*"));
    assert_eq!(new_message_window(5).as_deref(), Some("6:*"));
    assert_eq!(new_message_window(u32::MAX), None);
}

#[test]
fn headers_are_decoded() {
    assert_eq!(decode_mime_bytes(b"=?utf-8?q?caf=C3=A9?="), "caf\u{e9}");
    assert_eq!(decode_mime_bytes(b"plain"), "plain");
    let address = address_from(&WireAddress {
        name: Some(b"=?utf-8?q?J=C3=A9?=".to_vec()),
        mailbox: Some(b"je".to_vec()),
        host: Some(b"example.org".to_vec()),
    });
    assert_eq!(address.name.as_deref(), Some("J\u{e9}"));
    assert_eq!(address.email, "je@example.org");
}

#[test]
fn attachments_are_found_at_any_depth() {
    let part = |disposition: Option<&str>| BodyPart::Single {
        disposition: disposition.map(|text| text.as_bytes().to_vec()),
    };
    assert!(!body_structure_has_attachment(&part(None)));
    assert!(!body_structure_has_attachment(&part(Some("inline"))));
    assert!(body_structure_has_attachment(&part(Some("ATTACHMENT"))));
    assert!(body_structure_has_attachment(&BodyPart::Multi {
        parts: vec![
            part(None),
            BodyPart::Multi { parts: vec![part(None), part(Some("attachment"))] },
        ],
    }));
}

#[test]
fn fetched_items_become_an_envelope() {
    let envelope = envelope_from(
        4,
        &vec![
            FetchItem::Rfc822Size(12),
            FetchItem::Flags(vec![FetchFlag::Recent, FetchFlag::Flag("\\Seen".into())]),
            FetchItem::Other,
        ],
    );
    assert_eq!(envelope.id, "4");
    assert_eq!(envelope.size, 12);
    assert_eq!(raw_flags(&envelope.flags), ["\\Seen"]);
    assert_eq!(envelope_from(4, &vec![FetchItem::Uid(9)]).id, "9");
}

#[test]
fn checkpoints_round_trip() {
    let state = ImapState { uid_validity: 7, highest_mod_seq: 0x0102_0304_0506, highest_uid: 9 };
    let bytes = state.encode();
    assert_eq!(bytes, [7, 0, 0, 0, 6, 5, 4, 3, 2, 1, 0, 0, 9, 0, 0, 0]);
    assert_eq!(ImapState::decode(&bytes), Some(state));
    assert_eq!(ImapState::decode(&bytes[..15]), None);
    assert_eq!(ImapState::decode(&[]), None);
}

#[test]
fn a_diff_tells_what_changed() {
    let cached = ImapState { uid_validity: 7, highest_mod_seq: 50, highest_uid: 10 };
    let bytes = cached.encode();
    let (diff, action) = ImapDiff::start(true, Some(&bytes));
    assert!(matches!(
        action,
        DiffAction::SelectQresync { uid_validity: 7, highest_mod_seq: 50 }
    ));
    let data = QresyncData {
        uid_validity: Some(7),
        highest_mod_seq: Some(60),
        changed: vec![row(3, 3, &["\\Flagged"]), row(9, 12, &[]), row(4, 5, &[])],
        vanished: vec![2, 5],
    };
    let (diff, action) = diff.step(DiffEvent::Resynced(Some(data))).unwrap();
    assert!(matches!(&action, DiffAction::FetchNew { window } if window == "11:*"));
    let rows = vec![row(8, 10, &[]), row(9, 12, &["\\Seen"])];
    let (diff, action) = diff.step(DiffEvent::Fetched(rows)).unwrap();
    let DiffAction::Finish(EnvelopeDiff::Incremental {
        new_state,
        flag_updates,
        new_envelopes,
        vanished_ids,
    }) = action
    else {
        panic!("expected an incremental diff")
    };
    assert_eq!(ids(&new_envelopes), ["12"]);
    assert_eq!(vanished_ids, ["2", "5"]);
    assert_eq!(flag_updates.len(), 1);
    assert_eq!(flag_updates[0].id, "3");
    assert_eq!(raw_flags(&flag_updates[0].flags), ["\\Flagged"]);
    assert_eq!(
        ImapState::decode(&new_state),
        Some(ImapState { uid_validity: 7, highest_mod_seq: 60, highest_uid: 12 })
    );
    assert!(diff.step(DiffEvent::Resynced(None)).is_err());
}

#[test]
fn a_first_diff_takes_a_baseline() {
    let (_, action) = ImapDiff::start(false, None);
    assert!(matches!(
        action,
        DiffAction::Finish(EnvelopeDiff::FullListRequired { new_state: None })
    ));
    let (diff, action) = ImapDiff::start(true, None);
    assert!(matches!(action, DiffAction::Select));
    let data =
        BaselineData { uid_validity: Some(7), highest_mod_seq: Some(60), exists: Some(4) };
    let (diff, action) = diff.step(DiffEvent::Selected(data)).unwrap();
    assert!(matches!(action, DiffAction::FetchHighest));
    let (_, action) = diff.step(DiffEvent::Fetched(vec![row(4, 44, &[])])).unwrap();
    let DiffAction::Finish(EnvelopeDiff::FullListRequired { new_state: Some(state) }) = action else {
        panic!("expected a baseline")
    };
    assert_eq!(
        ImapState::decode(&state),
        Some(ImapState { uid_validity: 7, highest_mod_seq: 60, highest_uid: 44 })
    );
}

#[test]
fn mailboxes_are_created_and_deleted() {
    let mut run = ImapMailboxCreate::new("Archive").unwrap();
    let (commands, result) = drive(|f, b| run.resume(f, b), &["{tag} OK created\r\n"]);
    assert_eq!(commands, ["CREATE Archive"]);
    assert!(result.is_ok());
    let mut run = ImapMailboxCreate::new("Archive").unwrap();
    let (_, result) = drive(|f, b| run.resume(f, b), &["{tag} NO exists\r\n"]);
    assert!(matches!(result, Err(ImapMailboxCreateError::Create(_))));
    assert!(matches!(
        ImapMailboxCreate::new("\0"),
        Err(ImapMailboxCreateError::InvalidMailbox(name)) if name == "\0"
    ));

    let mut run = ImapMailboxDelete::new("Archive").unwrap();
    let (commands, result) = drive(|f, b| run.resume(f, b), &["{tag} OK deleted\r\n"]);
    assert_eq!(commands, ["DELETE Archive"]);
    assert!(result.is_ok());
    let mut run = ImapMailboxDelete::new("Archive").unwrap();
    let (_, result) = drive(|f, b| run.resume(f, b), &["{tag} NO missing\r\n"]);
    assert!(matches!(result, Err(ImapMailboxDeleteError::Delete(_))));
}

#[test]
fn the_shared_driver_routes_imap() {
    let mut run = ImapMailboxCreate::new("Archive").unwrap();
    assert_eq!(<ImapMailboxCreate as EmailCoroutine>::BACKEND, EmailBackend::Imap);
    assert!(matches!(
        EmailCoroutine::resume(&mut run, EmailCoroutineArg::Jmap { bytes: None }),
        EmailCoroutineState::Complete(Err(ImapMailboxCreateError::InvalidArg))
    ));
    let mut fragmentizer = fragmentizer();
    assert!(matches!(
        EmailCoroutine::resume(
            &mut run,
            EmailCoroutineArg::Imap { fragmentizer: &mut fragmentizer, bytes: None }
        ),
        EmailCoroutineState::Yielded(ImapStep::WantsWrite(_))
    ));
}

#[test]
fn mailboxes_are_listed_with_counts() {
    let mut run = ImapMailboxList::new(true);
    let (commands, result) = drive(
        |f, b| run.resume(f, b),
        &[
            "* LIST () \"/\" INBOX\r\n* LIST (\\Noselect) \"/\" Lists\r\n* LIST () \"/\" Work\r\n{tag} OK listed\r\n",
            "* STATUS INBOX (MESSAGES 3 UNSEEN 1)\r\n{tag} OK status\r\n",
            "* STATUS Work (MESSAGES 5 UNSEEN 0)\r\n{tag} OK status\r\n",
        ],
    );
    let mailboxes = result.unwrap();
    assert_eq!(commands.len(), 3);
    assert!(commands[0].starts_with("LIST "));
    assert!(commands[1].starts_with("STATUS INBOX"));
    assert!(commands[2].starts_with("STATUS Work"));
    assert_eq!(mailboxes.len(), 2);
    assert_eq!((mailboxes[0].total, mailboxes[0].unread), (Some(3), Some(1)));
    assert_eq!(mailboxes[1].name, "Work");
    assert_eq!((mailboxes[1].total, mailboxes[1].unread), (Some(5), Some(0)));
}

#[test]
fn mailboxes_are_listed_without_counts() {
    let mut run = ImapMailboxList::new(false);
    let (commands, result) = drive(
        |f, b| run.resume(f, b),
        &["* LIST () \"/\" Work\r\n{tag} OK listed\r\n"],
    );
    assert_eq!(commands.len(), 1);
    let mailboxes = result.unwrap();
    assert_eq!((mailboxes[0].total, mailboxes[0].unread), (None, None));
}

#[test]
fn envelopes_are_listed() {
    let mut run = ImapEnvelopeList::new("INBOX", Some(1), Some(2), true).unwrap();
    let (commands, result) = drive(
        |f, b| run.resume(f, b),
        &[
            SELECTED,
            "* 2 FETCH (UID 20 FLAGS (\\Seen) RFC822.SIZE 10 ENVELOPE (\"Thu, 15 Jan 2026 10:00:00 +0000\" \"two\" ((\"Al\" NIL \"al\" \"x.org\")) NIL NIL ((NIL NIL \"bo\" \"y.org\")) NIL NIL NIL \"<id@x>\"))\r\n* 3 FETCH (UID 30 FLAGS () RFC822.SIZE 11 ENVELOPE (NIL \"three\" NIL NIL NIL NIL NIL NIL NIL NIL))\r\n{tag} OK fetched\r\n",
        ],
    );
    assert_eq!(commands.len(), 2);
    assert!(commands[0].starts_with("SELECT INBOX"));
    assert!(commands[1].starts_with("FETCH 2:3 "));
    assert!(commands[1].contains("BODYSTRUCTURE"));
    let envelopes = result.unwrap();
    assert_eq!(ids(&envelopes), ["30", "20"]);
    assert_eq!(envelopes[1].subject, "two");
    assert_eq!(envelopes[1].from[0].email, "al@x.org");
    assert_eq!(envelopes[1].to[0].email, "bo@y.org");
    assert_eq!(envelopes[1].message_id.as_deref(), Some("id@x"));
    assert_eq!(envelopes[1].date.unwrap().seconds, 1_768_471_200);
    assert_eq!(envelopes[1].size, 10);
    assert!(matches!(
        run.resume(&mut fragmentizer(), None),
        EmailCoroutineState::Complete(Err(ImapEnvelopeListError::ResumedAfterDone))
    ));
}

#[test]
fn listing_an_empty_mailbox_fetches_nothing() {
    let mut run = ImapEnvelopeList::new("INBOX", None, None, false).unwrap();
    let (commands, result) = drive(
        |f, b| run.resume(f, b),
        &["* 0 EXISTS\r\n{tag} OK [READ-WRITE] selected\r\n"],
    );
    assert_eq!(commands.len(), 1);
    assert!(result.unwrap().is_empty());
    let mut run = ImapEnvelopeList::new("INBOX", None, None, false).unwrap();
    let (_, result) = drive(|f, b| run.resume(f, b), &["{tag} NO missing\r\n"]);
    assert!(matches!(result, Err(ImapEnvelopeListError::Select(_))));
}

#[test]
fn envelopes_are_searched() {
    let query = SearchEmailsQuery {
        filter: Some(SearchEmailsFilterQuery::And(
            Box::new(SearchEmailsFilterQuery::From("al".into())),
            Box::new(SearchEmailsFilterQuery::AfterDate(Date::from_ymd(2026, 1, 15).unwrap())),
        )),
        sort: Some(vec![SearchEmailsSorter(
            SearchEmailsSorterKind::Subject,
            SearchEmailsSorterOrder::Ascending,
        )]),
    };
    let mut run =
        ImapEnvelopeSearch::new("INBOX", Some(&query), Some(1), Some(2), false, false).unwrap();
    let (commands, result) = drive(
        |f, b| run.resume(f, b),
        &[
            SELECTED,
            "* SORT 30 10 20\r\n{tag} OK sorted\r\n",
            "* 1 FETCH (UID 10 FLAGS ())\r\n* 3 FETCH (UID 30 FLAGS (\\Seen))\r\n{tag} OK fetched\r\n",
        ],
    );
    assert_eq!(commands.len(), 3);
    assert!(commands[1].starts_with("UID SORT (SUBJECT)"));
    assert!(commands[1].contains("FROM al"));
    assert!(commands[1].contains("SENTSINCE \"16-Jan-2026\""));
    assert!(commands[2].starts_with("UID FETCH 10,30 "));
    let envelopes = result.unwrap();
    assert_eq!(ids(&envelopes), ["30", "10"]);
    assert_eq!(raw_flags(&envelopes[0].flags), ["\\Seen"]);
    assert!(matches!(
        run.resume(&mut fragmentizer(), None),
        EmailCoroutineState::Complete(Err(ImapEnvelopeSearchError::ResumedAfterDone))
    ));
}

#[test]
fn a_search_can_leave_the_mailbox_alone() {
    let mut run = ImapEnvelopeSearch::read_only("INBOX", None, None, None, false, false).unwrap();
    let (commands, result) = drive(
        |f, b| run.resume(f, b),
        &["* 3 EXISTS\r\n{tag} OK [READ-ONLY] examined\r\n", "* SORT\r\n{tag} OK sorted\r\n"],
    );
    assert!(commands[0].starts_with("EXAMINE INBOX"));
    assert!(commands[1].starts_with("UID SORT (REVERSE DATE)"));
    assert!(commands[1].ends_with("ALL"));
    assert_eq!(commands.len(), 2);
    assert!(result.unwrap().is_empty());
}

#[test]
fn a_search_that_cannot_travel_is_refused() {
    let query = SearchEmailsQuery {
        filter: Some(SearchEmailsFilterQuery::Subject("a\0b".into())),
        sort: None,
    };
    assert!(matches!(
        ImapEnvelopeSearch::new("INBOX", Some(&query), None, None, false, false),
        Err(ImapEnvelopeSearchError::InvalidFilter(_))
    ));
    assert!(matches!(
        ImapEnvelopeSearch::new("\0", None, None, None, false, false),
        Err(ImapEnvelopeSearchError::InvalidMailbox(name)) if name == "\0"
    ));
    let err: InvalidFilter =
        convert_filter(&SearchEmailsFilterQuery::Subject("a\0b".into())).unwrap_err();
    assert!(format!("{err:?}").contains("a\\0b"));
}

#[test]
fn flags_are_stored() {
    let flags = [Flag::from_iana(IanaFlag::Seen), Flag::from_raw("Work")];
    let run = |op, auto_select| {
        let mut run = ImapFlagStore::new("INBOX", &["5", "6"], &flags, op, auto_select).unwrap();
        let replies: &[&str] =
            if auto_select { &[SELECTED, "{tag} OK stored\r\n"] } else { &["{tag} OK stored\r\n"] };
        let (commands, result) = drive(|f, b| run.resume(f, b), replies);
        assert!(result.is_ok());
        commands
    };
    let commands = run(FlagOp::Add, true);
    assert_eq!(commands.len(), 2);
    assert!(commands[1].starts_with("UID STORE 5:6 +FLAGS"));
    assert!(commands[1].contains("(\\Seen Work)"));
    let commands = run(FlagOp::Remove, false);
    assert_eq!(commands.len(), 1);
    assert!(commands[0].starts_with("UID STORE 5:6 -FLAGS"));
    assert!(run(FlagOp::Replace, false)[0].starts_with("UID STORE 5:6 FLAGS"));
    assert!(matches!(
        ImapFlagStore::new("INBOX", &[], &flags, FlagOp::Add, false),
        Err(ImapFlagStoreError::EmptyUidSet)
    ));
    assert!(matches!(
        ImapFlagStore::new("INBOX", &["x"], &flags, FlagOp::Add, false),
        Err(ImapFlagStoreError::InvalidUid(id)) if id == "x"
    ));
}

#[test]
fn a_sequence_set_is_flagged() {
    let mailbox = parse_mailbox("INBOX").unwrap();
    let flags = [Flag::from_iana(IanaFlag::Flagged)];
    let mut run = FlagAdd::new(&mailbox, "1:3".try_into().unwrap(), &flags, false);
    let mut fragmentizer = fragmentizer();
    let FlagAddResult::WantsWrite(out) = run.resume(&mut fragmentizer, None) else {
        panic!("expected a write")
    };
    let tag = String::from_utf8_lossy(&out).split(' ').next().unwrap().to_string();
    assert!(matches!(run.resume(&mut fragmentizer, None), FlagAddResult::WantsRead));
    let selected = SELECTED.replace("{tag}", &tag);
    let FlagAddResult::WantsWrite(out) = run.resume(&mut fragmentizer, Some(selected.as_bytes()))
    else {
        panic!("expected a write")
    };
    let command = String::from_utf8_lossy(&out).into_owned();
    let (tag, rest) = command.split_once(' ').unwrap();
    assert!(rest.starts_with("STORE 1:3 +FLAGS"));
    assert!(matches!(run.resume(&mut fragmentizer, None), FlagAddResult::WantsRead));
    let refused = format!("{tag} NO read-only\r\n");
    assert!(matches!(
        run.resume(&mut fragmentizer, Some(refused.as_bytes())),
        FlagAddResult::Failed(FlagAddError::Store(_))
    ));
    assert!(matches!(
        run.resume(&mut fragmentizer, None),
        FlagAddResult::Failed(FlagAddError::AlreadyDone)
    ));
}

#[test]
fn messages_are_copied() {
    let mut run = ImapMessageCopy::new("INBOX", "Archive", &["5"], true).unwrap();
    let (commands, result) = drive(|f, b| run.resume(f, b), &[SELECTED, "{tag} OK copied\r\n"]);
    assert!(commands[0].starts_with("SELECT INBOX"));
    assert_eq!(commands[1], "UID COPY 5 Archive");
    assert!(result.is_ok());
    let mut run = ImapMessageCopy::new("INBOX", "Archive", &["5"], false).unwrap();
    let (_, result) = drive(|f, b| run.resume(f, b), &["{tag} NO full\r\n"]);
    assert!(matches!(result, Err(ImapMessageCopyError::Copy(_))));
    assert!(matches!(
        ImapMessageCopy::new("INBOX", "\0", &["5"], false),
        Err(ImapMessageCopyError::InvalidMailbox(_))
    ));
}

#[test]
fn a_move_is_ordered_once_its_mailbox_is_selected() {
    let mut run = ImapMessageMove::new("INBOX", "Archive", &["5", "7"], true).unwrap();
    let (commands, result) = drive(|f, b| run.resume(f, b), &[SELECTED]);
    assert_eq!(commands.len(), 1);
    let order = result.unwrap();
    assert_eq!(order.uids.as_vec().as_slice(), [5, 7]);
    assert_eq!(order.mailbox.as_str(), "Archive");
    let mut run = ImapMessageMove::new("INBOX", "Archive", &["5"], false).unwrap();
    let (commands, result) = drive(|f, b| run.resume(f, b), &[]);
    assert!(commands.is_empty() && result.is_ok());
    assert!(matches!(
        run.resume(&mut fragmentizer(), None),
        EmailCoroutineState::Complete(Err(ImapMessageMoveError::ResumedAfterDone))
    ));
}

#[test]
fn an_imap_message_is_fetched() {
    let mut run = ImapMessageGet::new("INBOX", "5", true).unwrap();
    let (commands, result) = drive(
        |f, b| run.resume(f, b),
        &[SELECTED, "* 1 FETCH (UID 5 BODY[] {8}\r\nraw mail)\r\n{tag} OK fetched\r\n"],
    );
    assert!(commands[1].starts_with("UID FETCH 5 "));
    assert!(commands[1].contains("BODY.PEEK[]"));
    assert_eq!(result.unwrap().bytes, b"raw mail");
    let mut run = ImapMessageGet::new("INBOX", "5", false).unwrap();
    let (_, result) = drive(|f, b| run.resume(f, b), &["{tag} OK nothing\r\n"]);
    assert!(result.is_err());
    let mut run = ImapMessageGet::new("INBOX", "5", false).unwrap();
    let (_, result) =
        drive(|f, b| run.resume(f, b), &["* 1 FETCH (UID 5 BODY[] NIL)\r\n{tag} OK fetched\r\n"]);
    assert!(matches!(result, Err(ImapMessageGetError::EmptyBody)));
}

#[test]
fn a_message_is_deleted() {
    let mut run = ImapMessageDelete::new("INBOX", "5", true).unwrap();
    let (commands, result) = drive(
        |f, b| run.resume(f, b),
        &[SELECTED, "{tag} OK stored\r\n", "* 1 EXPUNGE\r\n{tag} OK expunged\r\n"],
    );
    assert!(result.is_ok());
    assert_eq!(commands.len(), 3);
    assert!(commands[1].starts_with("UID STORE 5 +FLAGS") && commands[1].contains("\\Deleted"));
    assert!(commands[2].contains("EXPUNGE"));
    assert!(matches!(
        run.resume(&mut fragmentizer(), None),
        EmailCoroutineState::Complete(Err(ImapMessageDeleteError::ResumedAfterDone))
    ));
    let mut run = ImapMessageDelete::new("INBOX", "5", false).unwrap();
    let (_, result) = drive(|f, b| run.resume(f, b), &["{tag} NO read-only\r\n"]);
    assert!(matches!(result, Err(ImapMessageDeleteError::Store(_))));
}

#[test]
fn an_imap_message_is_added() {
    let raw = b"Message-ID: <id@x>\r\n\r\nbody\r\n".to_vec();
    let mut run =
        ImapMessageAdd::new("INBOX", &[Flag::from_iana(IanaFlag::Seen)], raw).unwrap();
    let (commands, result) = drive(
        |f, b| run.resume(f, b),
        &["+ go\r\n", "{tag} OK [APPENDUID 7 99] appended\r\n"],
    );
    assert!(commands[0].starts_with("APPEND INBOX (\\Seen)"));
    assert_eq!(result.unwrap(), "99");
    assert!(matches!(
        run.resume(&mut fragmentizer(), None),
        EmailCoroutineState::Complete(Err(ImapMessageAddError::ResumedAfterDone))
    ));
}

#[test]
fn an_added_message_is_looked_up_without_uidplus() {
    let raw = b"Message-ID: <id@x>\r\n\r\nbody\r\n".to_vec();
    let mut run = ImapMessageAdd::new("INBOX", &[], raw.clone()).unwrap();
    let (commands, result) = drive(
        |f, b| run.resume(f, b),
        &["+ go\r\n", "{tag} OK appended\r\n", SELECTED, "* SEARCH 3 42 7\r\n{tag} OK found\r\n"],
    );
    assert!(commands.last().unwrap().starts_with("UID SEARCH"));
    assert!(commands.last().unwrap().contains("id@x"));
    assert_eq!(result.unwrap(), "42");

    let mut run = ImapMessageAdd::new("INBOX", &[], raw).unwrap();
    let (_, result) = drive(
        |f, b| run.resume(f, b),
        &["+ go\r\n", "{tag} OK appended\r\n", SELECTED, "* SEARCH\r\n{tag} OK found\r\n"],
    );
    assert!(matches!(result, Err(ImapMessageAddError::UidLookupFailed)));
}

#[test]
fn an_added_message_gets_an_id() {
    let mut run = ImapMessageAdd::with_message_id(
        "INBOX",
        &[],
        b"\r\nbody\r\n".to_vec(),
        None,
        "token".to_string(),
    )
    .unwrap();
    let (commands, result) = drive(
        |f, b| run.resume(f, b),
        &["+ go\r\n", "{tag} OK [APPENDUID 7 1] appended\r\n"],
    );
    assert_eq!(result.unwrap(), "1");
    assert!(commands.iter().any(|c| c.contains("Message-ID: <token@io-email.invalid>")));
    assert!(matches!(
        ImapMessageAdd::new("INBOX", &[], b"a\0".to_vec()),
        Err(ImapMessageAddError::InvalidContent(_))
    ));
}

#[test]
fn snapshots_are_compared_between_idle_rounds() {
    let mut watch = ImapWatch::new("INBOX", &vec![row(1, 1, &["\\Seen"]), row(2, 2, &[])]);
    assert_eq!(ImapWatch::next(false), WatchAction::Idle);
    assert_eq!(ImapWatch::next(true), WatchAction::Stop);
    assert_eq!(ImapWatch::after_idle(false, true), WatchAction::Fetch);
    assert_eq!(ImapWatch::after_idle(false, false), WatchAction::Idle);
    let events = watch.refresh(&vec![row(1, 1, &[]), row(2, 3, &[])]);
    assert_eq!(events.len(), 3);
    assert!(matches!(&events[0], WatchEvent::FlagsRemoved { id, .. } if id == "1"));
    assert!(matches!(&events[1], WatchEvent::EnvelopeAdded { envelope, .. } if envelope.id == "3"));
    assert!(matches!(&events[2], WatchEvent::EnvelopeRemoved { id, .. } if id == "2"));
    assert!(watch.refresh(&vec![row(1, 1, &[]), row(2, 3, &[])]).is_empty());
}

#[test]
fn an_idle_round_ends_at_the_first_change() {
    let mut round = IdleRound::new();
    assert_eq!(round.on_event(IdleEvent::Bytes), IdleAction::Resume);
    assert_eq!(round.on_event(IdleEvent::Data { changed: false }), IdleAction::Resume);
    assert_eq!(round.on_event(IdleEvent::Data { changed: true }), IdleAction::SayDone);
    assert_eq!(round.on_event(IdleEvent::Data { changed: true }), IdleAction::Resume);
    assert_eq!(round.on_event(IdleEvent::Over), IdleAction::Finish { had_change: true });
    let mut round = IdleRound::new();
    assert_eq!(round.on_event(IdleEvent::Shutdown), IdleAction::SayDone);
    assert_eq!(round.on_event(IdleEvent::Over), IdleAction::Finish { had_change: false });
    assert_eq!(round.on_event(IdleEvent::Eof), IdleAction::Fail { eof: true });
    assert_eq!(round.on_event(IdleEvent::Failed), IdleAction::Fail { eof: false });
}

#[test]
fn deltas_become_events() {
    let event = translate_event("INBOX", Delta::Removed { uid: 4 });
    assert!(matches!(event, WatchEvent::EnvelopeRemoved { id, mailbox }
        if id == "4" && mailbox == "INBOX"));
    let event = translate_event(
        "INBOX",
        Delta::FlagsAdded { uid: 4, flags: vec!["$Junk".into(), "\\Seen".into()] },
    );
    assert!(matches!(event, WatchEvent::FlagsAdded { id, flags, .. }
        if id == "4" && raw_flags(&flags) == ["$Junk", "\\Seen"]));
    let event = translate_event("INBOX", Delta::FlagsRemoved { uid: 4, flags: vec!["Work".into()] });
    assert!(matches!(event, WatchEvent::FlagsRemoved { flags, .. } if raw_flags(&flags) == ["Work"]));
    let event = translate_event("INBOX", Delta::Added { uid: 4, items: vec![] });
    assert!(matches!(event, WatchEvent::EnvelopeAdded { envelope, .. } if envelope.id == "4"));
}

#[test]
fn a_watch_needs_qresync() {
    let flag = || Arc::new(AtomicBool::new(false));
    assert!(matches!(
        ImapWatchMailbox::new("INBOX", false, flag()),
        Err(ImapWatchMailboxError::Watch(_))
    ));
    assert!(matches!(
        ImapWatchMailbox::new("\0", true, flag()),
        Err(ImapWatchMailboxError::InvalidMailbox(_))
    ));
    let mut watch = ImapWatchMailbox::new("INBOX", true, flag()).unwrap();
    assert!(matches!(
        watch.resume(&mut fragmentizer(), None),
        EmailCoroutineState::Yielded(_)
    ));
}
