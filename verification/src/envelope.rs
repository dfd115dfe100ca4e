//! Envelope shared across all protocols.
use vstd::prelude::*;

use crate::address::{clone_addresses, Address, AddressView};
use crate::date::DateTime;
use crate::flag::types::FlagSet;
use crate::text::{
    blank_text, chars_of, law_trimmed_idempotent, law_trimmed_of_blanks, optional_bytes, text_of,
    trim_of, trimmed, white_space,
};

verus! {

/// Per-message flag mutation surfaced by an incremental fetch. `flags` is
/// the new authoritative set.
#[derive(Debug)]
pub struct FlagUpdate {
    pub id: String,
    pub flags: FlagSet,
}

/// What a [`FlagUpdate`] says.
pub struct FlagUpdateView {
    pub id: Seq<char>,
    pub flags: Set<Seq<char>>,
}

impl DeepView for FlagUpdate {
    type V = FlagUpdateView;

    open spec fn deep_view(&self) -> FlagUpdateView {
        FlagUpdateView { id: self.id@, flags: self.flags@ }
    }
}

/// Outcome of an incremental comparison against a stored checkpoint.
///
/// `new_state` is the opaque per-backend checkpoint to persist for the
/// next call.
#[derive(Debug)]
#[allow(inconsistent_fields)]
pub enum EnvelopeDiff {
    /// First sync, server-side state invalidated, or capability missing:
    /// the caller lists the mailbox and takes the result as its baseline.
    FullListRequired { new_state: Option<Vec<u8>> },
    /// The changes since the stored checkpoint.
    Incremental {
        new_state: Vec<u8>,
        flag_updates: Vec<FlagUpdate>,
        new_envelopes: Vec<Envelope>,
        vanished_ids: Vec<String>,
    },
}

/// What an [`EnvelopeDiff`] says.
#[allow(inconsistent_fields)]
pub enum EnvelopeDiffView {
    FullListRequired { new_state: Option<Seq<u8>> },
    Incremental {
        new_state: Seq<u8>,
        flag_updates: Seq<FlagUpdateView>,
        new_envelopes: Seq<EnvelopeView>,
        vanished_ids: Seq<Seq<char>>,
    },
}

impl DeepView for EnvelopeDiff {
    type V = EnvelopeDiffView;

    open spec fn deep_view(&self) -> EnvelopeDiffView {
        match self {
            EnvelopeDiff::FullListRequired { new_state } => EnvelopeDiffView::FullListRequired {
                new_state: optional_bytes(*new_state),
            },
            EnvelopeDiff::Incremental { new_state, flag_updates, new_envelopes, vanished_ids } => {
                EnvelopeDiffView::Incremental {
                    new_state: new_state@,
                    flag_updates: flag_updates.deep_view(),
                    new_envelopes: new_envelopes.deep_view(),
                    vanished_ids: vanished_ids.deep_view(),
                }
            },
        }
    }
}

/// Lightweight summary of a message: enough to display in a list without
/// fetching the full body.
#[derive(Debug)]
pub struct Envelope {
    /// Backend-specific identifier of the message: IMAP UID, JMAP email
    /// id or Maildir filename id.
    pub id: String,
    /// `Message-ID:` header value (RFC 5322 section 3.6.4), `None` when
    /// the header is missing or the backend did not surface it.
    pub message_id: Option<String>,
    /// Flags set on the message.
    pub flags: FlagSet,
    /// Subject header value.
    pub subject: String,
    /// Sender(s).
    pub from: Vec<Address>,
    /// Primary recipient(s).
    pub to: Vec<Address>,
    /// Author-claimed send time, taken from the `Date:` header. `None`
    /// when the header is missing or unparseable.
    pub date: Option<DateTime>,
    /// Size of the raw RFC 5322 message in bytes.
    pub size: u64,
    /// Whether the message has at least one attachment, `None` when not
    /// requested or not known.
    pub has_attachment: Option<bool>,
}

/// What an [`Envelope`] says.
pub struct EnvelopeView {
    pub id: Seq<char>,
    pub message_id: Option<Seq<char>>,
    pub flags: Set<Seq<char>>,
    pub subject: Seq<char>,
    pub from: Seq<AddressView>,
    pub to: Seq<AddressView>,
    pub date: Option<DateTime>,
    pub size: nat,
    pub has_attachment: Option<bool>,
}

impl DeepView for Envelope {
    type V = EnvelopeView;

    open spec fn deep_view(&self) -> EnvelopeView {
        EnvelopeView {
            id: self.id@,
            message_id: self.message_id.deep_view(),
            flags: self.flags@,
            subject: self.subject@,
            from: self.from.deep_view(),
            to: self.to.deep_view(),
            date: self.date,
            size: self.size as nat,
            has_attachment: self.has_attachment,
        }
    }
}

impl Clone for Envelope {
    fn clone(&self) -> (r: Envelope)
        ensures
            r.deep_view() == self.deep_view(),
    {
        let message_id = match &self.message_id {
            Some(id) => Some(id.clone()),
            None => None,
        };
        Envelope {
            id: self.id.clone(),
            message_id,
            flags: self.flags.clone(),
            subject: self.subject.clone(),
            from: clone_addresses(&self.from),
            to: clone_addresses(&self.to),
            date: self.date,
            size: self.size,
            has_attachment: self.has_attachment,
        }
    }
}

/// `s` without the angle brackets around it, where it has both.
pub open spec fn unbracketed(s: Seq<char>) -> Seq<char> {
    if s.len() >= 2 && s[0] == '<' && s.last() == '>' {
        s.subrange(1, s.len() - 1)
    } else {
        s
    }
}

/// A `Message-ID:` value without white space and one pair of angle
/// brackets around it.
pub open spec fn message_id_text(raw: Seq<char>) -> Seq<char> {
    trimmed(unbracketed(trimmed(raw)))
}

/// The identifier in a `Message-ID:` value, `None` when nothing is left.
pub open spec fn message_id_of(raw: Seq<char>) -> Option<Seq<char>> {
    if message_id_text(raw).len() == 0 {
        None
    } else {
        Some(message_id_text(raw))
    }
}

/// Strips the RFC 5322 `msg-id` wrappers from a raw `Message-ID:` value so
/// that every backend's [`Envelope::message_id`] is comparable.
pub fn normalize_message_id(raw: &str) -> (r: Option<String>)
    ensures
        r.deep_view() == message_id_of(raw@),
{
    let text = trim_of(raw);
    let chars = chars_of(&text);
    let n: usize = chars.len();
    let inner = if n >= 2 && chars[0] == '<' && chars[n - 1] == '>' {
        text_of(&chars, 1, n - 1)
    } else {
        text
    };
    let inner = trim_of(&inner);
    if inner.as_str().is_empty() {
        None
    } else {
        Some(inner)
    }
}

/// An identifier reads the same with and without its angle brackets.
pub proof fn law_brackets_do_not_matter(id: Seq<char>)
    requires
        id.len() > 0,
        trimmed(id) == id,
        unbracketed(id) == id,
    ensures
        message_id_of(id) == Some(id),
        message_id_of(seq!['<'] + id + seq!['>']) == Some(id),
{
    let raw = seq!['<'] + id + seq!['>'];
    assert(raw[0] == '<');
    assert(raw.last() == '>');
    assert(!white_space('<') && !white_space('>'));
    assert(trimmed(raw) == raw);
    assert(unbracketed(raw) =~= id);
}

/// An identifier has no white space around it and is not empty.
pub proof fn law_message_id_is_bare(raw: Seq<char>)
    ensures
        message_id_of(raw) matches Some(id) ==> id.len() > 0 && trimmed(id) == id,
{
    law_trimmed_idempotent(unbracketed(trimmed(raw)));
}

/// White space around a `Message-ID:` value does not matter.
pub proof fn law_blanks_around_do_not_matter(before: Seq<char>, raw: Seq<char>, after: Seq<char>)
    requires
        blank_text(before),
        blank_text(after),
    ensures
        message_id_of(before + raw + after) == message_id_of(raw),
{
    law_trimmed_of_blanks(before, raw, after);
}

/// White space inside the angle brackets does not matter.
pub proof fn law_blanks_in_brackets_do_not_matter(before: Seq<char>, id: Seq<char>, after: Seq<char>)
    requires
        blank_text(before),
        blank_text(after),
        id.len() > 0,
        trimmed(id) == id,
    ensures
        message_id_of(seq!['<'] + (before + id + after) + seq!['>']) == Some(id),
{
    let inner = before + id + after;
    let raw = seq!['<'] + inner + seq!['>'];
    assert(raw[0] == '<');
    assert(raw.last() == '>');
    assert(!white_space('<') && !white_space('>'));
    assert(trimmed(raw) == raw);
    assert(unbracketed(raw) =~= inner);
    law_trimmed_of_blanks(before, id, after);
}

/// Nothing but white space and one pair of angle brackets is taken off: a value
/// without the pair is the identifier as it stands, and of one with the pair
/// the identifier is what the pair holds.
pub proof fn law_only_one_pair_is_taken_off(id: Seq<char>)
    ensures
        trimmed(id) == id && id.len() > 0 && (id[0] != '<' || id.last() != '>' || id.len() == 1)
            ==> message_id_of(id) == Some(id),
        trimmed(id).len() > 0 ==> message_id_of(seq!['<'] + id + seq!['>']) == Some(trimmed(id)),
        trimmed(id).len() == 0 ==> message_id_of(id) is None && message_id_of(
            seq!['<'] + id + seq!['>'],
        ) is None,
{
    let raw = seq!['<'] + id + seq!['>'];
    assert(raw[0] == '<');
    assert(raw.last() == '>');
    assert(!white_space('<') && !white_space('>'));
    assert(trimmed(raw) == raw);
    assert(unbracketed(raw) =~= id);
    law_trimmed_idempotent(id);
}

} // verus!
