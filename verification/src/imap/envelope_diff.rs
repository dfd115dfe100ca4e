//! Incremental comparison of an IMAP mailbox with a stored checkpoint, over
//! QRESYNC (RFC 7162).
//!
//! The driver selects and fetches; [`ImapDiff`] decides what comes next and
//! what the outcome is.
use vstd::prelude::*;

use crate::envelope::{
    Envelope, EnvelopeDiff, EnvelopeDiffView, EnvelopeView, FlagUpdate, FlagUpdateView,
};
use crate::flag::types::{kept, FlagSet};
use crate::imap::convert::{lemma_range_is_set, range_text, sequence_set_text};
use crate::imap::envelope_list::{build_item_names, item_names, lemma_range_items};
use crate::imap::fetch::{
    envelope_from, envelope_of, flags_from, flags_of, is_flags, is_uid, law_flags_are_those_given,
    law_id_is_the_uid, silent, speaks_last, FetchItem, FetchItemView, FetchRow, FetchRowView,
};
use crate::imap::wire::{text_items, FetchFlagView, FetchItemName, SetBound, SetItem};
use crate::text::{
    decimal, decimal_of, law_decimal_reads_back, number, parse_number, same_text,
};

verus! {

/// The little-endian notation of `n` in `k` bytes.
pub open spec fn le_bytes(n: nat, k: nat) -> Seq<u8>
    decreases k,
{
    if k == 0 {
        seq![]
    } else {
        seq![(n % 256) as u8] + le_bytes(n / 256, (k - 1) as nat)
    }
}

/// The number that bytes denote in little-endian notation.
pub open spec fn le_value(bytes: Seq<u8>) -> nat
    decreases bytes.len(),
{
    if bytes.len() == 0 {
        0
    } else {
        bytes[0] as nat + 256 * le_value(bytes.drop_first())
    }
}

/// The least number that `k` bytes cannot hold.
pub open spec fn le_limit(k: nat) -> nat
    decreases k,
{
    if k == 0 {
        1
    } else {
        256 * le_limit((k - 1) as nat)
    }
}

proof fn lemma_le_value(n: nat, k: nat)
    requires
        n < le_limit(k),
    ensures
        le_bytes(n, k).len() == k,
        le_value(le_bytes(n, k)) == n,
    decreases k,
{
    if k > 0 {
        let rest = le_bytes(n / 256, (k - 1) as nat);
        lemma_le_value(n / 256, (k - 1) as nat);
        assert(le_bytes(n, k).drop_first() =~= rest);
    }
}

proof fn lemma_le_bytes(bytes: Seq<u8>)
    ensures
        le_value(bytes) < le_limit(bytes.len()),
        le_bytes(le_value(bytes), bytes.len()) == bytes,
    decreases bytes.len(),
{
    if bytes.len() > 0 {
        let rest = bytes.drop_first();
        lemma_le_bytes(rest);
        let n = le_value(bytes);
        assert(n % 256 == bytes[0] && n / 256 == le_value(rest));
        assert(le_bytes(n, bytes.len()) =~= bytes);
    } else {
        assert(le_bytes(0, 0) =~= bytes);
    }
}

proof fn lemma_limits()
    ensures
        le_limit(4) == 0x1_0000_0000,
        le_limit(8) == 0x1_0000_0000_0000_0000,
{
    reveal_with_fuel(le_limit, 9);
}

fn push_le(out: &mut Vec<u8>, n: u64, k: usize)
    ensures
        final(out)@ == old(out)@ + le_bytes(n as nat, k as nat),
    decreases k,
{
    if k > 0 {
        let ghost was = out@;
        out.push((n % 256) as u8);
        push_le(out, n / 256, k - 1);
        proof {
            assert(out@ =~= was + le_bytes(n as nat, k as nat));
        }
    } else {
        proof {
            assert(out@ + le_bytes(n as nat, 0) =~= out@);
        }
    }
}

fn read_le(bytes: &[u8], from: usize, to: usize) -> (r: u64)
    requires
        from <= to <= bytes@.len(),
        to - from <= 8,
    ensures
        r == le_value(bytes@.subrange(from as int, to as int)),
    decreases to - from,
{
    let ghost part = bytes@.subrange(from as int, to as int);
    proof {
        lemma_le_bytes(part);
        lemma_limits();
        lemma_limit_grows(part.len(), 8);
    }
    if from == to {
        return 0;
    }
    proof {
        assert(part.drop_first() =~= bytes@.subrange(from + 1, to as int));
    }
    let rest: u64 = read_le(bytes, from + 1, to);
    bytes[from] as u64 + 256 * rest
}

proof fn lemma_limit_grows(a: nat, b: nat)
    requires
        a <= b,
    ensures
        le_limit(a) <= le_limit(b),
        le_limit(a) > 0,
    decreases b,
{
    if a < b {
        lemma_limit_grows(a, (b - 1) as nat);
    } else if a > 0 {
        lemma_limit_grows((a - 1) as nat, (b - 1) as nat);
    }
}

/// IMAP sync checkpoint: `uid_validity` and `highest_mod_seq` feed `SELECT
/// (QRESYNC ...)`; `highest_uid` scopes the follow-up fetch of new messages.
#[derive(Clone, Copy, Debug, PartialEq, Eq, Structural)]
pub struct ImapState {
    pub uid_validity: u32,
    pub highest_mod_seq: u64,
    pub highest_uid: u32,
}

impl ImapState {
    /// The checkpoint as bytes: the three numbers in little-endian notation,
    /// in 4, 8 and 4 bytes.
    pub open spec fn encoded(self) -> Seq<u8> {
        le_bytes(self.uid_validity as nat, 4) + le_bytes(self.highest_mod_seq as nat, 8) + le_bytes(
            self.highest_uid as nat,
            4,
        )
    }

    /// The checkpoint in bytes; bytes of another length than 16 hold none.
    pub open spec fn decoded(bytes: Seq<u8>) -> Option<ImapState> {
        if bytes.len() == 16 {
            Some(
                ImapState {
                    uid_validity: le_value(bytes.subrange(0, 4)) as u32,
                    highest_mod_seq: le_value(bytes.subrange(4, 12)) as u64,
                    highest_uid: le_value(bytes.subrange(12, 16)) as u32,
                },
            )
        } else {
            None
        }
    }

    /// Decodes bytes produced by [`Self::encode`]; `None` on a length
    /// mismatch (treat as no usable state).
    pub fn decode(bytes: &[u8]) -> (r: Option<ImapState>)
        ensures
            r == ImapState::decoded(bytes@),
    {
        if bytes.len() != 16 {
            return None;
        }
        proof {
            lemma_limits();
            lemma_le_bytes(bytes@.subrange(0, 4));
            lemma_le_bytes(bytes@.subrange(4, 12));
            lemma_le_bytes(bytes@.subrange(12, 16));
        }
        Some(
            ImapState {
                uid_validity: read_le(bytes, 0, 4) as u32,
                highest_mod_seq: read_le(bytes, 4, 12),
                highest_uid: read_le(bytes, 12, 16) as u32,
            },
        )
    }

    /// Encodes the checkpoint into 16 little-endian bytes.
    pub fn encode(&self) -> (r: Vec<u8>)
        ensures
            r@ == self.encoded(),
            r@.len() == 16,
    {
        let mut out: Vec<u8> = Vec::new();
        push_le(&mut out, self.uid_validity as u64, 4);
        push_le(&mut out, self.highest_mod_seq, 8);
        push_le(&mut out, self.highest_uid as u64, 4);
        proof {
            law_checkpoint_round_trip(*self);
            assert(out@ =~= self.encoded());
        }
        out
    }
}

/// Decoding what was encoded gives the checkpoint back.
pub proof fn law_checkpoint_round_trip(state: ImapState)
    ensures
        ImapState::decoded(state.encoded()) == Some(state),
        state.encoded().len() == 16,
{
    lemma_limits();
    lemma_le_value(state.uid_validity as nat, 4);
    lemma_le_value(state.highest_mod_seq as nat, 8);
    lemma_le_value(state.highest_uid as nat, 4);
    let bytes = state.encoded();
    assert(bytes.subrange(0, 4) =~= le_bytes(state.uid_validity as nat, 4));
    assert(bytes.subrange(4, 12) =~= le_bytes(state.highest_mod_seq as nat, 8));
    assert(bytes.subrange(12, 16) =~= le_bytes(state.highest_uid as nat, 4));
}

/// Bytes that decode are the encoding of what they decode to.
pub proof fn law_checkpoint_bytes(bytes: Seq<u8>)
    ensures
        ImapState::decoded(bytes) is Some <==> bytes.len() == 16,
        ImapState::decoded(bytes) matches Some(state) ==> state.encoded() == bytes,
{
    if bytes.len() == 16 {
        lemma_limits();
        lemma_le_bytes(bytes.subrange(0, 4));
        lemma_le_bytes(bytes.subrange(4, 12));
        lemma_le_bytes(bytes.subrange(12, 16));
        let state = ImapState::decoded(bytes)->0;
        assert(state.encoded() =~= bytes);
    }
}

/// FETCH items for new messages: those of a listing, without the structure.
pub fn new_message_item_names() -> (r: Vec<FetchItemName>)
    ensures
        r@ == item_names(false),
{
    build_item_names(false)
}

/// The UIDs above `high` as a sequence set; `None` where there can be none.
pub open spec fn window_above(high: u32) -> Option<Seq<char>> {
    if high == u32::MAX {
        None
    } else {
        Some(range_text((high + 1) as nat, None))
    }
}

/// UID sequence set `high+1:*`; `None` on overflow.
pub fn new_message_window(high: u32) -> (r: Option<String>)
    ensures
        r.deep_view() == window_above(high),
        r matches Some(text) ==> sequence_set_text(text@),
{
    if high == u32::MAX {
        return None;
    }
    let mut text = decimal_of(high as u64 + 1);
    text.append(":*");
    proof {
        reveal_strlit(":*");
        assert(text@ =~= range_text((high + 1) as nat, None));
        lemma_range_is_set((high + 1) as nat, None);
    }
    Some(text)
}

/// The UID and the flags that FETCH items give last.
pub open spec fn last_uid_flags(items: Seq<FetchItemView>) -> (Option<u32>, Option<Set<Seq<char>>>)
    decreases items.len(),
{
    if items.len() == 0 {
        (None, None)
    } else {
        let (uid, flags) = last_uid_flags(items.drop_last());
        match items.last() {
            FetchItemView::Uid(n) => (Some(n), flags),
            FetchItemView::Flags(fs) => (uid, Some(flags_of(fs))),
            _ => (uid, flags),
        }
    }
}

/// The flag update in FETCH items, where they give both a UID and flags.
pub open spec fn flag_update(items: Seq<FetchItemView>) -> Option<FlagUpdateView> {
    match last_uid_flags(items) {
        (Some(uid), Some(flags)) => Some(FlagUpdateView { id: decimal(uid as nat), flags }),
        _ => None,
    }
}

/// Translates one implicit FETCH response into a [`FlagUpdate`]; `None`
/// when UID or FLAGS is missing.
pub fn flag_update_from_items(items: &Vec<FetchItem>) -> (r: Option<FlagUpdate>)
    ensures
        r.deep_view() == flag_update(items.deep_view()),
{
    let mut uid: Option<u32> = None;
    let mut flags: Option<FlagSet> = None;
    let ghost all = items.deep_view();
    proof {
        assert(all.subrange(0, 0) =~= seq![]);
    }
    let mut i: usize = 0;
    while i < items.len()
        invariant
            i <= items@.len(),
            all == items.deep_view(),
            (uid, flags.deep_view()) == last_uid_flags(all.subrange(0, i as int)),
        decreases items@.len() - i,
    {
        proof {
            assert(all.subrange(0, i + 1).drop_last() =~= all.subrange(0, i as int));
            assert(all.subrange(0, i + 1).last() == items@[i as int].deep_view());
        }
        match &items[i] {
            FetchItem::Uid(n) => {
                uid = Some(*n);
            },
            FetchItem::Flags(fs) => {
                flags = Some(flags_from(fs));
            },
            _ => {},
        }
        i = i + 1;
    }
    proof {
        assert(all.subrange(0, all.len() as int) =~= all);
    }
    match (uid, flags) {
        (Some(uid), Some(flags)) => Some(FlagUpdate { id: decimal_of(uid as u64), flags }),
        _ => None,
    }
}

/// Builds an [`Envelope`] from a FETCH item list.
pub fn envelope_from_items(items: &Vec<FetchItem>) -> (r: Envelope)
    ensures
        r.deep_view() == envelope_of(0, items.deep_view()),
{
    envelope_from(0, items)
}

/// What a `SELECT (QRESYNC ...)` came back with.
pub struct QresyncData {
    pub uid_validity: Option<u32>,
    pub highest_mod_seq: Option<u64>,
    /// The implicit FETCH responses for changed messages.
    pub changed: Vec<FetchRow>,
    /// The UIDs that are gone.
    pub vanished: Vec<u32>,
}

/// What a [`QresyncData`] says.
pub struct QresyncView {
    pub uid_validity: Option<u32>,
    pub highest_mod_seq: Option<u64>,
    pub changed: Seq<FetchRowView>,
    pub vanished: Seq<u32>,
}

impl DeepView for QresyncData {
    type V = QresyncView;

    open spec fn deep_view(&self) -> QresyncView {
        QresyncView {
            uid_validity: self.uid_validity,
            highest_mod_seq: self.highest_mod_seq,
            changed: self.changed.deep_view(),
            vanished: self.vanished@,
        }
    }
}

/// What a plain SELECT came back with.
#[derive(Clone, Copy, Debug, PartialEq, Eq, Structural)]
pub struct BaselineData {
    pub uid_validity: Option<u32>,
    pub highest_mod_seq: Option<u64>,
    pub exists: Option<u32>,
}

/// Whether an id is that of one of the UIDs.
pub open spec fn among_uids(id: Seq<char>, uids: Seq<u32>) -> bool {
    exists|i: int| 0 <= i < uids.len() && decimal(#[trigger] uids[i] as nat) == id
}

/// Whether an id is that of one of the envelopes.
pub open spec fn among_envelopes(id: Seq<char>, envelopes: Seq<EnvelopeView>) -> bool {
    exists|i: int| 0 <= i < envelopes.len() && (#[trigger] envelopes[i]).id == id
}

/// Whether an id is a UID above `high`.
pub open spec fn above(id: Seq<char>, high: u32) -> bool {
    number(id) matches Some(uid) && uid > high
}

/// The new messages among fetched ones: those with a UID above the mark
/// that are not gone.
pub open spec fn fresh(rows: Seq<FetchRowView>, high: u32, vanished: Seq<u32>) -> Seq<EnvelopeView>
    decreases rows.len(),
{
    if rows.len() == 0 {
        seq![]
    } else {
        let before = fresh(rows.drop_last(), high, vanished);
        let envelope = envelope_of(0, rows.last().items);
        if above(envelope.id, high) && !among_uids(envelope.id, vanished) {
            before.push(envelope)
        } else {
            before
        }
    }
}

/// The flag updates of changed messages that are neither new nor gone.
pub open spec fn updates(
    changed: Seq<FetchRowView>,
    new: Seq<EnvelopeView>,
    vanished: Seq<u32>,
) -> Seq<FlagUpdateView>
    decreases changed.len(),
{
    if changed.len() == 0 {
        seq![]
    } else {
        let before = updates(changed.drop_last(), new, vanished);
        match flag_update(changed.last().items) {
            Some(update) => if among_envelopes(update.id, new) || among_uids(update.id, vanished) {
                before
            } else {
                before.push(update)
            },
            None => before,
        }
    }
}

/// The greatest UID among the ids of envelopes, and `low` where none is
/// greater.
pub open spec fn top_uid(envelopes: Seq<EnvelopeView>, low: u32) -> u32
    decreases envelopes.len(),
{
    if envelopes.len() == 0 {
        low
    } else {
        let top = top_uid(envelopes.drop_last(), low);
        match number(envelopes.last().id) {
            Some(uid) if uid > top => uid,
            _ => top,
        }
    }
}

/// The greatest UID that FETCH items give, zero where they give none.
pub open spec fn top_item_uid(items: Seq<FetchItemView>) -> u32
    decreases items.len(),
{
    if items.len() == 0 {
        0
    } else {
        match items.last() {
            FetchItemView::Uid(uid) if uid > top_item_uid(items.drop_last()) => uid,
            _ => top_item_uid(items.drop_last()),
        }
    }
}

/// The greatest UID that FETCH responses give, zero where they give none.
pub open spec fn top_row_uid(rows: Seq<FetchRowView>) -> u32
    decreases rows.len(),
{
    if rows.len() == 0 {
        0
    } else {
        let last = top_item_uid(rows.last().items);
        let before = top_row_uid(rows.drop_last());
        if last > before {
            last
        } else {
            before
        }
    }
}

/// The delta since a checkpoint, from what changed and what was fetched.
pub open spec fn delta(cached: ImapState, data: QresyncView, rows: Seq<FetchRowView>) -> EnvelopeDiffView {
    let new = fresh(rows, cached.highest_uid, data.vanished);
    EnvelopeDiffView::Incremental {
        new_state: (ImapState {
            uid_validity: cached.uid_validity,
            highest_mod_seq: match data.highest_mod_seq {
                Some(n) => n,
                None => cached.highest_mod_seq,
            },
            highest_uid: top_uid(new, cached.highest_uid),
        }).encoded(),
        flag_updates: updates(data.changed, new, data.vanished),
        new_envelopes: new,
        vanished_ids: crate::text::decimals(data.vanished),
    }
}

/// The checkpoint of a mailbox that is listed anew; without a UIDVALIDITY
/// there is none.
pub open spec fn baseline(data: BaselineData, rows: Seq<FetchRowView>) -> EnvelopeDiffView {
    match data.uid_validity {
        Some(uid_validity) => EnvelopeDiffView::FullListRequired {
            new_state: Some(
                (ImapState {
                    uid_validity,
                    highest_mod_seq: match data.highest_mod_seq {
                        Some(n) => n,
                        None => 0,
                    },
                    highest_uid: top_row_uid(rows),
                }).encoded(),
            ),
        },
        None => EnvelopeDiffView::FullListRequired { new_state: None },
    }
}

/// The three parts of a delta have no message in common.
pub proof fn law_delta_is_disjoint(cached: ImapState, data: QresyncView, rows: Seq<FetchRowView>)
    ensures
        delta(cached, data, rows) matches EnvelopeDiffView::Incremental {
            flag_updates,
            new_envelopes,
            vanished_ids,
            ..
        } ==> {
            &&& forall|i: int, j: int|
                0 <= i < flag_updates.len() && 0 <= j < new_envelopes.len()
                    ==> (#[trigger] flag_updates[i]).id != (#[trigger] new_envelopes[j]).id
            &&& forall|i: int, j: int|
                0 <= i < flag_updates.len() && 0 <= j < vanished_ids.len()
                    ==> (#[trigger] flag_updates[i]).id != #[trigger] vanished_ids[j]
            &&& forall|i: int, j: int|
                0 <= i < new_envelopes.len() && 0 <= j < vanished_ids.len()
                    ==> (#[trigger] new_envelopes[i]).id != #[trigger] vanished_ids[j]
        },
{
    let new = fresh(rows, cached.highest_uid, data.vanished);
    let flag_updates = updates(data.changed, new, data.vanished);
    let vanished_ids = crate::text::decimals(data.vanished);
    lemma_fresh(rows, cached.highest_uid, data.vanished);
    lemma_updates(data.changed, new, data.vanished);
    assert forall|i: int, j: int| 0 <= i < flag_updates.len() && 0 <= j < new.len() implies (
    #[trigger] flag_updates[i]).id != (#[trigger] new[j]).id by {
        assert(!among_envelopes(flag_updates[i].id, new));
    }
    assert forall|i: int, j: int| 0 <= i < flag_updates.len() && 0 <= j < vanished_ids.len() implies (
    #[trigger] flag_updates[i]).id != #[trigger] vanished_ids[j] by {
        assert(!among_uids(flag_updates[i].id, data.vanished));
        assert(decimal(data.vanished[j] as nat) == vanished_ids[j]);
    }
    assert forall|i: int, j: int| 0 <= i < new.len() && 0 <= j < vanished_ids.len() implies (
    #[trigger] new[i]).id != #[trigger] vanished_ids[j] by {
        assert(!among_uids(new[i].id, data.vanished));
        assert(decimal(data.vanished[j] as nat) == vanished_ids[j]);
    }
}

proof fn lemma_fresh(rows: Seq<FetchRowView>, high: u32, vanished: Seq<u32>)
    ensures
        forall|i: int|
            0 <= i < fresh(rows, high, vanished).len() ==> {
                let id = (#[trigger] fresh(rows, high, vanished)[i]).id;
                above(id, high) && !among_uids(id, vanished)
            },
    decreases rows.len(),
{
    if rows.len() > 0 {
        lemma_fresh(rows.drop_last(), high, vanished);
    }
}

proof fn lemma_updates(changed: Seq<FetchRowView>, new: Seq<EnvelopeView>, vanished: Seq<u32>)
    ensures
        forall|i: int|
            0 <= i < updates(changed, new, vanished).len() ==> {
                let id = (#[trigger] updates(changed, new, vanished)[i]).id;
                !among_envelopes(id, new) && !among_uids(id, vanished)
            },
    decreases changed.len(),
{
    if changed.len() > 0 {
        let before = updates(changed.drop_last(), new, vanished);
        lemma_updates(changed.drop_last(), new, vanished);
        assert forall|i: int| 0 <= i < updates(changed, new, vanished).len() implies ({
            let id = (#[trigger] updates(changed, new, vanished)[i]).id;
            !among_envelopes(id, new) && !among_uids(id, vanished)
        }) by {
            if i < before.len() {
                assert(updates(changed, new, vanished)[i] == before[i]);
            }
        }
    }
}

/// The high-water mark of a delta never falls, and every new message lies
/// above the old mark and not above the new one.
pub proof fn law_mark_rises(envelopes: Seq<EnvelopeView>, low: u32)
    ensures
        top_uid(envelopes, low) >= low,
        forall|i: int|
            0 <= i < envelopes.len() ==> (number((#[trigger] envelopes[i]).id) matches Some(uid)
                ==> uid <= top_uid(envelopes, low)),
    decreases envelopes.len(),
{
    if envelopes.len() > 0 {
        let most = envelopes.drop_last();
        law_mark_rises(most, low);
        assert forall|i: int| 0 <= i < envelopes.len() implies (number((#[trigger] envelopes[i]).id) matches Some(uid)
                ==> uid <= top_uid(envelopes, low)) by {
            if i < envelopes.len() - 1 {
                assert(most[i] == envelopes[i]);
            }
        }
    }
}

fn is_among_uids(id: &str, uids: &Vec<u32>) -> (r: bool)
    ensures
        r == among_uids(id@, uids@),
{
    let mut i: usize = 0;
    while i < uids.len()
        invariant
            i <= uids@.len(),
            forall|j: int| 0 <= j < i ==> decimal(#[trigger] uids@[j] as nat) != id@,
        decreases uids@.len() - i,
    {
        if same_text(&decimal_of(uids[i] as u64), id) {
            return true;
        }
        i = i + 1;
    }
    false
}

fn is_among_envelopes(id: &str, envelopes: &Vec<Envelope>) -> (r: bool)
    ensures
        r == among_envelopes(id@, envelopes.deep_view()),
{
    let ghost all = envelopes.deep_view();
    let mut i: usize = 0;
    while i < envelopes.len()
        invariant
            i <= envelopes@.len(),
            all == envelopes.deep_view(),
            forall|j: int| 0 <= j < i ==> (#[trigger] all[j]).id != id@,
        decreases envelopes@.len() - i,
    {
        proof {
            assert(all[i as int] == envelopes@[i as int].deep_view());
        }
        if same_text(&envelopes[i].id, id) {
            return true;
        }
        i = i + 1;
    }
    false
}

/// Picks the new messages out of fetched ones.
pub fn fresh_envelopes(rows: &Vec<FetchRow>, high: u32, vanished: &Vec<u32>) -> (r: Vec<Envelope>)
    ensures
        r.deep_view() == fresh(rows.deep_view(), high, vanished@),
{
    let mut out: Vec<Envelope> = Vec::new();
    let ghost all = rows.deep_view();
    proof {
        assert(out.deep_view() =~= seq![]);
        assert(all.subrange(0, 0) =~= seq![]);
    }
    let mut i: usize = 0;
    while i < rows.len()
        invariant
            i <= rows@.len(),
            all == rows.deep_view(),
            out.deep_view() == fresh(all.subrange(0, i as int), high, vanished@),
        decreases rows@.len() - i,
    {
        proof {
            assert(all.subrange(0, i + 1).drop_last() =~= all.subrange(0, i as int));
            assert(all.subrange(0, i + 1).last() == rows@[i as int].deep_view());
        }
        let ghost before = out.deep_view();
        let envelope = envelope_from_items(&rows[i].items);
        let ghost last = envelope.deep_view();
        let is_above = match parse_number(&envelope.id) {
            Some(uid) => uid > high,
            None => false,
        };
        if is_above && !is_among_uids(&envelope.id, vanished) {
            out.push(envelope);
            proof {
                assert(out.deep_view() =~= before.push(last));
            }
        }
        i = i + 1;
    }
    proof {
        assert(all.subrange(0, all.len() as int) =~= all);
    }
    out
}

/// Collects the flag updates of messages that are neither new nor gone.
pub fn flag_updates(changed: &Vec<FetchRow>, new: &Vec<Envelope>, vanished: &Vec<u32>) -> (r: Vec<
    FlagUpdate,
>)
    ensures
        r.deep_view() == updates(changed.deep_view(), new.deep_view(), vanished@),
{
    let mut out: Vec<FlagUpdate> = Vec::new();
    let ghost all = changed.deep_view();
    proof {
        assert(out.deep_view() =~= seq![]);
        assert(all.subrange(0, 0) =~= seq![]);
    }
    let mut i: usize = 0;
    while i < changed.len()
        invariant
            i <= changed@.len(),
            all == changed.deep_view(),
            out.deep_view() == updates(all.subrange(0, i as int), new.deep_view(), vanished@),
        decreases changed@.len() - i,
    {
        proof {
            assert(all.subrange(0, i + 1).drop_last() =~= all.subrange(0, i as int));
            assert(all.subrange(0, i + 1).last() == changed@[i as int].deep_view());
        }
        let ghost before = out.deep_view();
        if let Some(update) = flag_update_from_items(&changed[i].items) {
            let ghost last = update.deep_view();
            if !is_among_envelopes(&update.id, new) && !is_among_uids(&update.id, vanished) {
                out.push(update);
                proof {
                    assert(out.deep_view() =~= before.push(last));
                }
            }
        }
        i = i + 1;
    }
    proof {
        assert(all.subrange(0, all.len() as int) =~= all);
    }
    out
}

fn highest_uid(envelopes: &Vec<Envelope>, low: u32) -> (r: u32)
    ensures
        r == top_uid(envelopes.deep_view(), low),
{
    let mut top: u32 = low;
    let ghost all = envelopes.deep_view();
    proof {
        assert(all.subrange(0, 0) =~= seq![]);
    }
    let mut i: usize = 0;
    while i < envelopes.len()
        invariant
            i <= envelopes@.len(),
            all == envelopes.deep_view(),
            top == top_uid(all.subrange(0, i as int), low),
        decreases envelopes@.len() - i,
    {
        proof {
            assert(all.subrange(0, i + 1).drop_last() =~= all.subrange(0, i as int));
            assert(all.subrange(0, i + 1).last() == envelopes@[i as int].deep_view());
        }
        if let Some(uid) = parse_number(&envelopes[i].id) {
            if uid > top {
                top = uid;
            }
        }
        i = i + 1;
    }
    proof {
        assert(all.subrange(0, all.len() as int) =~= all);
    }
    top
}

fn item_uid(items: &Vec<FetchItem>) -> (r: u32)
    ensures
        r == top_item_uid(items.deep_view()),
{
    let mut top: u32 = 0;
    let ghost all = items.deep_view();
    proof {
        assert(all.subrange(0, 0) =~= seq![]);
    }
    let mut i: usize = 0;
    while i < items.len()
        invariant
            i <= items@.len(),
            all == items.deep_view(),
            top == top_item_uid(all.subrange(0, i as int)),
        decreases items@.len() - i,
    {
        proof {
            assert(all.subrange(0, i + 1).drop_last() =~= all.subrange(0, i as int));
            assert(all.subrange(0, i + 1).last() == items@[i as int].deep_view());
        }
        if let FetchItem::Uid(uid) = &items[i] {
            if *uid > top {
                top = *uid;
            }
        }
        i = i + 1;
    }
    proof {
        assert(all.subrange(0, all.len() as int) =~= all);
    }
    top
}

fn row_uids_top(rows: &Vec<FetchRow>) -> (r: u32)
    ensures
        r == top_row_uid(rows.deep_view()),
{
    let mut top: u32 = 0;
    let ghost all = rows.deep_view();
    proof {
        assert(all.subrange(0, 0) =~= seq![]);
    }
    let mut i: usize = 0;
    while i < rows.len()
        invariant
            i <= rows@.len(),
            all == rows.deep_view(),
            top == top_row_uid(all.subrange(0, i as int)),
        decreases rows@.len() - i,
    {
        proof {
            assert(all.subrange(0, i + 1).drop_last() =~= all.subrange(0, i as int));
            assert(all.subrange(0, i + 1).last() == rows@[i as int].deep_view());
        }
        let uid: u32 = item_uid(&rows[i].items);
        if uid > top {
            top = uid;
        }
        i = i + 1;
    }
    proof {
        assert(all.subrange(0, all.len() as int) =~= all);
    }
    top
}

fn uid_texts(uids: &Vec<u32>) -> (r: Vec<String>)
    ensures
        r.deep_view() == crate::text::decimals(uids@),
{
    let mut out: Vec<String> = Vec::new();
    let mut i: usize = 0;
    while i < uids.len()
        invariant
            i <= uids@.len(),
            out@.len() == i,
            forall|j: int| 0 <= j < i ==> (#[trigger] out@[j])@ == decimal(uids@[j] as nat),
        decreases uids@.len() - i,
    {
        out.push(decimal_of(uids[i] as u64));
        i = i + 1;
    }
    proof {
        assert(out.deep_view() =~= crate::text::decimals(uids@));
    }
    out
}

/// The delta since a checkpoint, from what changed and what was fetched.
pub fn incremental(cached: ImapState, data: &QresyncData, rows: &Vec<FetchRow>) -> (r: EnvelopeDiff)
    ensures
        r.deep_view() == delta(cached, data.deep_view(), rows.deep_view()),
{
    let new_envelopes = fresh_envelopes(rows, cached.highest_uid, &data.vanished);
    let flag_updates = flag_updates(&data.changed, &new_envelopes, &data.vanished);
    let vanished_ids = uid_texts(&data.vanished);
    let state = ImapState {
        uid_validity: cached.uid_validity,
        highest_mod_seq: match data.highest_mod_seq {
            Some(n) => n,
            None => cached.highest_mod_seq,
        },
        highest_uid: highest_uid(&new_envelopes, cached.highest_uid),
    };
    EnvelopeDiff::Incremental { new_state: state.encode(), flag_updates, new_envelopes, vanished_ids }
}

/// The checkpoint of a mailbox that is listed anew.
pub fn full_list(data: BaselineData, rows: &Vec<FetchRow>) -> (r: EnvelopeDiff)
    ensures
        r.deep_view() == baseline(data, rows.deep_view()),
{
    match data.uid_validity {
        Some(uid_validity) => {
            let state = ImapState {
                uid_validity,
                highest_mod_seq: match data.highest_mod_seq {
                    Some(n) => n,
                    None => 0,
                },
                highest_uid: row_uids_top(rows),
            };
            EnvelopeDiff::FullListRequired { new_state: Some(state.encode()) }
        },
        None => EnvelopeDiff::FullListRequired { new_state: None },
    }
}

/// What the driver does next.
pub enum DiffAction {
    /// `SELECT <mailbox> (QRESYNC (<uid_validity> <highest_mod_seq>))`.
    SelectQresync { uid_validity: u32, highest_mod_seq: u64 },
    /// `SELECT <mailbox>`.
    Select,
    /// `UID FETCH <window>` for the items of a listing.
    FetchNew { window: String },
    /// `FETCH * (UID)`.
    FetchHighest,
    /// The comparison is over.
    Finish(EnvelopeDiff),
}

/// What a [`DiffAction`] says.
pub enum DiffActionView {
    SelectQresync { uid_validity: u32, highest_mod_seq: u64 },
    Select,
    FetchNew { window: Seq<char> },
    FetchHighest,
    Finish(EnvelopeDiffView),
}

impl DeepView for DiffAction {
    type V = DiffActionView;

    open spec fn deep_view(&self) -> DiffActionView {
        match self {
            DiffAction::SelectQresync { uid_validity, highest_mod_seq } => {
                DiffActionView::SelectQresync {
                    uid_validity: *uid_validity,
                    highest_mod_seq: *highest_mod_seq,
                }
            },
            DiffAction::Select => DiffActionView::Select,
            DiffAction::FetchNew { window } => DiffActionView::FetchNew { window: window@ },
            DiffAction::FetchHighest => DiffActionView::FetchHighest,
            DiffAction::Finish(diff) => DiffActionView::Finish(diff.deep_view()),
        }
    }
}

/// What an action of the driver came to.
pub enum DiffEvent {
    /// The QRESYNC select, `None` where it failed.
    Resynced(Option<QresyncData>),
    Selected(BaselineData),
    Fetched(Vec<FetchRow>),
}

/// Where a comparison stands.
#[allow(inconsistent_fields)]
pub enum ImapDiff {
    Resyncing { cached: ImapState },
    FetchingNew { cached: ImapState, data: QresyncData },
    Selecting,
    FetchingHighest { data: BaselineData },
    Done,
}

/// Why an event is refused: the driver had been asked for something else.
#[derive(Debug)]
pub struct UnexpectedEvent;

/// The checkpoint to compare with, if the stored bytes hold a usable one.
pub open spec fn usable(stored: Option<Seq<u8>>) -> Option<ImapState> {
    match stored {
        Some(bytes) => match ImapState::decoded(bytes) {
            Some(state) => if state.uid_validity == 0 {
                None
            } else {
                Some(state)
            },
            None => None,
        },
        None => None,
    }
}

/// The stored bytes, if there are any.
pub open spec fn stored(state: Option<&[u8]>) -> Option<Seq<u8>> {
    match state {
        Some(bytes) => Some(bytes@),
        None => None,
    }
}

/// What a comparison begins with: without QRESYNC a full listing, without a
/// usable checkpoint a baseline.
pub open spec fn begins(
    qresync: bool,
    state: Option<Seq<u8>>,
    diff: ImapDiff,
    action: DiffActionView,
) -> bool {
    if !qresync {
        diff is Done && action == DiffActionView::Finish(
            EnvelopeDiffView::FullListRequired { new_state: None },
        )
    } else {
        match usable(state) {
            Some(cached) => diff == (ImapDiff::Resyncing { cached }) && action
                == (DiffActionView::SelectQresync {
                uid_validity: cached.uid_validity,
                highest_mod_seq: cached.highest_mod_seq,
            }),
            None => diff is Selecting && action is Select,
        }
    }
}

/// What an event leads to.
pub open spec fn proceeds(pre: ImapDiff, event: DiffEvent, post: ImapDiff, action: DiffActionView) -> bool {
    match (pre, event) {
        (ImapDiff::Resyncing { cached }, DiffEvent::Resynced(data)) => match data {
            Some(data) => if data.uid_validity is Some && data.uid_validity->0 != cached.uid_validity {
                post is Selecting && action is Select
            } else {
                match window_above(cached.highest_uid) {
                    Some(window) => post == (ImapDiff::FetchingNew { cached, data }) && action
                        == (DiffActionView::FetchNew { window }),
                    None => post is Done && action == DiffActionView::Finish(
                        delta(cached, data.deep_view(), seq![]),
                    ),
                }
            },
            None => post is Selecting && action is Select,
        },
        (ImapDiff::FetchingNew { cached, data }, DiffEvent::Fetched(rows)) => post is Done && action
            == DiffActionView::Finish(delta(cached, data.deep_view(), rows.deep_view())),
        (ImapDiff::Selecting, DiffEvent::Selected(data)) => if data.uid_validity is None
            || data.exists is None || data.exists == Some(0u32) {
            post is Done && action == DiffActionView::Finish(baseline(data, seq![]))
        } else {
            post == (ImapDiff::FetchingHighest { data }) && action is FetchHighest
        },
        (ImapDiff::FetchingHighest { data }, DiffEvent::Fetched(rows)) => post is Done && action
            == DiffActionView::Finish(baseline(data, rows.deep_view())),
        _ => false,
    }
}

/// Whether an event answers what the driver had been asked for.
pub open spec fn answers(diff: ImapDiff, event: DiffEvent) -> bool {
    match (diff, event) {
        (ImapDiff::Resyncing { .. }, DiffEvent::Resynced(_)) => true,
        (ImapDiff::FetchingNew { .. }, DiffEvent::Fetched(_)) => true,
        (ImapDiff::Selecting, DiffEvent::Selected(_)) => true,
        (ImapDiff::FetchingHighest { .. }, DiffEvent::Fetched(_)) => true,
        _ => false,
    }
}

impl ImapDiff {
    /// Begins a comparison with the checkpoint in `state`. `qresync` says
    /// whether the server has that capability.
    pub fn start(qresync: bool, state: Option<&[u8]>) -> (r: (ImapDiff, DiffAction))
        ensures
            begins(qresync, stored(state), r.0, r.1.deep_view()),
    {
        if !qresync {
            return (
                ImapDiff::Done,
                DiffAction::Finish(EnvelopeDiff::FullListRequired { new_state: None }),
            );
        }
        let cached = match state {
            Some(bytes) => ImapState::decode(bytes),
            None => None,
        };
        match cached {
            Some(cached) if cached.uid_validity != 0 => (
                ImapDiff::Resyncing { cached },
                DiffAction::SelectQresync {
                    uid_validity: cached.uid_validity,
                    highest_mod_seq: cached.highest_mod_seq,
                },
            ),
            _ => (ImapDiff::Selecting, DiffAction::Select),
        }
    }

    /// Takes in what an action came to.
    pub fn step(self, event: DiffEvent) -> (r: Result<(ImapDiff, DiffAction), UnexpectedEvent>)
        ensures
            match r {
                Ok((post, action)) => answers(self, event) && proceeds(
                    self,
                    event,
                    post,
                    action.deep_view(),
                ),
                Err(_) => !answers(self, event),
            },
    {
        let none: Vec<FetchRow> = Vec::new();
        proof {
            assert(none.deep_view() =~= seq![]);
        }
        match (self, event) {
            (ImapDiff::Resyncing { cached }, DiffEvent::Resynced(Some(data))) => {
                let same = match data.uid_validity {
                    Some(uid_validity) => uid_validity == cached.uid_validity,
                    None => true,
                };
                if !same {
                    return Ok((ImapDiff::Selecting, DiffAction::Select));
                }
                match new_message_window(cached.highest_uid) {
                    Some(window) => Ok(
                        (ImapDiff::FetchingNew { cached, data }, DiffAction::FetchNew { window }),
                    ),
                    None => Ok((ImapDiff::Done, DiffAction::Finish(incremental(cached, &data, &none)))),
                }
            },
            (ImapDiff::Resyncing { .. }, DiffEvent::Resynced(None)) => Ok(
                (ImapDiff::Selecting, DiffAction::Select),
            ),
            (ImapDiff::FetchingNew { cached, data }, DiffEvent::Fetched(rows)) => Ok(
                (ImapDiff::Done, DiffAction::Finish(incremental(cached, &data, &rows))),
            ),
            (ImapDiff::Selecting, DiffEvent::Selected(data)) => {
                let empty = match data.exists {
                    Some(n) => n == 0,
                    None => true,
                };
                if data.uid_validity.is_none() || empty {
                    Ok((ImapDiff::Done, DiffAction::Finish(full_list(data, &none))))
                } else {
                    Ok((ImapDiff::FetchingHighest { data }, DiffAction::FetchHighest))
                }
            },
            (ImapDiff::FetchingHighest { data }, DiffEvent::Fetched(rows)) => Ok(
                (ImapDiff::Done, DiffAction::Finish(full_list(data, &rows))),
            ),
            _ => Err(UnexpectedEvent),
        }
    }
}

/// The UID of a response: the one it gives last.
pub open spec fn response_uid(items: Seq<FetchItemView>) -> Option<u32> {
    if exists|k: int| #[trigger] speaks_last(items, k, is_uid()) {
        let k = choose|k: int| #[trigger] speaks_last(items, k, is_uid());
        Some(items[k]->Uid_0)
    } else {
        None
    }
}

/// Whether a fetched response is of a message that is new since the mark and
/// still there.
pub open spec fn arrived(row: FetchRowView, high: u32, vanished: Seq<u32>) -> bool {
    response_uid(row.items) matches Some(uid) && uid > high && !vanished.contains(uid)
}

proof fn lemma_silent_or_speaks(items: Seq<FetchItemView>)
    ensures
        silent(items, is_uid()) || exists|k: int| #[trigger] speaks_last(items, k, is_uid()),
    decreases items.len(),
{
    if items.len() > 0 {
        let last = items.len() - 1;
        if items[last] is Uid {
            assert(speaks_last(items, last, is_uid()));
        } else {
            let most = items.drop_last();
            lemma_silent_or_speaks(most);
            if silent(most, is_uid()) {
                assert forall|j: int| 0 <= j < items.len() implies !is_uid()(#[trigger] items[j]) by {
                    if j < last {
                        assert(most[j] == items[j]);
                    }
                }
            } else {
                let k = choose|k: int| #[trigger] speaks_last(most, k, is_uid());
                assert(most[k] == items[k]);
                assert forall|j: int| k < j < items.len() implies !is_uid()(#[trigger] items[j]) by {
                    if j < last {
                        assert(most[j] == items[j]);
                    }
                }
                assert(speaks_last(items, k, is_uid()));
            }
        }
    }
}

proof fn lemma_arrived(row: FetchRowView, high: u32, vanished: Seq<u32>)
    ensures
        ({
            let id = envelope_of(0, row.items).id;
            arrived(row, high, vanished) <==> above(id, high) && !among_uids(id, vanished)
        }),
{
    let id = envelope_of(0, row.items).id;
    lemma_silent_or_speaks(row.items);
    match response_uid(row.items) {
        Some(uid) => {
            let k = choose|k: int| #[trigger] speaks_last(row.items, k, is_uid());
            law_id_is_the_uid(0, row.items, k);
            law_decimal_reads_back(uid);
            if vanished.contains(uid) {
                let i = choose|i: int| 0 <= i < vanished.len() && vanished[i] == uid;
                assert(decimal(vanished[i] as nat) == id);
            }
            if among_uids(id, vanished) {
                let i = choose|i: int| 0 <= i < vanished.len() && decimal(#[trigger] vanished[i] as nat) == id;
                law_decimal_reads_back(vanished[i]);
                assert(vanished[i] == uid);
            }
        },
        None => {
            law_id_is_the_uid(0, row.items, 0);
            law_decimal_reads_back(0);
        },
    }
}

/// The new envelopes of a delta are those of all the fetched responses whose
/// message is new since the checkpoint and still there: none of them is left
/// out, none comes twice, no other is told, and they stay in order.
pub proof fn law_new_envelopes_are_complete(cached: ImapState, data: QresyncView, rows: Seq<FetchRowView>)
    ensures
        delta(cached, data, rows) matches EnvelopeDiffView::Incremental { new_envelopes, .. }
            && new_envelopes == rows.filter(
            |row: FetchRowView| arrived(row, cached.highest_uid, data.vanished),
        ).map_values(|row: FetchRowView| envelope_of(0, row.items)),
{
    lemma_fresh_filters(rows, cached.highest_uid, data.vanished);
}

proof fn lemma_fresh_filters(rows: Seq<FetchRowView>, high: u32, vanished: Seq<u32>)
    ensures
        fresh(rows, high, vanished) == rows.filter(
            |row: FetchRowView| arrived(row, high, vanished),
        ).map_values(|row: FetchRowView| envelope_of(0, row.items)),
    decreases rows.len(),
{
    reveal(Seq::filter);
    let keep = |row: FetchRowView| arrived(row, high, vanished);
    let read = |row: FetchRowView| envelope_of(0, row.items);
    if rows.len() == 0 {
        assert(fresh(rows, high, vanished) =~= rows.filter(keep).map_values(read));
    } else {
        lemma_fresh_filters(rows.drop_last(), high, vanished);
        lemma_arrived(rows.last(), high, vanished);
        let before = rows.drop_last().filter(keep);
        assert(before.push(rows.last()).map_values(read) =~= before.map_values(read).push(
            read(rows.last()),
        ));
    }
}

/// Each response that is of a new message has its envelope among the new
/// ones.
pub proof fn law_no_arrival_is_lost(cached: ImapState, data: QresyncView, rows: Seq<FetchRowView>, i: int)
    requires
        0 <= i < rows.len(),
        arrived(rows[i], cached.highest_uid, data.vanished),
    ensures
        delta(cached, data, rows) matches EnvelopeDiffView::Incremental { new_envelopes, .. }
            && new_envelopes.contains(envelope_of(0, rows[i].items)),
{
    law_new_envelopes_are_complete(cached, data, rows);
    let keep = |row: FetchRowView| arrived(row, cached.highest_uid, data.vanished);
    let read = |row: FetchRowView| envelope_of(0, row.items);
    rows.lemma_filter_contains(keep, i);
    let kept = rows.filter(keep);
    let k = choose|k: int| 0 <= k < kept.len() && kept[k] == rows[i];
    assert(kept.map_values(read)[k] == read(rows[i]));
}

/// The flags that a response gives last.
pub open spec fn response_flags(items: Seq<FetchItemView>) -> Option<Seq<FetchFlagView>> {
    if exists|k: int| #[trigger] speaks_last(items, k, is_flags()) {
        let k = choose|k: int| #[trigger] speaks_last(items, k, is_flags());
        Some(items[k]->Flags_0)
    } else {
        None
    }
}

proof fn lemma_last_uid(items: Seq<FetchItemView>, k: int)
    ensures
        speaks_last(items, k, is_uid()) ==> last_uid_flags(items).0 == Some(items[k]->Uid_0),
        silent(items, is_uid()) ==> last_uid_flags(items).0 is None,
        speaks_last(items, k, is_flags()) ==> last_uid_flags(items).1 == Some(
            flags_of(items[k]->Flags_0),
        ),
        silent(items, is_flags()) ==> last_uid_flags(items).1 is None,
    decreases items.len(),
{
    if items.len() > 0 {
        let most = items.drop_last();
        lemma_last_uid(most, k);
        assert(items[items.len() - 1] == items.last());
        if k < items.len() - 1 {
            if speaks_last(items, k, is_uid()) {
                assert(most[k] == items[k]);
                assert forall|j: int| k < j < most.len() implies !is_uid()(#[trigger] most[j]) by {
                    assert(items[j] == most[j]);
                }
            }
            if speaks_last(items, k, is_flags()) {
                assert(most[k] == items[k]);
                assert forall|j: int| k < j < most.len() implies !is_flags()(#[trigger] most[j]) by {
                    assert(items[j] == most[j]);
                }
            }
        }
        if silent(items, is_uid()) {
            assert forall|j: int| 0 <= j < most.len() implies !is_uid()(#[trigger] most[j]) by {
                assert(items[j] == most[j]);
            }
        }
        if silent(items, is_flags()) {
            assert forall|j: int| 0 <= j < most.len() implies !is_flags()(#[trigger] most[j]) by {
                assert(items[j] == most[j]);
            }
        }
    }
}

proof fn lemma_silent_or_flagged(items: Seq<FetchItemView>)
    ensures
        silent(items, is_flags()) || exists|k: int| #[trigger] speaks_last(items, k, is_flags()),
    decreases items.len(),
{
    if items.len() > 0 {
        let last = items.len() - 1;
        if items[last] is Flags {
            assert(speaks_last(items, last, is_flags()));
        } else {
            let most = items.drop_last();
            lemma_silent_or_flagged(most);
            if silent(most, is_flags()) {
                assert forall|j: int| 0 <= j < items.len() implies !is_flags()(#[trigger] items[j]) by {
                    if j < last {
                        assert(most[j] == items[j]);
                    }
                }
            } else {
                let k = choose|k: int| #[trigger] speaks_last(most, k, is_flags());
                assert(most[k] == items[k]);
                assert forall|j: int| k < j < items.len() implies !is_flags()(#[trigger] items[j]) by {
                    if j < last {
                        assert(most[j] == items[j]);
                    }
                }
                assert(speaks_last(items, k, is_flags()));
            }
        }
    }
}

/// A changed message is told exactly when its response gives both a UID and
/// flags; then under that UID, with just those flags.
pub proof fn law_update_tells_the_flags(items: Seq<FetchItemView>, flag: Seq<char>)
    ensures
        flag_update(items) is Some <==> response_uid(items) is Some && response_flags(items) is Some,
        flag_update(items) matches Some(update) ==> {
            &&& response_uid(items) matches Some(uid) && number(update.id) == Some(uid) && update.id
                == decimal(uid as nat)
            &&& response_flags(items) matches Some(flags) && (update.flags.contains(flag) <==> exists|
                i: int,
            |
                0 <= i < flags.len() && (#[trigger] flags[i] matches FetchFlagView::Flag(raw) && kept(raw)
                    == flag))
        },
{
    lemma_silent_or_speaks(items);
    lemma_silent_or_flagged(items);
    if silent(items, is_uid()) {
        lemma_last_uid(items, 0);
    } else {
        let k = choose|k: int| #[trigger] speaks_last(items, k, is_uid());
        lemma_last_uid(items, k);
        law_decimal_reads_back(items[k]->Uid_0);
    }
    if silent(items, is_flags()) {
        lemma_last_uid(items, 0);
    } else {
        let k = choose|k: int| #[trigger] speaks_last(items, k, is_flags());
        lemma_last_uid(items, k);
        law_flags_are_those_given(items[k]->Flags_0, flag);
    }
}

/// Every changed message that is neither new nor gone has its update in the
/// delta, in the order of the responses, and there are no other updates.
pub proof fn law_updates_are_complete(cached: ImapState, data: QresyncView, rows: Seq<FetchRowView>)
    ensures
        delta(cached, data, rows) matches EnvelopeDiffView::Incremental {
            flag_updates,
            new_envelopes,
            vanished_ids,
            ..
        } && flag_updates == data.changed.map_values(
            |row: FetchRowView| flag_update(row.items),
        ).filter(
            |update: Option<FlagUpdateView>|
                update matches Some(update) && !vanished_ids.contains(update.id) && !exists|i: int|
                    0 <= i < new_envelopes.len() && (#[trigger] new_envelopes[i]).id == update.id,
        ).map_values(|update: Option<FlagUpdateView>| update->0),
{
    lemma_updates_filter(
        data.changed,
        fresh(rows, cached.highest_uid, data.vanished),
        data.vanished,
    );
}

proof fn lemma_updates_filter(changed: Seq<FetchRowView>, new: Seq<EnvelopeView>, vanished: Seq<u32>)
    ensures
        updates(changed, new, vanished) == changed.map_values(
            |row: FetchRowView| flag_update(row.items),
        ).filter(
            |update: Option<FlagUpdateView>|
                update matches Some(update) && !crate::text::decimals(vanished).contains(update.id)
                    && !exists|i: int| 0 <= i < new.len() && (#[trigger] new[i]).id == update.id,
        ).map_values(|update: Option<FlagUpdateView>| update->0),
    decreases changed.len(),
{
    reveal(Seq::filter);
    let gone = crate::text::decimals(vanished);
    let read = |row: FetchRowView| flag_update(row.items);
    let keep = |update: Option<FlagUpdateView>|
        update matches Some(update) && !crate::text::decimals(vanished).contains(update.id)
            && !exists|i: int| 0 <= i < new.len() && (#[trigger] new[i]).id == update.id;
    let open = |update: Option<FlagUpdateView>| update->0;
    let all = changed.map_values(read);
    if changed.len() == 0 {
        assert(updates(changed, new, vanished) =~= all.filter(keep).map_values(open));
    } else {
        let most = changed.drop_last();
        lemma_updates_filter(most, new, vanished);
        assert(all.drop_last() =~= most.map_values(read));
        assert(all.last() == read(changed.last()));
        if let Some(update) = flag_update(changed.last().items) {
            assert(among_uids(update.id, vanished) <==> gone.contains(update.id)) by {
                if gone.contains(update.id) {
                    let i = choose|i: int| 0 <= i < gone.len() && gone[i] == update.id;
                    assert(decimal(vanished[i] as nat) == update.id);
                }
                if among_uids(update.id, vanished) {
                    let i = choose|i: int|
                        0 <= i < vanished.len() && decimal(#[trigger] vanished[i] as nat) == update.id;
                    assert(gone[i] == update.id);
                }
            }
        }
        let before = most.map_values(read).filter(keep);
        assert(before.push(all.last()).map_values(open) =~= before.map_values(open).push(
            open(all.last()),
        ));
    }
}

/// Every UID that is gone is told, and no other, in their order.
pub proof fn law_vanished_are_told(cached: ImapState, data: QresyncView, rows: Seq<FetchRowView>)
    ensures
        delta(cached, data, rows) matches EnvelopeDiffView::Incremental { vanished_ids, .. }
            && vanished_ids.len() == data.vanished.len() && forall|i: int|
            0 <= i < data.vanished.len() ==> number(#[trigger] vanished_ids[i]) == Some(data.vanished[i]),
{
    let ids = crate::text::decimals(data.vanished);
    assert forall|i: int| 0 <= i < data.vanished.len() implies number(#[trigger] ids[i]) == Some(
        data.vanished[i],
    ) by {
        law_decimal_reads_back(data.vanished[i]);
    }
}

proof fn lemma_top_is_one(envelopes: Seq<EnvelopeView>, low: u32)
    ensures
        top_uid(envelopes, low) == low || exists|i: int|
            0 <= i < envelopes.len() && number((#[trigger] envelopes[i]).id) == Some(
                top_uid(envelopes, low),
            ),
    decreases envelopes.len(),
{
    if envelopes.len() > 0 {
        let most = envelopes.drop_last();
        lemma_top_is_one(most, low);
        assert(envelopes[envelopes.len() - 1] == envelopes.last());
        if top_uid(most, low) != low {
            let i = choose|i: int|
                0 <= i < most.len() && number((#[trigger] most[i]).id) == Some(top_uid(most, low));
            assert(envelopes[i] == most[i]);
        }
    }
}

/// The checkpoint of a delta is the one to go on from: the same UIDVALIDITY,
/// the mod-sequence that the server gave or else the known one, and as mark
/// the greatest UID that is known by now, so that the next comparison finds
/// what comes after it and nothing twice.
pub proof fn law_checkpoint_goes_on(cached: ImapState, data: QresyncView, rows: Seq<FetchRowView>)
    ensures
        delta(cached, data, rows) matches EnvelopeDiffView::Incremental { new_state, new_envelopes, .. } && {
            &&& ImapState::decoded(new_state) matches Some(state)
            &&& state.uid_validity == cached.uid_validity
            &&& data.highest_mod_seq matches Some(n) ==> state.highest_mod_seq == n
            &&& data.highest_mod_seq is None ==> state.highest_mod_seq == cached.highest_mod_seq
            &&& state.highest_uid >= cached.highest_uid
            &&& forall|i: int|
                0 <= i < new_envelopes.len() ==> (number((#[trigger] new_envelopes[i]).id) matches Some(uid)
                    && cached.highest_uid < uid <= state.highest_uid)
            &&& state.highest_uid == cached.highest_uid || exists|i: int|
                0 <= i < new_envelopes.len() && number((#[trigger] new_envelopes[i]).id) == Some(
                    state.highest_uid,
                )
        },
{
    let new = fresh(rows, cached.highest_uid, data.vanished);
    let state = ImapState {
        uid_validity: cached.uid_validity,
        highest_mod_seq: match data.highest_mod_seq {
            Some(n) => n,
            None => cached.highest_mod_seq,
        },
        highest_uid: top_uid(new, cached.highest_uid),
    };
    law_checkpoint_round_trip(state);
    law_mark_rises(new, cached.highest_uid);
    lemma_top_is_one(new, cached.highest_uid);
    lemma_fresh(rows, cached.highest_uid, data.vanished);
}

proof fn lemma_top_item(items: Seq<FetchItemView>)
    ensures
        forall|i: int| 0 <= i < items.len() ==> (#[trigger] items[i] matches FetchItemView::Uid(uid) ==> uid
            <= top_item_uid(items)),
        top_item_uid(items) == 0 || exists|i: int|
            0 <= i < items.len() && #[trigger] items[i] == FetchItemView::Uid(top_item_uid(items)),
    decreases items.len(),
{
    if items.len() > 0 {
        let most = items.drop_last();
        lemma_top_item(most);
        assert(items[items.len() - 1] == items.last());
        assert forall|i: int| 0 <= i < items.len() implies (#[trigger] items[i] matches FetchItemView::Uid(
            uid,
        ) ==> uid <= top_item_uid(items)) by {
            if i < most.len() {
                assert(most[i] == items[i]);
            }
        }
        if top_item_uid(most) != 0 {
            let i = choose|i: int|
                0 <= i < most.len() && #[trigger] most[i] == FetchItemView::Uid(top_item_uid(most));
            assert(items[i] == most[i]);
        }
    }
}

proof fn lemma_top_row(rows: Seq<FetchRowView>)
    ensures
        forall|i: int, j: int|
            0 <= i < rows.len() && 0 <= j < rows[i].items.len() ==> (#[trigger] rows[i].items[j] matches FetchItemView::Uid(
                uid,
            ) ==> uid <= top_row_uid(rows)),
        top_row_uid(rows) == 0 || exists|i: int, j: int|
            0 <= i < rows.len() && 0 <= j < rows[i].items.len() && #[trigger] rows[i].items[j]
                == FetchItemView::Uid(top_row_uid(rows)),
    decreases rows.len(),
{
    if rows.len() > 0 {
        let most = rows.drop_last();
        let last = rows.last();
        let n = rows.len() - 1;
        lemma_top_row(most);
        lemma_top_item(last.items);
        assert(rows[n] == last);
        assert forall|i: int, j: int|
            0 <= i < rows.len() && 0 <= j < rows[i].items.len() implies (#[trigger] rows[i].items[j] matches FetchItemView::Uid(
            uid,
        ) ==> uid <= top_row_uid(rows)) by {
            if i < n {
                assert(most[i].items[j] == rows[i].items[j]);
            }
        }
        if top_row_uid(rows) != 0 {
            if top_item_uid(last.items) > top_row_uid(most) {
                let j = choose|j: int|
                    0 <= j < last.items.len() && #[trigger] last.items[j] == FetchItemView::Uid(
                        top_item_uid(last.items),
                    );
                assert(rows[n].items[j] == last.items[j]);
            } else {
                let (i, j) = choose|i: int, j: int|
                    0 <= i < most.len() && 0 <= j < most[i].items.len() && #[trigger] most[i].items[j]
                        == FetchItemView::Uid(top_row_uid(most));
                assert(rows[i].items[j] == most[i].items[j]);
            }
        }
    }
}

/// The checkpoint of a mailbox that is listed anew is what the server said
/// of it, with the greatest UID fetched as mark; without a UIDVALIDITY there
/// is none.
pub proof fn law_baseline_is_what_was_told(data: BaselineData, rows: Seq<FetchRowView>)
    ensures
        baseline(data, rows) matches EnvelopeDiffView::FullListRequired { new_state } && {
            &&& new_state is Some <==> data.uid_validity is Some
            &&& new_state matches Some(bytes) ==> {
                &&& ImapState::decoded(bytes) matches Some(state)
                &&& Some(state.uid_validity) == data.uid_validity
                &&& data.highest_mod_seq matches Some(n) ==> state.highest_mod_seq == n
                &&& data.highest_mod_seq is None ==> state.highest_mod_seq == 0
                &&& forall|i: int, j: int|
                    0 <= i < rows.len() && 0 <= j < rows[i].items.len()
                        ==> (#[trigger] rows[i].items[j] matches FetchItemView::Uid(uid) ==> uid
                        <= state.highest_uid)
                &&& state.highest_uid == 0 || exists|i: int, j: int|
                    0 <= i < rows.len() && 0 <= j < rows[i].items.len() && #[trigger] rows[i].items[j]
                        == FetchItemView::Uid(state.highest_uid)
            }
        },
{
    lemma_top_row(rows);
    if let Some(uid_validity) = data.uid_validity {
        law_checkpoint_round_trip(
            ImapState {
                uid_validity,
                highest_mod_seq: match data.highest_mod_seq {
                    Some(n) => n,
                    None => 0,
                },
                highest_uid: top_row_uid(rows),
            },
        );
    }
}

/// New messages are asked for from the one after the mark to the last.
pub proof fn law_window_begins_after_the_mark(high: u32)
    ensures
        window_above(high) is Some <==> high < u32::MAX,
        window_above(high) matches Some(text) ==> text_items(text) == seq![
            SetItem::Range(SetBound::Number((high + 1) as u32), SetBound::Last),
        ],
{
    if high < u32::MAX {
        lemma_range_items((high + 1) as nat, None);
    }
}

/// A comparison tells changes only against the checkpoint that was stored,
/// and only where the server has QRESYNC and keeps the UIDVALIDITY; in every
/// other case it asks for a listing. It never goes on from a checkpoint that
/// cannot be read.
pub proof fn law_changes_only_since_the_checkpoint(
    qresync: bool,
    bytes: Option<Seq<u8>>,
    diff: ImapDiff,
    action: DiffActionView,
)
    requires
        begins(qresync, bytes, diff, action),
    ensures
        diff matches ImapDiff::Resyncing { cached } ==> {
            &&& qresync && bytes is Some && cached.encoded() == bytes->0
            &&& action == (DiffActionView::SelectQresync {
                uid_validity: cached.uid_validity,
                highest_mod_seq: cached.highest_mod_seq,
            })
            &&& cached.uid_validity != 0
        },
        action matches DiffActionView::Finish(result) ==> !qresync && result
            == (EnvelopeDiffView::FullListRequired { new_state: None }),
        !(diff is FetchingNew) && !(diff is FetchingHighest),
        qresync ==> !(diff is Done),
        qresync && (bytes matches Some(b) && exists|state: ImapState|
            #[trigger] state.encoded() == b && state.uid_validity != 0) ==> diff is Resyncing,
{
    if let Some(b) = bytes {
        law_checkpoint_bytes(b);
        if exists|state: ImapState| #[trigger] state.encoded() == b && state.uid_validity != 0 {
            let state = choose|state: ImapState| #[trigger] state.encoded() == b && state.uid_validity != 0;
            law_checkpoint_round_trip(state);
        }
    }
}

/// Where the UIDVALIDITY has changed, or the QRESYNC select fails, nothing is
/// told as changed: the mailbox is opened anew. Else what is told is the
/// delta of just what the server answered, and a listing comes only with the
/// checkpoint of the mailbox as it was opened.
pub proof fn law_comparison_keeps_to_the_answers(
    pre: ImapDiff,
    event: DiffEvent,
    post: ImapDiff,
    action: DiffActionView,
)
    requires
        proceeds(pre, event, post, action),
    ensures
        pre matches ImapDiff::Resyncing { cached } ==> (event matches DiffEvent::Resynced(data) && {
            let moved = data is None || (data->0.uid_validity matches Some(now) && now
                != cached.uid_validity);
            &&& moved ==> post is Selecting && action is Select
            &&& !moved ==> !(post is Selecting) && !(action is Select)
            &&& post matches ImapDiff::FetchingNew { cached: c, data: d } ==> c == cached && Some(d)
                == data
        }),
        action matches DiffActionView::Finish(result) ==> post is Done && match pre {
            ImapDiff::Resyncing { cached } => cached.highest_uid == u32::MAX && result is Incremental,
            ImapDiff::FetchingNew { cached, data } => event matches DiffEvent::Fetched(rows) && result
                == delta(cached, data.deep_view(), rows.deep_view()),
            ImapDiff::Selecting => event matches DiffEvent::Selected(data) && result == baseline(
                data,
                seq![],
            ),
            ImapDiff::FetchingHighest { data } => event matches DiffEvent::Fetched(rows) && result
                == baseline(data, rows.deep_view()),
            ImapDiff::Done => false,
        },
        pre is Selecting && action is FetchHighest ==> (event matches DiffEvent::Selected(data)
            && data.exists matches Some(n) && n > 0 && post == (ImapDiff::FetchingHighest { data })),
{
}

proof fn lemma_le_place(n: nat, k: nat, i: nat)
    requires
        i < k,
    ensures
        le_bytes(n, k).len() == k,
        le_bytes(n, k)[i as int] as nat == (n / le_limit(i)) % 256,
        le_limit(i) > 0,
    decreases k,
{
    let rest = le_bytes(n / 256, (k - 1) as nat);
    lemma_le_len(n / 256, (k - 1) as nat);
    if i == 0 {
        assert(le_limit(0) == 1);
    } else {
        lemma_le_place(n / 256, (k - 1) as nat, (i - 1) as nat);
        vstd::arithmetic::div_mod::lemma_div_denominator(
            n as int,
            256,
            le_limit((i - 1) as nat) as int,
        );
        assert(le_limit(i) == 256 * le_limit((i - 1) as nat));
        assert(le_bytes(n, k)[i as int] == rest[i - 1]);
    }
}

proof fn lemma_le_len(n: nat, k: nat)
    ensures
        le_bytes(n, k).len() == k,
    decreases k,
{
    if k > 0 {
        lemma_le_len(n / 256, (k - 1) as nat);
    }
}

/// A checkpoint is written byte by byte, the low ones first: UIDVALIDITY in
/// the first four, the mod-sequence in the next eight, the mark in the last
/// four.
pub proof fn law_checkpoint_layout(state: ImapState, i: nat)
    ensures
        i < 4 ==> state.encoded()[i as int] as nat == (state.uid_validity as nat / le_limit(i)) % 256,
        i < 8 ==> state.encoded()[4 + i as int] as nat == (state.highest_mod_seq as nat / le_limit(i)) % 256,
        i < 4 ==> state.encoded()[12 + i as int] as nat == (state.highest_uid as nat / le_limit(i)) % 256,
        le_limit(0) == 1,
        le_limit(i + 1) == 256 * le_limit(i),
{
    lemma_le_len(state.uid_validity as nat, 4);
    lemma_le_len(state.highest_mod_seq as nat, 8);
    lemma_le_len(state.highest_uid as nat, 4);
    if i < 4 {
        lemma_le_place(state.uid_validity as nat, 4, i);
        lemma_le_place(state.highest_uid as nat, 4, i);
    }
    if i < 8 {
        lemma_le_place(state.highest_mod_seq as nat, 8, i);
    }
}

} // verus!
