//! Shared helpers of the Gmail coroutines: system labels, flag and label
//! translation, address parsing, and Gmail message to shared [`Envelope`]
//! conversion.
use vstd::prelude::*;

use crate::address::{Address, AddressView};
use crate::date::{header_date, parse_rfc2822_date};
use crate::envelope::{message_id_of, normalize_message_id, Envelope, EnvelopeView};
use crate::flag::types::{law_spelling_parses_back, Flag, FlagOp, FlagSet, IanaFlag};
use crate::text::{
    ascii_lower, ascii_lower_of, chars_of, holds_text, last_position, last_position_of,
    law_last_position, law_only_blanks_are_cut_off, law_split_joined, lemma_last_position,
    lemma_position, lemma_position_is, position, position_from, same_text, split,
    split_of, text_of, trim_of, trimmed, unquote_of, unquoted,
};

verus! {

/// System label marking an unread message; its absence means the message has
/// been seen.
pub const UNREAD: &'static str = "UNREAD";

/// System label backing the shared `\Flagged` flag.
pub const STARRED: &'static str = "STARRED";

/// System label backing the shared `$Important` flag.
pub const IMPORTANT: &'static str = "IMPORTANT";

/// System label backing the shared `\Draft` flag.
pub const DRAFT: &'static str = "DRAFT";

/// System label backing the shared `$Junk` flag.
pub const SPAM: &'static str = "SPAM";

/// System label of the messages to be deleted.
pub const TRASH: &'static str = "TRASH";

/// Whether listing `mailbox` requires `includeSpamTrash`: Gmail hides SPAM
/// and TRASH messages from a listing unless asked.
pub fn include_spam_trash(mailbox: &str) -> (r: bool)
    ensures
        r == (mailbox@ == SPAM@ || mailbox@ == TRASH@),
{
    same_text(mailbox, SPAM) || same_text(mailbox, TRASH)
}

/// `set`, with one more flag if `wanted`.
pub open spec fn with_flag(set: Set<Seq<char>>, wanted: bool, flag: IanaFlag) -> Set<Seq<char>> {
    if wanted {
        set.insert(flag.spelling())
    } else {
        set
    }
}

/// The flags of a message that has these labels.
pub open spec fn label_flags(labels: Set<Seq<char>>) -> Set<Seq<char>> {
    let none = Set::<Seq<char>>::empty();
    let seen = with_flag(none, !labels.contains(UNREAD@), IanaFlag::Seen);
    let flagged = with_flag(seen, labels.contains(STARRED@), IanaFlag::Flagged);
    let important = with_flag(flagged, labels.contains(IMPORTANT@), IanaFlag::Important);
    let draft = with_flag(important, labels.contains(DRAFT@), IanaFlag::Draft);
    with_flag(draft, labels.contains(SPAM@), IanaFlag::Junk)
}

/// Derives the shared flags from a message's label ids. Only the flag-like
/// system labels count: INBOX, SENT, custom labels and categories are
/// mailboxes, not flags.
pub fn flags_from_labels(label_ids: &Vec<String>) -> (r: FlagSet)
    ensures
        r@ == label_flags(label_ids.deep_view().to_set()),
{
    let mut flags = FlagSet::new();
    if !holds_text(label_ids, UNREAD) {
        flags.insert(Flag::from_iana(IanaFlag::Seen));
    }
    if holds_text(label_ids, STARRED) {
        flags.insert(Flag::from_iana(IanaFlag::Flagged));
    }
    if holds_text(label_ids, IMPORTANT) {
        flags.insert(Flag::from_iana(IanaFlag::Important));
    }
    if holds_text(label_ids, DRAFT) {
        flags.insert(Flag::from_iana(IanaFlag::Draft));
    }
    if holds_text(label_ids, SPAM) {
        flags.insert(Flag::from_iana(IanaFlag::Junk));
    }
    flags
}

/// The label of a flag, and whether the flag is its absence; `None` where
/// Gmail has no equivalent.
pub open spec fn flag_label(raw: Seq<char>) -> Option<(Seq<char>, bool)> {
    match IanaFlag::parsed(raw) {
        Some(IanaFlag::Seen) => Some((UNREAD@, true)),
        Some(IanaFlag::Flagged) => Some((STARRED@, false)),
        Some(IanaFlag::Important) => Some((IMPORTANT@, false)),
        Some(IanaFlag::Draft) => Some((DRAFT@, false)),
        Some(IanaFlag::Junk) => Some((SPAM@, false)),
        Some(_) => None,
        None => Some((raw, false)),
    }
}

/// Maps a shared flag to its Gmail label and whether it is inverted; `None`
/// when Gmail has no equivalent and the flag is dropped.
pub fn label_of(flag: &Flag) -> (r: Option<(String, bool)>)
    ensures
        r.deep_view() == flag_label(flag@),
{
    match flag.iana() {
        Some(IanaFlag::Seen) => Some((UNREAD.to_owned(), true)),
        Some(IanaFlag::Flagged) => Some((STARRED.to_owned(), false)),
        Some(IanaFlag::Important) => Some((IMPORTANT.to_owned(), false)),
        Some(IanaFlag::Draft) => Some((DRAFT.to_owned(), false)),
        Some(IanaFlag::Junk) => Some((SPAM.to_owned(), false)),
        Some(_) => None,
        None => Some((flag.raw().to_owned(), false)),
    }
}

/// The flag of a label, and whether it is the label's absence; `None` where
/// the label is no flag.
pub open spec fn label_flag(label: Seq<char>) -> Option<(IanaFlag, bool)> {
    if label == UNREAD@ {
        Some((IanaFlag::Seen, true))
    } else if label == STARRED@ {
        Some((IanaFlag::Flagged, false))
    } else if label == IMPORTANT@ {
        Some((IanaFlag::Important, false))
    } else if label == DRAFT@ {
        Some((IanaFlag::Draft, false))
    } else if label == SPAM@ {
        Some((IanaFlag::Junk, false))
    } else {
        None
    }
}

/// Maps a flag-like system label to its shared flag and whether it is
/// inverted; `None` when the label is not a flag (INBOX, custom labels,
/// categories).
pub fn flag_of_label(label: &str) -> (r: Option<(Flag, bool)>)
    ensures
        match r {
            Some((flag, inverted)) => label_flag(label@) matches Some((own, inv)) && flag@
                == own.spelling() && inverted == inv,
            None => label_flag(label@) is None,
        },
{
    if same_text(label, UNREAD) {
        Some((Flag::from_iana(IanaFlag::Seen), true))
    } else if same_text(label, STARRED) {
        Some((Flag::from_iana(IanaFlag::Flagged), false))
    } else if same_text(label, IMPORTANT) {
        Some((Flag::from_iana(IanaFlag::Important), false))
    } else if same_text(label, DRAFT) {
        Some((Flag::from_iana(IanaFlag::Draft), false))
    } else if same_text(label, SPAM) {
        Some((Flag::from_iana(IanaFlag::Junk), false))
    } else {
        None
    }
}

/// The labels of those flags that are the presence of one (or, `inverted`,
/// the absence), in the order of the flags.
pub open spec fn labels_of(flags: Seq<Flag>, inverted: bool) -> Seq<Seq<char>>
    decreases flags.len(),
{
    if flags.len() == 0 {
        seq![]
    } else {
        let before = labels_of(flags.drop_last(), inverted);
        match flag_label(flags.last()@) {
            Some((label, own)) => if own == inverted {
                before.push(label)
            } else {
                before
            },
            None => before,
        }
    }
}

/// Whether a registered flag is among the flags.
pub open spec fn has_flag(flags: Seq<Flag>, flag: IanaFlag) -> bool {
    exists|i: int| 0 <= i < flags.len() && (#[trigger] flags[i]).is(flag)
}

/// The custom keywords among flags, in their order.
pub open spec fn customs(flags: Seq<Flag>) -> Seq<Seq<char>>
    decreases flags.len(),
{
    if flags.len() == 0 {
        seq![]
    } else if IanaFlag::parsed(flags.last()@) is None {
        customs(flags.drop_last()).push(flags.last()@)
    } else {
        customs(flags.drop_last())
    }
}

/// The labels to add and those to remove.
pub type Patch = (Seq<Seq<char>>, Seq<Seq<char>>);

/// A patch that drives one more label to be there or not.
pub open spec fn with_target(patch: Patch, label: Seq<char>, present: bool) -> Patch {
    if present {
        (patch.0.push(label), patch.1)
    } else {
        (patch.0, patch.1.push(label))
    }
}

/// The patch that drives each label that is a flag to be there or not.
pub open spec fn targets(flags: Seq<Flag>) -> Patch {
    let none: Patch = (seq![], seq![]);
    let seen = with_target(none, UNREAD@, !has_flag(flags, IanaFlag::Seen));
    let flagged = with_target(seen, STARRED@, has_flag(flags, IanaFlag::Flagged));
    let important = with_target(flagged, IMPORTANT@, has_flag(flags, IanaFlag::Important));
    let draft = with_target(important, DRAFT@, has_flag(flags, IanaFlag::Draft));
    with_target(draft, SPAM@, has_flag(flags, IanaFlag::Junk))
}

/// The labels to add and to remove for a change of flags.
pub open spec fn patch_of(flags: Seq<Flag>, op: FlagOp) -> Patch {
    match op {
        FlagOp::Add => (labels_of(flags, false), labels_of(flags, true)),
        FlagOp::Remove => (labels_of(flags, true), labels_of(flags, false)),
        FlagOp::Replace => (targets(flags).0 + customs(flags), targets(flags).1),
    }
}

/// The labels of flags: of those that are a label's presence, and of those
/// that are its absence.
fn split_labels(flags: &[Flag]) -> (r: (Vec<String>, Vec<String>))
    ensures
        r.0.deep_view() == labels_of(flags@, false),
        r.1.deep_view() == labels_of(flags@, true),
{
    let mut plain: Vec<String> = Vec::new();
    let mut inverse: Vec<String> = Vec::new();
    proof {
        assert(flags@.take(0) =~= seq![]);
        assert(plain.deep_view() =~= seq![]);
        assert(inverse.deep_view() =~= seq![]);
    }
    let mut i: usize = 0;
    while i < flags.len()
        invariant
            i <= flags@.len(),
            plain.deep_view() == labels_of(flags@.take(i as int), false),
            inverse.deep_view() == labels_of(flags@.take(i as int), true),
        decreases flags@.len() - i,
    {
        let ghost before = (plain.deep_view(), inverse.deep_view());
        proof {
            assert(flags@.take(i + 1).drop_last() =~= flags@.take(i as int));
            assert(flags@.take(i + 1).last() == flags@[i as int]);
        }
        if let Some((label, inverted)) = label_of(&flags[i]) {
            let ghost view = label@;
            if inverted {
                inverse.push(label);
                proof {
                    assert(inverse.deep_view() =~= before.1.push(view));
                }
            } else {
                plain.push(label);
                proof {
                    assert(plain.deep_view() =~= before.0.push(view));
                }
            }
        }
        i = i + 1;
    }
    proof {
        assert(flags@.take(flags@.len() as int) =~= flags@);
    }
    (plain, inverse)
}

/// Whether a registered flag is among the flags.
fn any_flag(flags: &[Flag], flag: IanaFlag) -> (r: bool)
    ensures
        r == has_flag(flags@, flag),
{
    let mut i: usize = 0;
    while i < flags.len()
        invariant
            i <= flags@.len(),
            forall|j: int| 0 <= j < i ==> !(#[trigger] flags@[j]).is(flag),
        decreases flags@.len() - i,
    {
        if flags[i].is_iana(flag) {
            return true;
        }
        i = i + 1;
    }
    false
}

/// Pushes `label` onto `add` or `remove` so that in the end it is there if
/// `wanted`, or not there if the label is inverted.
fn target(wanted: bool, label: &str, inverted: bool, add: &mut Vec<String>, remove: &mut Vec<String>)
    ensures
        (final(add).deep_view(), final(remove).deep_view()) == with_target(
            (old(add).deep_view(), old(remove).deep_view()),
            label@,
            wanted != inverted,
        ),
{
    let ghost was = (add.deep_view(), remove.deep_view());
    if wanted != inverted {
        add.push(label.to_owned());
        proof {
            assert(add.deep_view() =~= was.0.push(label@));
        }
    } else {
        remove.push(label.to_owned());
        proof {
            assert(remove.deep_view() =~= was.1.push(label@));
        }
    }
}

/// Translates a flag-store operation into the label ids to add and to
/// remove.
///
/// `\Seen` is the absence of `UNREAD`, so its polarity is inverted. Flags
/// with no Gmail equivalent are dropped; custom keywords are label ids.
pub fn label_patch(flags: &[Flag], op: FlagOp) -> (r: (Vec<String>, Vec<String>))
    ensures
        (r.0.deep_view(), r.1.deep_view()) == patch_of(flags@, op),
{
    match op {
        FlagOp::Add => split_labels(flags),
        FlagOp::Remove => {
            let (plain, inverse) = split_labels(flags);
            (inverse, plain)
        },
        FlagOp::Replace => {
            let mut add: Vec<String> = Vec::new();
            let mut remove: Vec<String> = Vec::new();
            proof {
                assert(add.deep_view() =~= seq![]);
                assert(remove.deep_view() =~= seq![]);
            }
            target(any_flag(flags, IanaFlag::Seen), UNREAD, true, &mut add, &mut remove);
            target(any_flag(flags, IanaFlag::Flagged), STARRED, false, &mut add, &mut remove);
            target(any_flag(flags, IanaFlag::Important), IMPORTANT, false, &mut add, &mut remove);
            target(any_flag(flags, IanaFlag::Draft), DRAFT, false, &mut add, &mut remove);
            target(any_flag(flags, IanaFlag::Junk), SPAM, false, &mut add, &mut remove);
            let ghost start = add.deep_view();
            proof {
                assert(flags@.take(0) =~= seq![]);
                assert(start + customs(flags@.take(0)) =~= start);
            }
            let mut i: usize = 0;
            while i < flags.len()
                invariant
                    i <= flags@.len(),
                    add.deep_view() == start + customs(flags@.take(i as int)),
                decreases flags@.len() - i,
            {
                let ghost was = add.deep_view();
                proof {
                    assert(flags@.take(i + 1).drop_last() =~= flags@.take(i as int));
                    assert(flags@.take(i + 1).last() == flags@[i as int]);
                }
                if flags[i].iana().is_none() {
                    let word = flags[i].raw().to_owned();
                    let ghost view = word@;
                    add.push(word);
                    proof {
                        assert(add.deep_view() =~= was.push(view));
                        assert(add.deep_view() =~= start + customs(flags@.take(i as int)).push(
                            flags@[i as int]@,
                        ));
                    }
                }
                i = i + 1;
            }
            proof {
                assert(flags@.take(flags@.len() as int) =~= flags@);
            }
            (add, remove)
        },
    }
}

/// The labels of a message after a patch.
pub open spec fn labels_after(labels: Set<Seq<char>>, patch: Patch) -> Set<Seq<char>> {
    labels.union(patch.0.to_set()).difference(patch.1.to_set())
}

/// Whether Gmail has a label for a flag.
pub open spec fn has_label(flag: IanaFlag) -> bool {
    flag_label(flag.spelling()) is Some
}

/// Whether no custom keyword among the flags is spelled like a label that is
/// a flag.
pub open spec fn customs_apart(flags: Seq<Flag>) -> bool {
    forall|i: int|
        0 <= i < flags.len() && IanaFlag::parsed((#[trigger] flags[i])@) is None ==> label_flag(
            flags[i]@,
        ) is None
}

/// The labels that are flags are told apart.
proof fn lemma_labels_differ()
    ensures
        UNREAD@ != STARRED@,
        UNREAD@ != IMPORTANT@,
        UNREAD@ != DRAFT@,
        UNREAD@ != SPAM@,
        STARRED@ != IMPORTANT@,
        STARRED@ != DRAFT@,
        STARRED@ != SPAM@,
        IMPORTANT@ != DRAFT@,
        IMPORTANT@ != SPAM@,
        DRAFT@ != SPAM@,
{
    reveal_strlit("UNREAD");
    reveal_strlit("STARRED");
    reveal_strlit("IMPORTANT");
    reveal_strlit("DRAFT");
    reveal_strlit("SPAM");
    assert(UNREAD@[0] == 'U');
    assert(STARRED@[1] == 'T');
    assert(IMPORTANT@[0] == 'I');
    assert(DRAFT@[0] == 'D');
    assert(SPAM@[1] == 'P');
    assert(STARRED@[0] == 'S');
    assert(SPAM@[0] == 'S');
}

/// The spellings of registered flags are told apart.
pub proof fn lemma_spellings_differ(a: IanaFlag, b: IanaFlag)
    ensures
        a.spelling() == b.spelling() ==> a == b,
{
    law_spelling_parses_back(a);
    law_spelling_parses_back(b);
}

/// Labels and flags translate back and forth: a label that is a flag is the
/// label of that flag, with the same polarity, and the other way round.
pub proof fn law_label_and_flag(label: Seq<char>, flag: IanaFlag, inverted: bool)
    ensures
        label_flag(label) == Some((flag, inverted)) <==> flag_label(flag.spelling()) == Some(
            (label, inverted),
        ),
{
    lemma_labels_differ();
    law_spelling_parses_back(flag);
}

/// Whether a message with these labels has a flag.
pub proof fn lemma_label_flags(labels: Set<Seq<char>>, flag: IanaFlag)
    ensures
        label_flags(labels).contains(flag.spelling()) <==> match flag_label(flag.spelling()) {
            Some((label, inverted)) => labels.contains(label) != inverted,
            None => false,
        },
{
    lemma_spellings_differ(flag, IanaFlag::Seen);
    lemma_spellings_differ(flag, IanaFlag::Flagged);
    lemma_spellings_differ(flag, IanaFlag::Important);
    lemma_spellings_differ(flag, IanaFlag::Draft);
    lemma_spellings_differ(flag, IanaFlag::Junk);
    law_spelling_parses_back(flag);
}

/// Which labels a list of flags gives: of the labels that are flags, those
/// of the flags in the list.
proof fn lemma_labels_of(flags: Seq<Flag>, flag: IanaFlag, inverted: bool)
    requires
        customs_apart(flags),
        has_label(flag),
    ensures
        flag_label(flag.spelling()) matches Some((label, own)) && (labels_of(
            flags,
            inverted,
        ).contains(label) <==> has_flag(flags, flag) && own == inverted),
    decreases flags.len(),
{
    let (label, own) = flag_label(flag.spelling())->0;
    if flags.len() > 0 {
        let most = flags.drop_last();
        let last = flags.last();
        assert(last == flags[flags.len() - 1]);
        assert(customs_apart(most)) by {
            assert forall|i: int|
                0 <= i < most.len() && IanaFlag::parsed((#[trigger] most[i])@) is None implies label_flag(
                most[i]@,
            ) is None by {
                assert(most[i] == flags[i]);
            }
        }
        lemma_labels_of(most, flag, inverted);
        assert(has_flag(flags, flag) <==> has_flag(most, flag) || last.is(flag)) by {
            if has_flag(flags, flag) {
                let i = choose|i: int| 0 <= i < flags.len() && (#[trigger] flags[i]).is(flag);
                if i < most.len() {
                    assert(most[i].is(flag));
                }
            }
            if has_flag(most, flag) {
                let i = choose|i: int| 0 <= i < most.len() && (#[trigger] most[i]).is(flag);
                assert(flags[i].is(flag));
            }
        }
        law_spelling_parses_back(flag);
        law_label_and_flag(label, flag, own);
        let before = labels_of(most, inverted);
        let all = labels_of(flags, inverted);
        match flag_label(last@) {
            Some((its, inv)) => {
                if IanaFlag::parsed(last@) is Some {
                    let parsed = IanaFlag::parsed(last@)->0;
                    law_spelling_parses_back(parsed);
                    assert(flag_label(parsed.spelling()) == Some((its, inv)));
                    law_label_and_flag(its, parsed, inv);
                    assert(its == label <==> parsed == flag);
                } else {
                    assert(label_flag(last@) is None);
                    assert(its != label);
                }
                if inv == inverted {
                    assert(all == before.push(its));
                    if all.contains(label) {
                        let i = choose|i: int| 0 <= i < all.len() && all[i] == label;
                        if i < before.len() {
                            assert(before[i] == label);
                        }
                    }
                    if before.contains(label) {
                        let i = choose|i: int| 0 <= i < before.len() && before[i] == label;
                        assert(all[i] == label);
                    }
                    assert(all[before.len() as int] == its);
                }
            },
            None => {},
        }
    }
}

/// Adding flags leaves a message with the flags it had and, of those that
/// have a label, the given ones; custom keywords spelled like one of these
/// labels are left out.
pub proof fn law_add(flags: Seq<Flag>, labels: Set<Seq<char>>, flag: IanaFlag)
    requires
        customs_apart(flags),
        has_label(flag),
    ensures
        label_flags(labels_after(labels, patch_of(flags, FlagOp::Add))).contains(flag.spelling())
            <==> has_flag(flags, flag) || label_flags(labels).contains(flag.spelling()),
{
    lemma_labels_of(flags, flag, false);
    lemma_labels_of(flags, flag, true);
    lemma_label_flags(labels, flag);
    lemma_label_flags(labels_after(labels, patch_of(flags, FlagOp::Add)), flag);
}

/// Removing flags leaves a message with the flags it had, of those that have
/// a label, but for the given ones; custom keywords spelled like one of
/// these labels are left out.
pub proof fn law_remove(flags: Seq<Flag>, labels: Set<Seq<char>>, flag: IanaFlag)
    requires
        customs_apart(flags),
        has_label(flag),
    ensures
        label_flags(labels_after(labels, patch_of(flags, FlagOp::Remove))).contains(flag.spelling())
            <==> !has_flag(flags, flag) && label_flags(labels).contains(flag.spelling()),
{
    lemma_labels_of(flags, flag, false);
    lemma_labels_of(flags, flag, true);
    lemma_label_flags(labels, flag);
    lemma_label_flags(labels_after(labels, patch_of(flags, FlagOp::Remove)), flag);
}

/// Custom keywords are no labels that are flags.
proof fn lemma_customs(flags: Seq<Flag>)
    requires
        customs_apart(flags),
    ensures
        forall|i: int| 0 <= i < customs(flags).len() ==> label_flag(#[trigger] customs(flags)[i]) is None,
    decreases flags.len(),
{
    if flags.len() > 0 {
        let most = flags.drop_last();
        assert(flags.last() == flags[flags.len() - 1]);
        assert(customs_apart(most)) by {
            assert forall|i: int|
                0 <= i < most.len() && IanaFlag::parsed((#[trigger] most[i])@) is None implies label_flag(
                most[i]@,
            ) is None by {
                assert(most[i] == flags[i]);
            }
        }
        lemma_customs(most);
    }
}

proof fn lemma_target_members(patch: Patch, label: Seq<char>, present: bool)
    ensures
        forall|l: Seq<char>|
            #[trigger] with_target(patch, label, present).0.contains(l) <==> patch.0.contains(l) || (
            present && l == label),
        forall|l: Seq<char>|
            #[trigger] with_target(patch, label, present).1.contains(l) <==> patch.1.contains(l) || (
            !present && l == label),
{
    let list = if present {
        patch.0
    } else {
        patch.1
    };
    let pushed = list.push(label);
    assert forall|l: Seq<char>| pushed.contains(l) <==> list.contains(l) || l == label by {
        if pushed.contains(l) {
            let i = choose|i: int| 0 <= i < pushed.len() && pushed[i] == l;
            if i < list.len() {
                assert(list[i] == l);
            }
        }
        if list.contains(l) {
            let i = choose|i: int| 0 <= i < list.len() && list[i] == l;
            assert(pushed[i] == l);
        }
        assert(pushed[list.len() as int] == label);
    }
}

/// Replacing flags leaves a message, of the flags that have a label, with
/// just the given ones; custom keywords spelled like one of these labels are
/// left out.
pub proof fn law_replace(flags: Seq<Flag>, labels: Set<Seq<char>>, flag: IanaFlag)
    requires
        customs_apart(flags),
        has_label(flag),
    ensures
        label_flags(labels_after(labels, patch_of(flags, FlagOp::Replace))).contains(flag.spelling())
            <==> has_flag(flags, flag),
{
    let patch = patch_of(flags, FlagOp::Replace);
    let none: Patch = (seq![], seq![]);
    let seen = with_target(none, UNREAD@, !has_flag(flags, IanaFlag::Seen));
    let flagged = with_target(seen, STARRED@, has_flag(flags, IanaFlag::Flagged));
    let important = with_target(flagged, IMPORTANT@, has_flag(flags, IanaFlag::Important));
    let draft = with_target(important, DRAFT@, has_flag(flags, IanaFlag::Draft));
    let all = with_target(draft, SPAM@, has_flag(flags, IanaFlag::Junk));
    lemma_target_members(none, UNREAD@, !has_flag(flags, IanaFlag::Seen));
    lemma_target_members(seen, STARRED@, has_flag(flags, IanaFlag::Flagged));
    lemma_target_members(flagged, IMPORTANT@, has_flag(flags, IanaFlag::Important));
    lemma_target_members(important, DRAFT@, has_flag(flags, IanaFlag::Draft));
    lemma_target_members(draft, SPAM@, has_flag(flags, IanaFlag::Junk));
    lemma_customs(flags);
    lemma_labels_differ();
    law_spelling_parses_back(flag);
    let (label, inverted) = flag_label(flag.spelling())->0;
    law_label_and_flag(label, flag, inverted);
    assert(patch.0.contains(label) <==> all.0.contains(label)) by {
        let more = customs(flags);
        if patch.0.contains(label) {
            let i = choose|i: int| 0 <= i < patch.0.len() && patch.0[i] == label;
            if i < all.0.len() {
                assert(all.0[i] == label);
            } else {
                assert(more[i - all.0.len()] == label);
            }
        }
        if all.0.contains(label) {
            let i = choose|i: int| 0 <= i < all.0.len() && all.0[i] == label;
            assert(patch.0[i] == label);
        }
    }
    lemma_label_flags(labels_after(labels, patch), flag);
    assert(all.0.contains(label) <==> has_flag(flags, flag) != inverted);
    assert(all.1.contains(label) <==> has_flag(flags, flag) == inverted);
}

proof fn lemma_custom_kept(flags: Seq<Flag>, i: int)
    requires
        0 <= i < flags.len(),
        IanaFlag::parsed(flags[i]@) is None,
    ensures
        customs(flags).contains(flags[i]@),
    decreases flags.len(),
{
    let all = customs(flags);
    if i == flags.len() - 1 {
        assert(all[all.len() - 1] == flags[i]@);
    } else {
        let most = flags.drop_last();
        assert(most[i] == flags[i]);
        lemma_custom_kept(most, i);
        let before = customs(most);
        let k = choose|k: int| 0 <= k < before.len() && before[k] == flags[i]@;
        assert(all[k] == flags[i]@);
    }
}

proof fn lemma_inverted_labels(flags: Seq<Flag>, k: int)
    requires
        0 <= k < labels_of(flags, true).len(),
    ensures
        labels_of(flags, true)[k] == UNREAD@,
    decreases flags.len(),
{
    if k < labels_of(flags.drop_last(), true).len() {
        lemma_inverted_labels(flags.drop_last(), k);
    }
}

proof fn lemma_targets_disjoint(flags: Seq<Flag>, label: Seq<char>)
    ensures
        !(targets(flags).0.contains(label) && targets(flags).1.contains(label)),
        targets(flags).1.contains(label) ==> label_flag(label) is Some,
{
    let none: Patch = (seq![], seq![]);
    let seen = with_target(none, UNREAD@, !has_flag(flags, IanaFlag::Seen));
    let flagged = with_target(seen, STARRED@, has_flag(flags, IanaFlag::Flagged));
    let important = with_target(flagged, IMPORTANT@, has_flag(flags, IanaFlag::Important));
    let draft = with_target(important, DRAFT@, has_flag(flags, IanaFlag::Draft));
    lemma_target_members(none, UNREAD@, !has_flag(flags, IanaFlag::Seen));
    lemma_target_members(seen, STARRED@, has_flag(flags, IanaFlag::Flagged));
    lemma_target_members(flagged, IMPORTANT@, has_flag(flags, IanaFlag::Important));
    lemma_target_members(important, DRAFT@, has_flag(flags, IanaFlag::Draft));
    lemma_target_members(draft, SPAM@, has_flag(flags, IanaFlag::Junk));
    lemma_labels_differ();
}

/// No label is both added and removed; so it does not matter which is done
/// first. Custom keywords spelled like a label that is a flag are left out.
pub proof fn law_patch_is_disjoint(flags: Seq<Flag>, op: FlagOp, labels: Set<Seq<char>>)
    requires
        customs_apart(flags),
    ensures
        forall|label: Seq<char>|
            !(#[trigger] patch_of(flags, op).0.contains(label) && patch_of(flags, op).1.contains(label)),
        labels_after(labels, patch_of(flags, op)) == labels.difference(
            patch_of(flags, op).1.to_set(),
        ).union(patch_of(flags, op).0.to_set()),
{
    let patch = patch_of(flags, op);
    assert forall|label: Seq<char>| !(#[trigger] patch.0.contains(label) && patch.1.contains(label)) by {
        match op {
            FlagOp::Replace => {
                let fixed = targets(flags);
                let more = customs(flags);
                lemma_targets_disjoint(flags, label);
                lemma_customs(flags);
                if patch.0.contains(label) && patch.1.contains(label) {
                    let i = choose|i: int| 0 <= i < patch.0.len() && patch.0[i] == label;
                    if i < fixed.0.len() {
                        assert(fixed.0[i] == label);
                    } else {
                        assert(more[i - fixed.0.len()] == label);
                    }
                }
            },
            _ => {
                law_spelling_parses_back(IanaFlag::Seen);
                lemma_labels_of(flags, IanaFlag::Seen, false);
                let inverse = labels_of(flags, true);
                if inverse.contains(label) {
                    let k = choose|k: int| 0 <= k < inverse.len() && inverse[k] == label;
                    lemma_inverted_labels(flags, k);
                }
            },
        }
    }
    assert(labels_after(labels, patch) =~= labels.difference(patch.1.to_set()).union(
        patch.0.to_set(),
    ));
}

/// The flags that have a label, of those given.
pub open spec fn labelled_flags(flags: Seq<Flag>) -> Set<Seq<char>> {
    let none = Set::<Seq<char>>::empty();
    let seen = with_flag(none, has_flag(flags, IanaFlag::Seen), IanaFlag::Seen);
    let flagged = with_flag(seen, has_flag(flags, IanaFlag::Flagged), IanaFlag::Flagged);
    let important = with_flag(flagged, has_flag(flags, IanaFlag::Important), IanaFlag::Important);
    let draft = with_flag(important, has_flag(flags, IanaFlag::Draft), IanaFlag::Draft);
    with_flag(draft, has_flag(flags, IanaFlag::Junk), IanaFlag::Junk)
}

proof fn lemma_replaced_label(flags: Seq<Flag>, labels: Set<Seq<char>>, flag: IanaFlag)
    requires
        customs_apart(flags),
        has_label(flag),
    ensures
        flag_label(flag.spelling()) matches Some((label, inverted)) && labels_after(
            labels,
            patch_of(flags, FlagOp::Replace),
        ).contains(label) == (has_flag(flags, flag) != inverted),
{
    law_replace(flags, labels, flag);
    lemma_label_flags(labels_after(labels, patch_of(flags, FlagOp::Replace)), flag);
}

/// Replacing flags makes a message's flags the given ones that have a label,
/// whatever labels it had, and gives it every custom keyword among them;
/// custom keywords spelled like one of these labels are left out.
pub proof fn law_replace_settles(flags: Seq<Flag>, labels: Set<Seq<char>>)
    requires
        customs_apart(flags),
    ensures
        label_flags(labels_after(labels, patch_of(flags, FlagOp::Replace))) == labelled_flags(flags),
        forall|i: int|
            0 <= i < flags.len() && IanaFlag::parsed((#[trigger] flags[i])@) is None
                ==> labels_after(labels, patch_of(flags, FlagOp::Replace)).contains(flags[i]@),
{
    let patch = patch_of(flags, FlagOp::Replace);
    law_spelling_parses_back(IanaFlag::Seen);
    law_spelling_parses_back(IanaFlag::Flagged);
    law_spelling_parses_back(IanaFlag::Important);
    law_spelling_parses_back(IanaFlag::Draft);
    law_spelling_parses_back(IanaFlag::Junk);
    lemma_replaced_label(flags, labels, IanaFlag::Seen);
    lemma_replaced_label(flags, labels, IanaFlag::Flagged);
    lemma_replaced_label(flags, labels, IanaFlag::Important);
    lemma_replaced_label(flags, labels, IanaFlag::Draft);
    lemma_replaced_label(flags, labels, IanaFlag::Junk);
    law_patch_is_disjoint(flags, FlagOp::Replace, labels);
    assert forall|i: int|
        0 <= i < flags.len() && IanaFlag::parsed((#[trigger] flags[i])@) is None implies labels_after(
        labels,
        patch,
    ).contains(flags[i]@) by {
        lemma_custom_kept(flags, i);
        let more = customs(flags);
        let k = choose|k: int| 0 <= k < more.len() && more[k] == flags[i]@;
        assert(patch.0[targets(flags).0.len() + k] == flags[i]@);
        assert(patch.0.contains(flags[i]@));
    }
}

/// A Gmail message in the metadata format, with what an envelope needs.
#[derive(Debug)]
pub struct GmailMetadata {
    pub id: String,
    pub label_ids: Vec<String>,
    pub size_estimate: Option<u64>,
    /// The names and values of the headers, in their order.
    pub headers: Option<Vec<(String, String)>>,
}

/// What a [`GmailMetadata`] says.
pub struct GmailMetadataView {
    pub id: Seq<char>,
    pub label_ids: Seq<Seq<char>>,
    pub size_estimate: Option<u64>,
    pub headers: Option<Seq<(Seq<char>, Seq<char>)>>,
}

impl DeepView for GmailMetadata {
    type V = GmailMetadataView;

    open spec fn deep_view(&self) -> GmailMetadataView {
        GmailMetadataView {
            id: self.id@,
            label_ids: self.label_ids.deep_view(),
            size_estimate: self.size_estimate,
            headers: self.headers.deep_view(),
        }
    }
}

/// The value of the first header of this name, in whatever ASCII case.
pub open spec fn header(headers: Seq<(Seq<char>, Seq<char>)>, name: Seq<char>) -> Option<Seq<char>>
    decreases headers.len(),
{
    if headers.len() == 0 {
        None
    } else if ascii_lower(headers[0].0) == ascii_lower(name) {
        Some(headers[0].1)
    } else {
        header(headers.skip(1), name)
    }
}

/// The value of a header of a message.
pub open spec fn message_header(message: GmailMetadataView, name: Seq<char>) -> Option<Seq<char>> {
    match message.headers {
        Some(headers) => header(headers, name),
        None => None,
    }
}

/// The value of a header, empty for none.
pub open spec fn header_or_empty(message: GmailMetadataView, name: Seq<char>) -> Seq<char> {
    match message_header(message, name) {
        Some(value) => value,
        None => seq![],
    }
}

fn find_header<'a>(message: &'a GmailMetadata, name: &str) -> (r: Option<&'a str>)
    ensures
        match r {
            Some(value) => message_header(message.deep_view(), name@) == Some(value@),
            None => message_header(message.deep_view(), name@) is None,
        },
{
    let headers = match &message.headers {
        Some(headers) => headers,
        None => return None,
    };
    let ghost all = headers.deep_view();
    proof {
        assert(all.skip(0) =~= all);
    }
    let wanted = ascii_lower_of(name);
    let mut i: usize = 0;
    while i < headers.len()
        invariant
            i <= headers@.len(),
            all == headers.deep_view(),
            message_header(message.deep_view(), name@) == header(all, name@),
            wanted@ == ascii_lower(name@),
            header(all, name@) == header(all.skip(i as int), name@),
        decreases headers@.len() - i,
    {
        proof {
            assert(all.skip(i as int)[0] == headers@[i as int].deep_view());
            assert(all.skip(i as int).skip(1) =~= all.skip(i + 1));
        }
        if same_text(ascii_lower_of(headers[i].0.as_str()).as_str(), wanted.as_str()) {
            return Some(headers[i].1.as_str());
        }
        i = i + 1;
    }
    None
}

/// The address in one part of a header: what stands in the last angle
/// brackets, under the name before them; without brackets, the whole part.
pub open spec fn address_of(part: Seq<char>) -> AddressView {
    let open = last_position(part, '<');
    let end = if open >= 0 {
        open + position(part.skip(open), '>')
    } else {
        part.len() as int
    };
    if open >= 0 && end < part.len() {
        let name = trimmed(unquoted(trimmed(part.take(open)), '"'));
        AddressView {
            name: if name.len() == 0 {
                None
            } else {
                Some(name)
            },
            email: trimmed(part.subrange(open + 1, end)),
        }
    } else {
        AddressView { name: None, email: part }
    }
}

/// Parses one part of an address header.
pub fn parse_address(part: &str) -> (r: Address)
    ensures
        r.deep_view() == address_of(part@),
{
    let chars = chars_of(part);
    if let Some(open) = last_position_of(&chars, '<') {
        if let Some(end) = position_from(&chars, open, '>') {
            proof {
                lemma_last_position(chars@, '<');
                lemma_position(chars@.skip(open as int), '>');
                assert(chars@.skip(open as int)[0] == chars@[open as int]);
                assert(chars@.skip(open as int)[end - open] == chars@[end as int]);
                assert(chars@.take(open as int) =~= chars@.subrange(0, open as int));
            }
            let email = trim_of(text_of(&chars, open + 1, end).as_str());
            let before = trim_of(text_of(&chars, 0, open).as_str());
            let name = trim_of(unquote_of(before.as_str(), '"').as_str());
            let name = if name.as_str().is_empty() {
                None
            } else {
                Some(name)
            };
            return Address { name, email };
        }
    }
    Address { name: None, email: part.to_owned() }
}

/// The parts of a header that are not blank, without surrounding white
/// space, as addresses.
pub open spec fn addresses_in(parts: Seq<Seq<char>>) -> Seq<AddressView>
    decreases parts.len(),
{
    if parts.len() == 0 {
        seq![]
    } else {
        let before = addresses_in(parts.drop_last());
        if trimmed(parts.last()).len() == 0 {
            before
        } else {
            before.push(address_of(trimmed(parts.last())))
        }
    }
}

/// The addresses of an address-list header: those of its parts between
/// commas.
pub open spec fn header_addresses(raw: Seq<char>) -> Seq<AddressView> {
    addresses_in(split(raw, ','))
}

/// Parses an address-list header value. Best effort: splits on commas and
/// takes the `<addr>` and an optional display name out of each part.
pub fn parse_addresses(raw: &str) -> (r: Vec<Address>)
    ensures
        r.deep_view() == header_addresses(raw@),
{
    let parts = split_of(raw, ',');
    let ghost all = parts.deep_view();
    let mut out: Vec<Address> = Vec::new();
    proof {
        assert(all.take(0) =~= seq![]);
        assert(out.deep_view() =~= seq![]);
    }
    let mut i: usize = 0;
    while i < parts.len()
        invariant
            i <= parts@.len(),
            all == parts.deep_view(),
            out.deep_view() == addresses_in(all.take(i as int)),
        decreases parts@.len() - i,
    {
        let ghost was = out.deep_view();
        proof {
            assert(all.take(i + 1).drop_last() =~= all.take(i as int));
            assert(all.take(i + 1).last() == parts@[i as int]@);
        }
        let part = trim_of(parts[i].as_str());
        if !part.as_str().is_empty() {
            let address = parse_address(part.as_str());
            let ghost view = address.deep_view();
            out.push(address);
            proof {
                assert(out.deep_view() =~= was.push(view));
            }
        }
        i = i + 1;
    }
    proof {
        assert(all.take(all.len() as int) =~= all);
    }
    out
}

/// The envelope of a Gmail message. Whether it has attachments is not
/// known: the metadata do not hold the MIME structure.
pub open spec fn envelope_of(message: GmailMetadataView) -> EnvelopeView {
    EnvelopeView {
        id: message.id,
        message_id: match message_header(message, "Message-ID"@) {
            Some(raw) => message_id_of(raw),
            None => None,
        },
        flags: label_flags(message.label_ids.to_set()),
        subject: header_or_empty(message, "Subject"@),
        from: header_addresses(header_or_empty(message, "From"@)),
        to: header_addresses(header_or_empty(message, "To"@)),
        date: match message_header(message, "Date"@) {
            Some(raw) => header_date(raw),
            None => None,
        },
        size: match message.size_estimate {
            Some(n) => n as nat,
            None => 0,
        },
        has_attachment: None,
    }
}

fn header_text(message: &GmailMetadata, name: &str) -> (r: String)
    ensures
        r@ == header_or_empty(message.deep_view(), name@),
{
    match find_header(message, name) {
        Some(value) => value.to_owned(),
        None => String::new(),
    }
}

/// Folds a Gmail message (metadata format) into the shared [`Envelope`]
/// shape.
pub fn envelope_from(message: &GmailMetadata) -> (r: Envelope)
    ensures
        r.deep_view() == envelope_of(message.deep_view()),
{
    let message_id = match find_header(message, "Message-ID") {
        Some(raw) => normalize_message_id(raw),
        None => None,
    };
    let date = match find_header(message, "Date") {
        Some(raw) => parse_rfc2822_date(raw),
        None => None,
    };
    let size: u64 = match message.size_estimate {
        Some(n) => n,
        None => 0,
    };
    Envelope {
        id: message.id.clone(),
        message_id,
        flags: flags_from_labels(&message.label_ids),
        subject: header_text(message, "Subject"),
        from: parse_addresses(header_text(message, "From").as_str()),
        to: parse_addresses(header_text(message, "To").as_str()),
        date,
        size,
        has_attachment: None,
    }
}

proof fn lemma_addresses_in_turn(a: Seq<Seq<char>>, b: Seq<Seq<char>>)
    ensures
        addresses_in(a + b) == addresses_in(a) + addresses_in(b),
    decreases b.len(),
{
    if b.len() == 0 {
        assert(a + b =~= a);
        assert(addresses_in(a) + addresses_in(b) =~= addresses_in(a));
    } else {
        lemma_addresses_in_turn(a, b.drop_last());
        assert((a + b).drop_last() =~= a + b.drop_last());
        assert(addresses_in(a + b) =~= addresses_in(a) + addresses_in(b));
    }
}

/// The addresses of two lists joined by a comma are those of the one and
/// then those of the other.
pub proof fn law_addresses_join(a: Seq<char>, b: Seq<char>)
    ensures
        header_addresses(a + seq![','] + b) == header_addresses(a) + header_addresses(b),
{
    law_split_joined(a, b, ',');
    lemma_addresses_in_turn(split(a, ','), split(b, ','));
}

/// A header is the first of its name, letter case aside; there is none where
/// no name is the one asked for.
pub proof fn law_header_is_the_first(headers: Seq<(Seq<char>, Seq<char>)>, name: Seq<char>, k: int)
    ensures
        named_first(headers, name, k) ==> header(headers, name) == Some(headers[k].1),
        (forall|j: int|
            0 <= j < headers.len() ==> ascii_lower((#[trigger] headers[j]).0) != ascii_lower(name))
            ==> header(headers, name) is None,
    decreases headers.len(),
{
    if headers.len() > 0 {
        let rest = headers.skip(1);
        law_header_is_the_first(rest, name, k - 1);
        assert forall|j: int| 0 <= j < rest.len() implies #[trigger] rest[j] == headers[j + 1] by {}
    }
}

/// Whether the header at a place is the first of its name, letter case aside.
pub open spec fn named_first(headers: Seq<(Seq<char>, Seq<char>)>, name: Seq<char>, k: int) -> bool {
    &&& 0 <= k < headers.len()
    &&& ascii_lower(headers[k].0) == ascii_lower(name)
    &&& forall|j: int| 0 <= j < k ==> ascii_lower((#[trigger] headers[j]).0) != ascii_lower(name)
}

proof fn lemma_header_names()
    ensures
        ascii_lower("From"@) == ascii_lower("from"@),
        ascii_lower("To"@) == ascii_lower("to"@),
        ascii_lower("Subject"@) == ascii_lower("subject"@),
        ascii_lower("Date"@) == ascii_lower("date"@),
        ascii_lower("Message-ID"@) == ascii_lower("message-id"@),
{
    reveal_strlit("From");
    reveal_strlit("from");
    reveal_strlit("To");
    reveal_strlit("to");
    reveal_strlit("Subject");
    reveal_strlit("subject");
    reveal_strlit("Date");
    reveal_strlit("date");
    reveal_strlit("Message-ID");
    reveal_strlit("message-id");
    assert(ascii_lower("From"@) =~= ascii_lower("from"@));
    assert(ascii_lower("To"@) =~= ascii_lower("to"@));
    assert(ascii_lower("Subject"@) =~= ascii_lower("subject"@));
    assert(ascii_lower("Date"@) =~= ascii_lower("date"@));
    assert(ascii_lower("Message-ID"@) =~= ascii_lower("message-id"@));
}

/// An envelope tells its message's id, size and labels, and of each header
/// what the first of that name holds: senders from From, recipients from To.
pub proof fn law_envelope_says_what_the_headers_hold(message: GmailMetadataView, k: int)
    ensures
        ({
            let e = envelope_of(message);
            let headers = message.headers->0;
            &&& e.id == message.id
            &&& e.flags == label_flags(message.label_ids.to_set())
            &&& message.size_estimate matches Some(size) ==> e.size == size
            &&& message.size_estimate is None ==> e.size == 0
            &&& e.has_attachment is None
            &&& message.headers is Some ==> {
                &&& named_first(headers, "from"@, k) ==> e.from == header_addresses(headers[k].1)
                &&& named_first(headers, "to"@, k) ==> e.to == header_addresses(headers[k].1)
                &&& named_first(headers, "subject"@, k) ==> e.subject == headers[k].1
                &&& named_first(headers, "date"@, k) ==> e.date == header_date(headers[k].1)
                &&& named_first(headers, "message-id"@, k) ==> e.message_id == message_id_of(
                    headers[k].1,
                )
            }
        }),
{
    lemma_header_names();
    if message.headers is Some {
        let headers = message.headers->0;
        law_header_is_the_first(headers, "From"@, k);
        law_header_is_the_first(headers, "To"@, k);
        law_header_is_the_first(headers, "Subject"@, k);
        law_header_is_the_first(headers, "Date"@, k);
        law_header_is_the_first(headers, "Message-ID"@, k);
    }
}

/// A message without headers has no sender, recipient, subject or date.
pub proof fn law_envelope_without_headers(message: GmailMetadataView)
    requires
        message.headers is None,
    ensures
        ({
            let e = envelope_of(message);
            &&& e.from.len() == 0 && e.to.len() == 0 && e.subject.len() == 0
            &&& e.date is None && e.message_id is None
        }),
{
    let none: Seq<char> = seq![];
    assert(position(none, ',') == 0);
    assert(split(none, ',') =~= seq![none]);
    assert(trimmed(none).len() == 0) by {
        law_only_blanks_are_cut_off(none);
    }
    assert(seq![none].drop_last() =~= seq![]);
    assert(addresses_in(seq![none].drop_last()) =~= seq![]);
    assert(addresses_in(seq![none]) =~= seq![]);
}

/// An address in angle brackets is what stands between them, and the name is
/// what stands in front, without the white space and the quotes around.
pub proof fn law_address_in_brackets(name: Seq<char>, email: Seq<char>, rest: Seq<char>)
    requires
        !email.contains('<') && !email.contains('>'),
        !rest.contains('<'),
        trimmed(email) == email,
        trimmed(unquoted(trimmed(name), '"')).len() > 0,
    ensures
        address_of(name + seq!['<'] + email + seq!['>'] + rest) == (AddressView {
            name: Some(trimmed(unquoted(trimmed(name), '"'))),
            email,
        }),
{
    let part = name + seq!['<'] + email + seq!['>'] + rest;
    lemma_brackets(name, email, rest);
    let open = name.len() as int;
    assert(part.take(open) =~= name);
    assert(part.subrange(open + 1, open + 1 + email.len()) =~= email);
}

proof fn lemma_brackets(name: Seq<char>, email: Seq<char>, rest: Seq<char>)
    requires
        !email.contains('<') && !email.contains('>'),
        !rest.contains('<'),
    ensures
        ({
            let part = name + seq!['<'] + email + seq!['>'] + rest;
            &&& last_position(part, '<') == name.len()
            &&& position(part.skip(name.len() as int), '>') == 1 + email.len()
        }),
{
    let part = name + seq!['<'] + email + seq!['>'] + rest;
    let open = name.len() as int;
    law_last_position(part, '<');
    lemma_last_position(part, '<');
    let last = last_position(part, '<');
    assert(part[open] == '<');
    assert forall|i: int| open < i < part.len() implies part[i] != '<' by {
        if i < open + 1 + email.len() {
            assert(part[i] == email[i - open - 1]);
        } else if i > open + 1 + email.len() {
            assert(part[i] == rest[i - open - 2 - email.len()]);
        }
    }
    assert(part.contains('<'));
    assert(last <= open) by {
        if last > open {
            assert(part[last] != '<');
        }
    }
    assert(last >= open) by {
        if last < open {
            assert(part[open] != '<');
        }
    }
    let tail = part.skip(open);
    assert forall|i: int| 0 <= i < 1 + email.len() implies tail[i] != '>' by {
        if i > 0 {
            assert(tail[i] == email[i - 1]);
        }
    }
    assert(tail[1 + email.len() as int] == '>');
    lemma_position_is(tail, '>', 1 + email.len() as int);
}

/// An address in angle brackets with nothing but white space and quotes in
/// front has no name; one without an opening bracket is the text itself.
pub proof fn law_address_without_a_name(name: Seq<char>, email: Seq<char>, rest: Seq<char>)
    requires
        !email.contains('<') && !email.contains('>'),
        !rest.contains('<'),
        trimmed(email) == email,
        trimmed(unquoted(trimmed(name), '"')).len() == 0,
    ensures
        address_of(name + seq!['<'] + email + seq!['>'] + rest) == (AddressView { name: None, email }),
        address_of(rest) == (AddressView { name: None, email: rest }),
{
    let part = name + seq!['<'] + email + seq!['>'] + rest;
    lemma_brackets(name, email, rest);
    let open = name.len() as int;
    assert(part.take(open) =~= name);
    assert(part.subrange(open + 1, open + 1 + email.len()) =~= email);
    law_last_position(rest, '<');
}

/// The addresses of a header are those of its parts between commas, each in
/// its place; blank parts give none.
pub proof fn law_addresses_are_those_between_commas(parts: Seq<Seq<char>>)
    ensures
        addresses_in(parts) == parts.filter(|part: Seq<char>| trimmed(part).len() > 0).map_values(
            |part: Seq<char>| address_of(trimmed(part)),
        ),
    decreases parts.len(),
{
    reveal(Seq::filter);
    let full = |part: Seq<char>| trimmed(part).len() > 0;
    let read = |part: Seq<char>| address_of(trimmed(part));
    if parts.len() == 0 {
        assert(parts.filter(full).map_values(read) =~= seq![]);
    } else {
        let most = parts.drop_last();
        law_addresses_are_those_between_commas(most);
        let before = most.filter(full);
        assert(before.push(parts.last()).map_values(read) =~= before.map_values(read).push(
            read(parts.last()),
        ));
    }
}

proof fn lemma_labels_given(flags: Seq<Flag>, inverted: bool, label: Seq<char>)
    ensures
        labels_of(flags, inverted).contains(label) <==> exists|i: int|
            0 <= i < flags.len() && flag_label((#[trigger] flags[i])@) == Some((label, inverted)),
    decreases flags.len(),
{
    if flags.len() > 0 {
        let most = flags.drop_last();
        lemma_labels_given(most, inverted, label);
        let before = labels_of(most, inverted);
        let all = labels_of(flags, inverted);
        assert(flags[flags.len() - 1] == flags.last());
        if before.contains(label) {
            let k = before.index_of(label);
            assert(all[k] == label);
            let i = choose|i: int|
                0 <= i < most.len() && flag_label((#[trigger] most[i])@) == Some((label, inverted));
            assert(flags[i] == most[i]);
        }
        if flag_label(flags.last()@) == Some((label, inverted)) {
            assert(all[all.len() - 1] == label);
        }
        if all.contains(label) {
            let k = all.index_of(label);
            if k < before.len() {
                assert(before[k] == label);
            }
        }
        if exists|i: int|
            0 <= i < flags.len() && flag_label((#[trigger] flags[i])@) == Some((label, inverted)) {
            let i = choose|i: int|
                0 <= i < flags.len() && flag_label((#[trigger] flags[i])@) == Some((label, inverted));
            if i < most.len() {
                assert(most[i] == flags[i]);
            }
        }
    }
}

/// A custom keyword is a label of its own: adding it sets the label, removing
/// it unsets it. A label that is neither a flag nor among the keywords stays
/// as it was.
pub proof fn law_custom_labels(flags: Seq<Flag>, labels: Set<Seq<char>>, word: Seq<char>)
    requires
        customs_apart(flags),
        IanaFlag::parsed(word) is None,
        label_flag(word) is None,
    ensures
        ({
            let among = exists|i: int| 0 <= i < flags.len() && (#[trigger] flags[i])@ == word;
            &&& labels_after(labels, patch_of(flags, FlagOp::Add)).contains(word) <==> among
                || labels.contains(word)
            &&& labels_after(labels, patch_of(flags, FlagOp::Remove)).contains(word) <==> !among
                && labels.contains(word)
            &&& labels_after(labels, patch_of(flags, FlagOp::Replace)).contains(word) <==> among
                || labels.contains(word)
        }),
{
    let among = exists|i: int| 0 <= i < flags.len() && (#[trigger] flags[i])@ == word;
    lemma_labels_given(flags, false, word);
    lemma_labels_given(flags, true, word);
    assert(flag_label(word) == Some((word, false)));
    assert forall|i: int| 0 <= i < flags.len() implies (flag_label((#[trigger] flags[i])@) == Some(
        (word, false),
    ) <==> flags[i]@ == word) && flag_label(flags[i]@) != Some((word, true)) by {
        lemma_labels_differ();
    }
    assert(labels_of(flags, false).contains(word) <==> among);
    assert(!labels_of(flags, true).contains(word));
    let more = customs(flags);
    let fixed = targets(flags);
    assert(!fixed.0.contains(word) && !fixed.1.contains(word)) by {
        let none: Patch = (seq![], seq![]);
        let seen = with_target(none, UNREAD@, !has_flag(flags, IanaFlag::Seen));
        let flagged = with_target(seen, STARRED@, has_flag(flags, IanaFlag::Flagged));
        let important = with_target(flagged, IMPORTANT@, has_flag(flags, IanaFlag::Important));
        let draft = with_target(important, DRAFT@, has_flag(flags, IanaFlag::Draft));
        lemma_target_members(none, UNREAD@, !has_flag(flags, IanaFlag::Seen));
        lemma_target_members(seen, STARRED@, has_flag(flags, IanaFlag::Flagged));
        lemma_target_members(flagged, IMPORTANT@, has_flag(flags, IanaFlag::Important));
        lemma_target_members(important, DRAFT@, has_flag(flags, IanaFlag::Draft));
        lemma_target_members(draft, SPAM@, has_flag(flags, IanaFlag::Junk));
    }
    lemma_customs_are_words(flags, word);
    let patch = patch_of(flags, FlagOp::Replace);
    assert(patch.0.contains(word) <==> among) by {
        if patch.0.contains(word) {
            let k = patch.0.index_of(word);
            if k < fixed.0.len() {
                assert(fixed.0[k] == word);
            } else {
                assert(more[k - fixed.0.len()] == word);
            }
        }
        if more.contains(word) {
            let k = more.index_of(word);
            assert(patch.0[fixed.0.len() + k] == word);
        }
    }
}

proof fn lemma_customs_are_words(flags: Seq<Flag>, word: Seq<char>)
    requires
        IanaFlag::parsed(word) is None,
    ensures
        customs(flags).contains(word) <==> exists|i: int|
            0 <= i < flags.len() && (#[trigger] flags[i])@ == word,
    decreases flags.len(),
{
    if exists|i: int| 0 <= i < flags.len() && (#[trigger] flags[i])@ == word {
        let i = choose|i: int| 0 <= i < flags.len() && (#[trigger] flags[i])@ == word;
        lemma_custom_kept(flags, i);
    }
    if flags.len() > 0 {
        let most = flags.drop_last();
        lemma_customs_are_words(most, word);
        if customs(flags).contains(word) {
            let k = customs(flags).index_of(word);
            if flags.last()@ == word {
                assert(flags[flags.len() - 1]@ == word);
            } else {
                assert(customs(most)[k] == word);
                let i = choose|i: int| 0 <= i < most.len() && (#[trigger] most[i])@ == word;
                assert(flags[i]@ == word);
            }
        }
    }
}

/// The labels of Gmail that are flags: a message is seen unless it is labelled
/// UNREAD, and has the other flags exactly under STARRED, IMPORTANT, DRAFT and
/// SPAM; no other label is a flag.
pub proof fn law_gmail_labels(labels: Set<Seq<char>>, flag: Seq<char>)
    ensures
        label_flags(labels).contains(flag) <==> {
            ||| flag == "\\Seen"@ && !labels.contains("UNREAD"@)
            ||| flag == "\\Flagged"@ && labels.contains("STARRED"@)
            ||| flag == "$Important"@ && labels.contains("IMPORTANT"@)
            ||| flag == "\\Draft"@ && labels.contains("DRAFT"@)
            ||| flag == "$Junk"@ && labels.contains("SPAM"@)
        },
{
}

} // verus!
