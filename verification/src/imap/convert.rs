//! Conversions between IMAP wire types and the shared types: mailbox
//! names, sequence sets and flags.
use vstd::prelude::*;

use crate::flag::types::{kept, law_kept_idempotent, law_spelling_parses_back, Flag, IanaFlag};
use crate::text::{
    all_digits, chars_of, decimal, decimals, joined, law_decimal_reads_back, lemma_decimal,
    lemma_split_first, number, parse_number, split,
};

verus! {

/// A name that could not be encoded as an IMAP mailbox token.
#[derive(Debug)]
pub struct InvalidMailboxName(pub String);

/// The ids were empty, or one of them is no positive 32-bit number.
#[derive(Debug)]
pub enum InvalidUidSet {
    Empty,
    Invalid(String),
}

/// Whether a text can travel as an IMAP string: NUL cannot.
pub open spec fn transmissible(text: Seq<char>) -> bool {
    !text.contains('\0')
}

/// A mailbox name that can travel as an IMAP string.
#[derive(Debug)]
pub struct ImapMailbox {
    name: String,
}

impl View for ImapMailbox {
    type V = Seq<char>;

    closed spec fn view(&self) -> Seq<char> {
        self.name@
    }
}

impl ImapMailbox {
    #[verifier::type_invariant]
    closed spec fn inv(self) -> bool {
        transmissible(self.name@)
    }

    pub fn as_str(&self) -> (r: &str)
        ensures
            r@ == self@,
            transmissible(r@),
    {
        proof {
            use_type_invariant(self);
        }
        self.name.as_str()
    }
}

impl Clone for ImapMailbox {
    fn clone(&self) -> (r: ImapMailbox)
        ensures
            r@ == self@,
    {
        proof {
            use_type_invariant(self);
        }
        ImapMailbox { name: self.name.clone() }
    }
}

/// Whether `text` holds no NUL.
pub fn is_transmissible(text: &str) -> (r: bool)
    ensures
        r == transmissible(text@),
{
    let chars = chars_of(text);
    let mut i: usize = 0;
    while i < chars.len()
        invariant
            i <= chars@.len(),
            chars@ == text@,
            forall|j: int| 0 <= j < i ==> chars@[j] != '\0',
        decreases chars@.len() - i,
    {
        if chars[i] == '\0' {
            proof {
                assert(text@.contains(text@[i as int]));
            }
            return false;
        }
        i = i + 1;
    }
    true
}

/// Parses a shared mailbox name into an IMAP mailbox token.
pub fn parse_mailbox(name: &str) -> (r: Result<ImapMailbox, InvalidMailboxName>)
    ensures
        match r {
            Ok(mailbox) => transmissible(name@) && mailbox@ == name@,
            Err(err) => !transmissible(name@) && err.0@ == name@,
        },
{
    if is_transmissible(name) {
        Ok(ImapMailbox { name: name.to_owned() })
    } else {
        Err(InvalidMailboxName(name.to_owned()))
    }
}

/// A non-empty list of message UIDs.
#[derive(Debug)]
pub struct UidSet {
    uids: Vec<u32>,
}

impl View for UidSet {
    type V = Seq<u32>;

    closed spec fn view(&self) -> Seq<u32> {
        self.uids@
    }
}

/// Whether the numbers can stand in a UID set.
pub open spec fn uids_ok(uids: Seq<u32>) -> bool {
    uids.len() > 0 && forall|i: int| 0 <= i < uids.len() ==> #[trigger] uids[i] != 0
}

impl UidSet {
    #[verifier::type_invariant]
    closed spec fn inv(self) -> bool {
        uids_ok(self.uids@)
    }

    pub fn as_vec(&self) -> (r: &Vec<u32>)
        ensures
            r@ == self@,
            uids_ok(r@),
    {
        proof {
            use_type_invariant(self);
        }
        &self.uids
    }
}

/// The UID that a text denotes, if it denotes one.
pub open spec fn uid_of(id: Seq<char>) -> Option<u32> {
    match number(id) {
        Some(n) => if n == 0 {
            None
        } else {
            Some(n)
        },
        None => None,
    }
}

/// What the ids of a request come to: their UIDs in order, or the first
/// id that is none.
pub open spec fn uids_of(ids: Seq<&str>) -> Result<Seq<u32>, Option<Seq<char>>>
    decreases ids.len(),
{
    if ids.len() == 0 {
        Err(None)
    } else {
        match first_bad(ids) {
            Some(id) => Err(Some(id)),
            None => Ok(Seq::new(ids.len(), |i: int| uid_of(ids[i]@)->0)),
        }
    }
}

/// The first id that is no UID.
pub open spec fn first_bad(ids: Seq<&str>) -> Option<Seq<char>>
    decreases ids.len(),
{
    if ids.len() == 0 {
        None
    } else if uid_of(ids[0]@) is None {
        Some(ids[0]@)
    } else {
        first_bad(ids.drop_first())
    }
}

proof fn lemma_first_bad(ids: Seq<&str>, n: int)
    requires
        0 <= n <= ids.len(),
        forall|i: int| 0 <= i < n ==> uid_of((#[trigger] ids[i])@) is Some,
    ensures
        first_bad(ids) == first_bad(ids.subrange(n, ids.len() as int)),
    decreases n,
{
    if n > 0 {
        let rest = ids.drop_first();
        assert(uid_of(ids[0]@) is Some);
        assert forall|i: int| 0 <= i < n - 1 implies uid_of((#[trigger] rest[i])@) is Some by {
            assert(rest[i] == ids[i + 1]);
        }
        lemma_first_bad(rest, n - 1);
        assert(rest.subrange(n - 1, rest.len() as int) == ids.subrange(n, ids.len() as int));
    } else {
        assert(ids.subrange(0, ids.len() as int) == ids);
    }
}

/// Parses a list of stringified UIDs.
pub fn parse_uids(ids: &[&str]) -> (r: Result<UidSet, InvalidUidSet>)
    ensures
        match r {
            Ok(set) => uids_of(ids@) == Ok::<Seq<u32>, Option<Seq<char>>>(set@),
            Err(InvalidUidSet::Empty) => ids@.len() == 0,
            Err(InvalidUidSet::Invalid(id)) => ids@.len() > 0 && first_bad(ids@) == Some(id@),
        },
{
    if ids.len() == 0 {
        return Err(InvalidUidSet::Empty);
    }
    let mut uids: Vec<u32> = Vec::new();
    let mut i: usize = 0;
    while i < ids.len()
        invariant
            i <= ids@.len(),
            ids@.len() > 0,
            uids@.len() == i,
            forall|j: int| 0 <= j < i ==> uid_of((#[trigger] ids@[j])@) == Some(uids@[j]),
            forall|j: int| 0 <= j < i ==> #[trigger] uids@[j] != 0,
        decreases ids@.len() - i,
    {
        let n = parse_number(ids[i]);
        match n {
            Some(uid) if uid != 0 => {
                uids.push(uid);
            },
            _ => {
                proof {
                    lemma_first_bad(ids@, i as int);
                    assert(ids@.subrange(i as int, ids@.len() as int)[0] == ids@[i as int]);
                }
                return Err(InvalidUidSet::Invalid(ids[i].to_owned()));
            },
        }
        i = i + 1;
    }
    proof {
        lemma_first_bad(ids@, ids@.len() as int);
        assert(uids@ =~= Seq::new(ids@.len(), |j: int| uid_of(ids@[j]@)->0));
    }
    Ok(UidSet { uids })
}

/// Whether a character can stand in an IMAP atom.
pub open spec fn atom_char(c: char) -> bool {
    &&& '\x20' < c && c < '\x7f'
    &&& c != '(' && c != ')' && c != '{' && c != '%' && c != '*' && c != '"' && c != '\\' && c
        != ']'
}

/// Whether a text is an IMAP atom.
pub open spec fn atom(text: Seq<char>) -> bool {
    text.len() > 0 && forall|i: int| 0 <= i < text.len() ==> atom_char(#[trigger] text[i])
}

/// Every character that cannot stand in an atom becomes `_`.
pub open spec fn sanitised(raw: Seq<char>) -> Seq<char> {
    raw.map_values(
        |c: char|
            if atom_char(c) {
                c
            } else {
                '_'
            },
    )
}

fn is_atom_char(c: char) -> (r: bool)
    ensures
        r == atom_char(c),
{
    '\x20' < c && c < '\x7f' && c != '(' && c != ')' && c != '{' && c != '%' && c != '*' && c != '"'
        && c != '\\' && c != ']'
}

/// Whether `text` is an IMAP atom.
pub fn is_atom(text: &str) -> (r: bool)
    ensures
        r == atom(text@),
{
    let chars = chars_of(text);
    if chars.len() == 0 {
        return false;
    }
    let mut i: usize = 0;
    while i < chars.len()
        invariant
            i <= chars@.len(),
            chars@ == text@,
            forall|j: int| 0 <= j < i ==> atom_char(#[trigger] chars@[j]),
        decreases chars@.len() - i,
    {
        if !is_atom_char(chars[i]) {
            return false;
        }
        i = i + 1;
    }
    true
}

/// Replaces every character that is not atom-safe with `_`, so that a
/// keyword with spaces, controls or brackets survives an IMAP STORE.
pub fn sanitise_atom(raw: &str) -> (r: String)
    ensures
        r@ == sanitised(raw@),
{
    let chars = chars_of(raw);
    let mut out = String::new();
    let mut i: usize = 0;
    while i < chars.len()
        invariant
            i <= chars@.len(),
            chars@ == raw@,
            out@ == sanitised(raw@.subrange(0, i as int)),
        decreases chars@.len() - i,
    {
        let c: char = if is_atom_char(chars[i]) {
            chars[i]
        } else {
            '_'
        };
        proof {
            assert(sanitised(raw@.subrange(0, i + 1)) =~= sanitised(
                raw@.subrange(0, i as int),
            ).push(c));
        }
        out.push(c);
        i = i + 1;
    }
    proof {
        assert(raw@.subrange(0, raw@.len() as int) == raw@);
    }
    out
}

/// A sanitised keyword keeps its length and is an atom unless it is empty;
/// an atom stays as it is.
pub proof fn law_sanitised(raw: Seq<char>)
    ensures
        sanitised(raw).len() == raw.len(),
        raw.len() > 0 ==> atom(sanitised(raw)),
        atom(raw) ==> sanitised(raw) == raw,
        sanitised(sanitised(raw)) == sanitised(raw),
{
    if atom(raw) {
        assert(sanitised(raw) =~= raw);
    }
    assert(sanitised(sanitised(raw)) =~= sanitised(raw));
}

/// A flag as IMAP carries it.
#[derive(Debug)]
pub enum ImapFlag {
    Seen,
    Answered,
    Flagged,
    Draft,
    Deleted,
    /// A keyword, which is an atom.
    Keyword(String),
}

/// What an [`ImapFlag`] says.
pub enum ImapFlagView {
    Seen,
    Answered,
    Flagged,
    Draft,
    Deleted,
    Keyword(Seq<char>),
}

impl DeepView for ImapFlag {
    type V = ImapFlagView;

    open spec fn deep_view(&self) -> ImapFlagView {
        match self {
            ImapFlag::Seen => ImapFlagView::Seen,
            ImapFlag::Answered => ImapFlagView::Answered,
            ImapFlag::Flagged => ImapFlagView::Flagged,
            ImapFlag::Draft => ImapFlagView::Draft,
            ImapFlag::Deleted => ImapFlagView::Deleted,
            ImapFlag::Keyword(text) => ImapFlagView::Keyword(text@),
        }
    }
}

impl ImapFlagView {
    /// Whether the keyword, if it is one, is an atom.
    pub open spec fn ok(self) -> bool {
        self matches ImapFlagView::Keyword(text) ==> atom(text)
    }
}

/// The IMAP counterpart of a flag: the system flag, or a keyword in its
/// own spelling where that is an atom and sanitised where it is not.
pub open spec fn imap_flag(raw: Seq<char>) -> ImapFlagView {
    match IanaFlag::parsed(raw) {
        Some(IanaFlag::Seen) => ImapFlagView::Seen,
        Some(IanaFlag::Answered) => ImapFlagView::Answered,
        Some(IanaFlag::Flagged) => ImapFlagView::Flagged,
        Some(IanaFlag::Draft) => ImapFlagView::Draft,
        Some(IanaFlag::Deleted) => ImapFlagView::Deleted,
        _ => ImapFlagView::Keyword(sanitised(raw)),
    }
}

/// Maps a shared [`Flag`] to its IMAP wire counterpart. A keyword has at
/// least one character.
pub fn flag_from(flag: &Flag) -> (r: ImapFlag)
    requires
        flag@.len() > 0,
    ensures
        r.deep_view() == imap_flag(flag@),
        r.deep_view().ok(),
{
    match flag.iana() {
        Some(IanaFlag::Seen) => ImapFlag::Seen,
        Some(IanaFlag::Answered) => ImapFlag::Answered,
        Some(IanaFlag::Flagged) => ImapFlag::Flagged,
        Some(IanaFlag::Draft) => ImapFlag::Draft,
        Some(IanaFlag::Deleted) => ImapFlag::Deleted,
        _ => {
            proof {
                law_sanitised(flag@);
            }
            if is_atom(flag.raw()) {
                ImapFlag::Keyword(flag.raw().to_owned())
            } else {
                ImapFlag::Keyword(sanitise_atom(flag.raw()))
            }
        },
    }
}

/// Whether a text is a message number or `*` of an IMAP sequence set.
pub open spec fn set_number(text: Seq<char>) -> bool {
    ||| text == seq!['*']
    ||| text.len() > 0 && text[0] != '0' && uid_of(text) is Some
}

/// Whether a text is a number or a range of an IMAP sequence set.
pub open spec fn set_range(text: Seq<char>) -> bool {
    let ends = split(text, ':');
    ||| ends.len() == 1 && set_number(ends[0])
    ||| ends.len() == 2 && set_number(ends[0]) && set_number(ends[1])
}

/// Whether a text is an IMAP sequence set: numbers and ranges, separated
/// by commas.
pub open spec fn sequence_set_text(text: Seq<char>) -> bool {
    forall|i: int| 0 <= i < split(text, ',').len() ==> set_range(#[trigger] split(text, ',')[i])
}

proof fn lemma_digits_hold_no(s: Seq<char>, c: char)
    requires
        all_digits(s),
        c < '0' || '9' < c,
    ensures
        !s.contains(c),
{
    if s.contains(c) {
        let i = s.index_of(c);
        assert(s[i] == c);
    }
}

proof fn lemma_set_number(n: nat)
    requires
        0 < n <= u32::MAX,
    ensures
        set_number(decimal(n)),
        !decimal(n).contains(','),
        !decimal(n).contains(':'),
{
    lemma_decimal(n);
    lemma_digits_hold_no(decimal(n), ',');
    lemma_digits_hold_no(decimal(n), ':');
    assert('0' <= decimal(n)[0]);
}

/// The range of two positive numbers, or of a positive number and `*`.
pub open spec fn range_text(start: nat, end: Option<nat>) -> Seq<char> {
    decimal(start) + seq![':'] + (match end {
        Some(end) => decimal(end),
        None => seq!['*'],
    })
}

/// A range is a sequence set.
pub proof fn lemma_range_is_set(start: nat, end: Option<nat>)
    requires
        0 < start <= u32::MAX,
        end matches Some(end) ==> 0 < end <= u32::MAX,
    ensures
        sequence_set_text(range_text(start, end)),
        split(range_text(start, end), ',') == seq![range_text(start, end)],
        split(range_text(start, end), ':') == seq![
            decimal(start),
            match end {
                Some(end) => decimal(end),
                None => seq!['*'],
            },
        ],
{
    let a = decimal(start);
    let b = match end {
        Some(end) => decimal(end),
        None => seq!['*'],
    };
    lemma_set_number(start);
    match end {
        Some(end) => lemma_set_number(end),
        None => {
            assert(!seq!['*'].contains(',')) by {
                if seq!['*'].contains(',') {
                    let i = seq!['*'].index_of(',');
                    assert(seq!['*'][i] == ',');
                }
            }
            assert(!seq!['*'].contains(':')) by {
                if seq!['*'].contains(':') {
                    let i = seq!['*'].index_of(':');
                    assert(seq!['*'][i] == ':');
                }
            }
        },
    }
    let s = range_text(start, end);
    assert(!s.contains(',')) by {
        if s.contains(',') {
            let i = s.index_of(',');
            assert(s[i] == ',');
            if i < a.len() {
                assert(a[i] == ',');
            } else if i > a.len() {
                assert(b[i - a.len() - 1] == ',');
            }
        }
    }
    lemma_split_first(s, Seq::empty(), ',');
    lemma_split_first(a, b, ':');
    lemma_split_first(b, Seq::empty(), ':');
    assert(split(s, ':') =~= seq![a, b]);
}

/// Positive numbers separated by commas are a sequence set.
pub proof fn lemma_list_is_set(ns: Seq<u32>)
    requires
        uids_ok(ns),
    ensures
        sequence_set_text(joined(decimals(ns), seq![','])),
        split(joined(decimals(ns), seq![',']), ',') == decimals(ns),
{
    let parts = decimals(ns);
    assert forall|i: int| 0 <= i < parts.len() implies !(#[trigger] parts[i]).contains(',') by {
        lemma_set_number(ns[i] as nat);
    }
    lemma_split_joined(parts);
    assert forall|i: int| 0 <= i < parts.len() implies set_range(#[trigger] parts[i]) by {
        lemma_set_number(ns[i] as nat);
        lemma_split_first(parts[i], Seq::empty(), ':');
        assert(split(parts[i], ':')[0] == parts[i]);
    }
}

proof fn lemma_split_joined(parts: Seq<Seq<char>>)
    requires
        parts.len() > 0,
        forall|i: int| 0 <= i < parts.len() ==> !(#[trigger] parts[i]).contains(','),
    ensures
        split(joined(parts, seq![',']), ',') == parts,
    decreases parts.len(),
{
    lemma_joined_first(parts);
    lemma_split_first(parts[0], Seq::empty(), ',');
    if parts.len() == 1 {
        assert(parts =~= seq![parts[0]]);
    } else {
        let rest = parts.drop_first();
        assert forall|i: int| 0 <= i < rest.len() implies !(#[trigger] rest[i]).contains(',') by {
            assert(rest[i] == parts[i + 1]);
        }
        lemma_split_joined(rest);
        lemma_split_first(parts[0], joined(rest, seq![',']), ',');
        assert(parts =~= seq![parts[0]] + rest);
    }
}

/// Joining from the front is joining from the back.
proof fn lemma_joined_first(parts: Seq<Seq<char>>)
    requires
        parts.len() > 0,
    ensures
        parts.len() == 1 ==> joined(parts, seq![',']) == parts[0],
        parts.len() > 1 ==> joined(parts, seq![',']) == parts[0] + seq![','] + joined(
            parts.drop_first(),
            seq![','],
        ),
    decreases parts.len(),
{
    if parts.len() == 2 {
        assert(parts.drop_last()[0] == parts[0]);
        assert(joined(parts.drop_last(), seq![',']) == parts[0]);
        assert(parts.drop_first()[0] == parts.last());
        assert(joined(parts.drop_first(), seq![',']) == parts.last());
    } else if parts.len() > 2 {
        let most = parts.drop_last();
        lemma_joined_first(most);
        let rest = parts.drop_first();
        assert(rest.drop_last() =~= most.drop_first());
        assert(rest.last() == parts.last());
        assert(joined(parts, seq![',']) =~= parts[0] + seq![','] + joined(rest, seq![',']));
    }
}

/// How a flag is spelled on the wire.
pub open spec fn wire_spelling(flag: ImapFlagView) -> Seq<char> {
    match flag {
        ImapFlagView::Seen => "\\Seen"@,
        ImapFlagView::Answered => "\\Answered"@,
        ImapFlagView::Flagged => "\\Flagged"@,
        ImapFlagView::Draft => "\\Draft"@,
        ImapFlagView::Deleted => "\\Deleted"@,
        ImapFlagView::Keyword(word) => word,
    }
}

/// Whether a flag is kept under the spelling of one of the system flags that
/// IMAP has.
pub open spec fn system_spelling(raw: Seq<char>) -> bool {
    ||| kept(raw) == "\\Seen"@
    ||| kept(raw) == "\\Answered"@
    ||| kept(raw) == "\\Flagged"@
    ||| kept(raw) == "\\Draft"@
    ||| kept(raw) == "\\Deleted"@
}

proof fn lemma_system(raw: Seq<char>)
    ensures
        system_spelling(raw) <==> (IanaFlag::parsed(raw) matches Some(flag) && (flag is Seen
            || flag is Answered || flag is Flagged || flag is Draft || flag is Deleted)),
{
    law_kept_idempotent(raw);
    law_spelling_parses_back(IanaFlag::Seen);
    law_spelling_parses_back(IanaFlag::Answered);
    law_spelling_parses_back(IanaFlag::Flagged);
    law_spelling_parses_back(IanaFlag::Draft);
    law_spelling_parses_back(IanaFlag::Deleted);
    match IanaFlag::parsed(raw) {
        Some(flag) => {
            law_spelling_parses_back(flag);
        },
        None => {},
    }
}

/// A flag survives the way to the wire and back: read again from its wire
/// spelling it is the flag that was asked for, where it is a system flag or
/// its spelling is an atom. Another keyword stays a keyword.
pub proof fn law_flag_survives_the_wire(raw: Seq<char>)
    ensures
        system_spelling(raw) || atom(raw) ==> kept(wire_spelling(imap_flag(raw))) == kept(raw),
        imap_flag(raw) is Keyword <==> !system_spelling(raw),
{
    lemma_system(raw);
    law_spelling_parses_back(IanaFlag::Seen);
    law_spelling_parses_back(IanaFlag::Answered);
    law_spelling_parses_back(IanaFlag::Flagged);
    law_spelling_parses_back(IanaFlag::Draft);
    law_spelling_parses_back(IanaFlag::Deleted);
    law_sanitised(raw);
}

/// Flags that are told apart have wire flags that are told apart, where they
/// are system flags or their spellings are atoms.
pub proof fn law_wire_flags_are_told_apart(a: Seq<char>, b: Seq<char>)
    requires
        system_spelling(a) || atom(a),
        system_spelling(b) || atom(b),
        kept(a) != kept(b),
    ensures
        imap_flag(a) != imap_flag(b),
{
    law_flag_survives_the_wire(a);
    law_flag_survives_the_wire(b);
}

/// Sanitising changes a character only where it cannot stand in an atom, and
/// then to an underscore.
pub proof fn law_sanitised_place_by_place(raw: Seq<char>, i: int)
    requires
        0 <= i < raw.len(),
    ensures
        atom_char(raw[i]) ==> sanitised(raw)[i] == raw[i],
        !atom_char(raw[i]) ==> sanitised(raw)[i] == '_',
        atom_char('_'),
{
}

/// What can stand in an atom is a visible ASCII character other than those
/// that IMAP uses for itself.
pub proof fn law_atom_characters(c: char)
    ensures
        atom_char(c) <==> 0x21 <= c as u32 <= 0x7e && !"(){%*\"\\]"@.contains(c),
{
    reveal_strlit("(){%*\"\\]");
    let marks = "(){%*\"\\]"@;
    assert(marks[0] == '(' && marks[1] == ')' && marks[2] == '{' && marks[3] == '%' && marks[4] == '*'
        && marks[5] == '"' && marks[6] == '\\' && marks[7] == ']');
    assert(marks.len() == 8);
    if marks.contains(c) {
        let i = choose|i: int| 0 <= i < marks.len() && marks[i] == c;
    }
}

/// The ids of a request come to their UIDs, each in its place and none of
/// them zero, exactly when every id is a positive number; else the first one
/// that is none is told.
pub proof fn law_uids_are_read_in_order(ids: Seq<&str>)
    ensures
        uids_of(ids) is Ok <==> ids.len() > 0 && forall|i: int|
            0 <= i < ids.len() ==> (number((#[trigger] ids[i])@) matches Some(n) && n > 0),
        uids_of(ids) matches Ok(uids) ==> uids.len() == ids.len() && forall|i: int|
            0 <= i < ids.len() ==> number((#[trigger] ids[i])@) == Some(uids[i]),
        uids_of(ids) matches Err(Some(id)) ==> exists|i: int|
            0 <= i < ids.len() && (#[trigger] ids[i])@ == id && !(number(id) matches Some(n) && n > 0)
                && forall|j: int| 0 <= j < i ==> (number((#[trigger] ids[j])@) matches Some(n) && n > 0),
        uids_of(ids) == Err::<Seq<u32>, Option<Seq<char>>>(None) <==> ids.len() == 0,
{
    lemma_first_bad_place(ids);
}

proof fn lemma_first_bad_place(ids: Seq<&str>)
    ensures
        match first_bad(ids) {
            Some(id) => exists|i: int|
                0 <= i < ids.len() && (#[trigger] ids[i])@ == id && uid_of(id) is None && forall|j: int|
                    0 <= j < i ==> uid_of((#[trigger] ids[j])@) is Some,
            None => forall|i: int| 0 <= i < ids.len() ==> uid_of((#[trigger] ids[i])@) is Some,
        },
    decreases ids.len(),
{
    if ids.len() > 0 {
        let rest = ids.drop_first();
        if uid_of(ids[0]@) is None {
            assert(ids[0]@ == first_bad(ids)->0);
        } else {
            lemma_first_bad_place(rest);
            match first_bad(rest) {
                Some(id) => {
                    let k = choose|i: int|
                        0 <= i < rest.len() && (#[trigger] rest[i])@ == id && uid_of(id) is None
                            && forall|j: int| 0 <= j < i ==> uid_of((#[trigger] rest[j])@) is Some;
                    assert(ids[k + 1] == rest[k]);
                    assert forall|j: int| 0 <= j < k + 1 implies uid_of((#[trigger] ids[j])@) is Some by {
                        if j > 0 {
                            assert(rest[j - 1] == ids[j]);
                        }
                    }
                },
                None => {
                    assert forall|i: int| 0 <= i < ids.len() implies uid_of((#[trigger] ids[i])@) is Some by {
                        if i > 0 {
                            assert(rest[i - 1] == ids[i]);
                        }
                    }
                },
            }
        }
    }
}

/// Only a NUL keeps a text from travelling.
pub proof fn law_only_nul_cannot_travel(text: Seq<char>)
    ensures
        transmissible(text) <==> forall|i: int| 0 <= i < text.len() ==> #[trigger] text[i] != '\0',
{
    if !transmissible(text) {
        assert(text[text.index_of('\0')] == '\0');
    }
}

/// A UID is a number other than zero, written down in digits.
pub proof fn law_uid_is_a_positive_number(n: u32, id: Seq<char>)
    ensures
        uid_of(decimal(n as nat)) == if n == 0 {
            None
        } else {
            Some(n)
        },
        uid_of(id) is Some <==> number(id) is Some && number(id) != Some(0u32),
        uid_of(id) is Some ==> uid_of(id) == number(id),
{
    law_decimal_reads_back(n);
}

} // verus!
