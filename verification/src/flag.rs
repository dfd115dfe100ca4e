//! Email flag (a.k.a. keyword) shared across all protocols.
//!
//! [`Flag`] is the strict least common denominator across IMAP system
//! flags (RFC 3501 section 2.3.2), JMAP keywords (RFC 8621 section 4.1.1)
//! and Maildir info letters. [`types::Flag`] is the open set: every IANA
//! registered flag plus custom keywords.
use vstd::prelude::*;

use crate::flag::types::{law_spelling_parses_back, IanaFlag};
use crate::text::{
    ascii_lower, ascii_lower_of, chars_of, lemma_trim_start, lower, same_text, text_of, trim_start,
};

pub mod types;

verus! {

/// A flag that every backend natively supports.
#[derive(Clone, Copy, Debug, PartialEq, Eq, PartialOrd, Ord, Hash, Structural)]
pub enum Flag {
    Seen,
    Answered,
    Flagged,
    Draft,
}

/// The characters that introduce a flag on the wire: IMAP `\`, JMAP `$`.
pub open spec fn sigil(c: char) -> bool {
    c == '\\' || c == '$'
}

/// A wire flag without its sigils, in ASCII lower case.
pub open spec fn bare(flag: Seq<char>) -> Seq<char> {
    ascii_lower(trim_start(flag, |c: char| sigil(c)))
}

/// A wire flag without its sigils, in ASCII lower case.
pub fn bare_of(flag: &str) -> (r: String)
    ensures
        r@ == bare(flag@),
{
    let chars = chars_of(flag);
    let mut i: usize = 0;
    while i < chars.len() && (chars[i] == '\\' || chars[i] == '$')
        invariant
            i <= chars@.len(),
            forall|j: int| 0 <= j < i ==> sigil(#[trigger] chars@[j]),
        decreases chars@.len() - i,
    {
        i = i + 1;
    }
    proof {
        lemma_trim_start(flag@, |c: char| sigil(c), i as int);
    }
    let rest = text_of(&chars, i, chars.len());
    ascii_lower_of(&rest)
}

impl Flag {
    /// The flag that a wire spelling denotes: its name or its Maildir
    /// letter, in any case, with any sigils in front.
    pub open spec fn parsed(flag: Seq<char>) -> Option<Flag> {
        let name = bare(flag);
        if name == "seen"@ || name == "s"@ {
            Some(Flag::Seen)
        } else if name == "answered"@ || name == "r"@ {
            Some(Flag::Answered)
        } else if name == "flagged"@ || name == "f"@ {
            Some(Flag::Flagged)
        } else if name == "draft"@ || name == "d"@ {
            Some(Flag::Draft)
        } else {
            None
        }
    }

    /// Parses a wire flag string (IMAP `\Seen`, JMAP `$seen`, Maildir
    /// letter). `None` for anything outside the four variants.
    pub fn parse(flag: &str) -> (r: Option<Flag>)
        ensures
            r == Flag::parsed(flag@),
    {
        let name = bare_of(flag);
        if same_text(&name, "seen") || same_text(&name, "s") {
            Some(Flag::Seen)
        } else if same_text(&name, "answered") || same_text(&name, "r") {
            Some(Flag::Answered)
        } else if same_text(&name, "flagged") || same_text(&name, "f") {
            Some(Flag::Flagged)
        } else if same_text(&name, "draft") || same_text(&name, "d") {
            Some(Flag::Draft)
        } else {
            None
        }
    }
}

impl Flag {
    /// The same flag in the open set.
    pub open spec fn registered(self) -> IanaFlag {
        match self {
            Flag::Seen => IanaFlag::Seen,
            Flag::Answered => IanaFlag::Answered,
            Flag::Flagged => IanaFlag::Flagged,
            Flag::Draft => IanaFlag::Draft,
        }
    }

    /// The same flag in the open set.
    pub fn iana(self) -> (r: IanaFlag)
        ensures
            r == self.registered(),
    {
        match self {
            Flag::Seen => IanaFlag::Seen,
            Flag::Answered => IanaFlag::Answered,
            Flag::Flagged => IanaFlag::Flagged,
            Flag::Draft => IanaFlag::Draft,
        }
    }
}

/// The two sets of flags agree: the registered spelling of a flag parses
/// back to it.
pub proof fn law_registered_parses_back(flag: Flag)
    ensures
        Flag::parsed(flag.registered().spelling()) == Some(flag),
{
    law_spelling_parses_back(flag.registered());
    reveal_strlit("seen");
    reveal_strlit("s");
    reveal_strlit("answered");
    reveal_strlit("r");
    reveal_strlit("flagged");
    reveal_strlit("f");
    reveal_strlit("draft");
    reveal_strlit("d");
    assert("seen"@[0] == 's' && "answered"@[0] == 'a' && "flagged"@[0] == 'f' && "draft"@[0] == 'd');
    assert("s"@.len() == 1 && "r"@.len() == 1 && "f"@.len() == 1);
}

/// Sigils in front of a flag do not matter.
pub proof fn law_sigils_do_not_matter(c: char, flag: Seq<char>)
    requires
        sigil(c),
    ensures
        bare(seq![c] + flag) == bare(flag),
        Flag::parsed(seq![c] + flag) == Flag::parsed(flag),
{
    assert((seq![c] + flag)[0] == c);
    assert((seq![c] + flag).drop_first() =~= flag);
}

proof fn lemma_bare_of_lower(flag: Seq<char>)
    ensures
        bare(flag) == trim_start(ascii_lower(flag), |c: char| sigil(c)),
    decreases flag.len(),
{
    let drop = |c: char| sigil(c);
    let low = ascii_lower(flag);
    if flag.len() > 0 {
        let c = flag[0];
        assert(low[0] == lower(c));
        assert(sigil(lower(c)) == sigil(c)) by {
            if 'A' <= c && c <= 'Z' {
                assert(lower(c) as u8 == c as u8 + 32);
            }
        }
        if sigil(c) {
            lemma_bare_of_lower(flag.drop_first());
            assert(low.drop_first() =~= ascii_lower(flag.drop_first()));
        }
    }
}

/// ASCII case does not matter to a flag.
pub proof fn law_case_does_not_matter(a: Seq<char>, b: Seq<char>)
    requires
        ascii_lower(a) == ascii_lower(b),
    ensures
        bare(a) == bare(b),
        Flag::parsed(a) == Flag::parsed(b),
{
    lemma_bare_of_lower(a);
    lemma_bare_of_lower(b);
}

/// The Maildir letter of a flag.
pub open spec fn letter(flag: Flag) -> char {
    match flag {
        Flag::Seen => 's',
        Flag::Answered => 'r',
        Flag::Flagged => 'f',
        Flag::Draft => 'd',
    }
}

/// A spelling is that of a flag exactly when it is the registered one or the
/// Maildir letter, but for sigils in front and ASCII case.
pub proof fn law_only_name_or_letter_is_a_flag(raw: Seq<char>, flag: Flag)
    ensures
        Flag::parsed(raw) == Some(flag) <==> bare(raw) == bare(flag.registered().spelling()) || bare(raw)
            == seq![letter(flag)],
{
    law_registered_parses_back(flag);
    law_spelling_parses_back(flag.registered());
    reveal_strlit("seen");
    reveal_strlit("s");
    reveal_strlit("answered");
    reveal_strlit("r");
    reveal_strlit("flagged");
    reveal_strlit("f");
    reveal_strlit("draft");
    reveal_strlit("d");
    assert("s"@ =~= seq!['s']);
    assert("r"@ =~= seq!['r']);
    assert("f"@ =~= seq!['f']);
    assert("d"@ =~= seq!['d']);
    assert(seq!['s'][0] == 's' && seq!['r'][0] == 'r' && seq!['f'][0] == 'f' && seq!['d'][0] == 'd');
    assert("seen"@.len() == 4 && "answered"@.len() == 8 && "flagged"@.len() == 7 && "draft"@.len() == 5);
}

/// Backslashes and dollar signs in front of a flag are taken off, and nothing
/// else; the rest is made lower case.
pub proof fn law_only_sigils_are_taken_off(flag: Seq<char>)
    ensures
        bare(seq!['\\'] + flag) == bare(flag),
        bare(seq!['$'] + flag) == bare(flag),
        flag.len() == 0 || (flag[0] != '\\' && flag[0] != '$') ==> bare(flag) == ascii_lower(flag),
{
    law_sigils_do_not_matter('\\', flag);
    law_sigils_do_not_matter('$', flag);
}

} // verus!
