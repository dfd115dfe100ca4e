//! Flags as they travel: IANA registered flags and custom keywords, sets
//! of them, and the operations that store them.
use vstd::prelude::*;

use crate::flag::{bare, bare_of};
use crate::text::{
    ascii_lower, before, is_before, lemma_before_total, lemma_before_trans, lower, same_text, trim_start,
};

verus! {

/// A flag of the IANA IMAP and JMAP keyword registry.
#[derive(Clone, Copy, Debug, PartialEq, Eq, Hash, Structural)]
pub enum IanaFlag {
    Seen,
    Answered,
    Flagged,
    Draft,
    Deleted,
    Forwarded,
    Junk,
    NotJunk,
    Phishing,
    Important,
    MdnSent,
}

/// How a flag set is applied to a message.
#[derive(Clone, Copy, Debug, PartialEq, Eq, Hash, Structural)]
pub enum FlagOp {
    /// The flags are set beside those already there.
    Add,
    /// The flags take the place of those already there.
    Replace,
    /// The flags are unset.
    Remove,
}

impl IanaFlag {
    /// The registered spelling.
    pub open spec fn spelling(self) -> Seq<char> {
        match self {
            IanaFlag::Seen => "\\Seen"@,
            IanaFlag::Answered => "\\Answered"@,
            IanaFlag::Flagged => "\\Flagged"@,
            IanaFlag::Draft => "\\Draft"@,
            IanaFlag::Deleted => "\\Deleted"@,
            IanaFlag::Forwarded => "$Forwarded"@,
            IanaFlag::Junk => "$Junk"@,
            IanaFlag::NotJunk => "$NotJunk"@,
            IanaFlag::Phishing => "$Phishing"@,
            IanaFlag::Important => "$Important"@,
            IanaFlag::MdnSent => "$MDNSent"@,
        }
    }

    /// The registered flag that a wire spelling denotes, in any case and
    /// with any sigils in front.
    pub open spec fn parsed(raw: Seq<char>) -> Option<IanaFlag> {
        let name = bare(raw);
        if name == "seen"@ {
            Some(IanaFlag::Seen)
        } else if name == "answered"@ {
            Some(IanaFlag::Answered)
        } else if name == "flagged"@ {
            Some(IanaFlag::Flagged)
        } else if name == "draft"@ {
            Some(IanaFlag::Draft)
        } else if name == "deleted"@ {
            Some(IanaFlag::Deleted)
        } else if name == "forwarded"@ {
            Some(IanaFlag::Forwarded)
        } else if name == "junk"@ {
            Some(IanaFlag::Junk)
        } else if name == "notjunk"@ {
            Some(IanaFlag::NotJunk)
        } else if name == "phishing"@ {
            Some(IanaFlag::Phishing)
        } else if name == "important"@ {
            Some(IanaFlag::Important)
        } else if name == "mdnsent"@ {
            Some(IanaFlag::MdnSent)
        } else {
            None
        }
    }

    /// The registered spelling.
    pub fn as_str(self) -> (r: &'static str)
        ensures
            r@ == self.spelling(),
    {
        match self {
            IanaFlag::Seen => "\\Seen",
            IanaFlag::Answered => "\\Answered",
            IanaFlag::Flagged => "\\Flagged",
            IanaFlag::Draft => "\\Draft",
            IanaFlag::Deleted => "\\Deleted",
            IanaFlag::Forwarded => "$Forwarded",
            IanaFlag::Junk => "$Junk",
            IanaFlag::NotJunk => "$NotJunk",
            IanaFlag::Phishing => "$Phishing",
            IanaFlag::Important => "$Important",
            IanaFlag::MdnSent => "$MDNSent",
        }
    }

    /// Parses a wire spelling; `None` for a custom keyword.
    pub fn parse(raw: &str) -> (r: Option<IanaFlag>)
        ensures
            r == IanaFlag::parsed(raw@),
    {
        let name = bare_of(raw);
        if same_text(&name, "seen") {
            Some(IanaFlag::Seen)
        } else if same_text(&name, "answered") {
            Some(IanaFlag::Answered)
        } else if same_text(&name, "flagged") {
            Some(IanaFlag::Flagged)
        } else if same_text(&name, "draft") {
            Some(IanaFlag::Draft)
        } else if same_text(&name, "deleted") {
            Some(IanaFlag::Deleted)
        } else if same_text(&name, "forwarded") {
            Some(IanaFlag::Forwarded)
        } else if same_text(&name, "junk") {
            Some(IanaFlag::Junk)
        } else if same_text(&name, "notjunk") {
            Some(IanaFlag::NotJunk)
        } else if same_text(&name, "phishing") {
            Some(IanaFlag::Phishing)
        } else if same_text(&name, "important") {
            Some(IanaFlag::Important)
        } else if same_text(&name, "mdnsent") {
            Some(IanaFlag::MdnSent)
        } else {
            None
        }
    }
}

proof fn lemma_bare(raw: Seq<char>, name: Seq<char>)
    requires
        raw.len() == name.len() + 1,
        raw[0] == '\\' || raw[0] == '$',
        name.len() > 0,
        raw[1] != '\\' && raw[1] != '$',
        forall|i: int| 0 <= i < name.len() ==> lower(raw[i + 1]) == name[i],
    ensures
        bare(raw) == name,
{
    let drop = |c: char| crate::flag::sigil(c);
    let rest = raw.drop_first();
    assert(rest[0] == raw[1]);
    assert(trim_start(raw, drop) == trim_start(rest, drop));
    assert(trim_start(rest, drop) == rest);
    assert(ascii_lower(rest) =~= name);
}

/// A registered spelling parses back to its flag.
pub proof fn law_spelling_parses_back(flag: IanaFlag)
    ensures
        IanaFlag::parsed(flag.spelling()) == Some(flag),
{
    reveal_strlit("\\Seen");
    reveal_strlit("\\Answered");
    reveal_strlit("\\Flagged");
    reveal_strlit("\\Draft");
    reveal_strlit("\\Deleted");
    reveal_strlit("$Forwarded");
    reveal_strlit("$Junk");
    reveal_strlit("$NotJunk");
    reveal_strlit("$Phishing");
    reveal_strlit("$Important");
    reveal_strlit("$MDNSent");
    reveal_strlit("seen");
    reveal_strlit("answered");
    reveal_strlit("flagged");
    reveal_strlit("draft");
    reveal_strlit("deleted");
    reveal_strlit("forwarded");
    reveal_strlit("junk");
    reveal_strlit("notjunk");
    reveal_strlit("phishing");
    reveal_strlit("important");
    reveal_strlit("mdnsent");
    match flag {
        IanaFlag::Seen => lemma_bare("\\Seen"@, "seen"@),
        IanaFlag::Answered => lemma_bare("\\Answered"@, "answered"@),
        IanaFlag::Flagged => lemma_bare("\\Flagged"@, "flagged"@),
        IanaFlag::Draft => lemma_bare("\\Draft"@, "draft"@),
        IanaFlag::Deleted => lemma_bare("\\Deleted"@, "deleted"@),
        IanaFlag::Forwarded => lemma_bare("$Forwarded"@, "forwarded"@),
        IanaFlag::Junk => lemma_bare("$Junk"@, "junk"@),
        IanaFlag::NotJunk => lemma_bare("$NotJunk"@, "notjunk"@),
        IanaFlag::Phishing => lemma_bare("$Phishing"@, "phishing"@),
        IanaFlag::Important => lemma_bare("$Important"@, "important"@),
        IanaFlag::MdnSent => lemma_bare("$MDNSent"@, "mdnsent"@),
    }
    // The names differ in length or in one of their first characters.
    assert("seen"@[0] == 's' && "junk"@[0] == 'j');
    assert("deleted"@[0] == 'd' && "flagged"@[0] == 'f' && "notjunk"@[0] == 'n' && "mdnsent"@[0] == 'm');
    assert("answered"@[0] == 'a' && "phishing"@[0] == 'p');
    assert("forwarded"@[0] == 'f' && "important"@[0] == 'i');
}

/// A flag: a registered one in its registered spelling, or a custom
/// keyword.
#[derive(Debug)]
pub struct Flag {
    raw: String,
}

impl View for Flag {
    type V = Seq<char>;

    closed spec fn view(&self) -> Seq<char> {
        self.raw@
    }
}

impl DeepView for Flag {
    type V = Seq<char>;

    open spec fn deep_view(&self) -> Seq<char> {
        self@
    }
}

/// The spelling under which a flag is kept: the registered one where there
/// is one, else its own.
pub open spec fn kept(raw: Seq<char>) -> Seq<char> {
    match IanaFlag::parsed(raw) {
        Some(flag) => flag.spelling(),
        None => raw,
    }
}

/// Keeping a spelling twice is keeping it once.
pub proof fn law_kept_idempotent(raw: Seq<char>)
    ensures
        kept(kept(raw)) == kept(raw),
{
    if let Some(flag) = IanaFlag::parsed(raw) {
        law_spelling_parses_back(flag);
    }
}

impl Flag {
    #[verifier::type_invariant]
    closed spec fn inv(self) -> bool {
        kept(self.raw@) == self.raw@
    }

    /// The flag of a registered keyword.
    pub fn from_iana(flag: IanaFlag) -> (r: Flag)
        ensures
            r@ == flag.spelling(),
    {
        proof {
            law_spelling_parses_back(flag);
        }
        Flag { raw: flag.as_str().to_owned() }
    }

    /// The flag that a wire spelling denotes.
    pub fn from_raw(raw: &str) -> (r: Flag)
        ensures
            r@ == kept(raw@),
    {
        proof {
            law_kept_idempotent(raw@);
        }
        match IanaFlag::parse(raw) {
            Some(flag) => Flag { raw: flag.as_str().to_owned() },
            None => Flag { raw: raw.to_owned() },
        }
    }

    /// The spelling of the flag.
    pub fn raw(&self) -> (r: &str)
        ensures
            r@ == self@,
            kept(r@) == r@,
    {
        proof {
            use_type_invariant(self);
        }
        self.raw.as_str()
    }

    /// The registered flag that this one is; `None` for a custom keyword.
    pub fn iana(&self) -> (r: Option<IanaFlag>)
        ensures
            r == IanaFlag::parsed(self@),
            r matches Some(flag) ==> self@ == flag.spelling(),
    {
        proof {
            use_type_invariant(self);
        }
        IanaFlag::parse(&self.raw)
    }

    /// Whether this is the registered flag `flag`.
    pub open spec fn is(self, flag: IanaFlag) -> bool {
        IanaFlag::parsed(self@) == Some(flag)
    }

    pub fn is_iana(&self, flag: IanaFlag) -> (r: bool)
        ensures
            r == self.is(flag),
    {
        match self.iana() {
            Some(own) => own == flag,
            None => false,
        }
    }

    pub fn is_seen(&self) -> (r: bool)
        ensures
            r == self.is(IanaFlag::Seen),
    {
        self.is_iana(IanaFlag::Seen)
    }

    pub fn is_flagged(&self) -> (r: bool)
        ensures
            r == self.is(IanaFlag::Flagged),
    {
        self.is_iana(IanaFlag::Flagged)
    }

    pub fn is_important(&self) -> (r: bool)
        ensures
            r == self.is(IanaFlag::Important),
    {
        self.is_iana(IanaFlag::Important)
    }

    pub fn is_draft(&self) -> (r: bool)
        ensures
            r == self.is(IanaFlag::Draft),
    {
        self.is_iana(IanaFlag::Draft)
    }

    pub fn is_junk(&self) -> (r: bool)
        ensures
            r == self.is(IanaFlag::Junk),
    {
        self.is_iana(IanaFlag::Junk)
    }
}

impl Clone for Flag {
    fn clone(&self) -> (r: Flag)
        ensures
            r@ == self@,
    {
        proof {
            use_type_invariant(self);
        }
        Flag { raw: self.raw.clone() }
    }
}

/// Whether the spellings stand in order, none twice.
pub open spec fn ordered(list: Seq<Seq<char>>) -> bool {
    forall|i: int, j: int| 0 <= i < j < list.len() ==> before(#[trigger] list[i], #[trigger] list[j])
}

/// Two lists in order with the same members are the same list.
pub proof fn lemma_ordered_unique(a: Seq<Seq<char>>, b: Seq<Seq<char>>)
    requires
        ordered(a),
        ordered(b),
        forall|t: Seq<char>| a.contains(t) <==> b.contains(t),
    ensures
        a == b,
    decreases a.len(),
{
    if a.len() == 0 {
        if b.len() > 0 {
            assert(b.contains(b[0]));
            assert(a.contains(b[0]));
        }
        assert(a =~= b);
    } else if b.len() == 0 {
        assert(a.contains(a[0]));
        assert(b.contains(a[0]));
    } else {
        let x = a.last();
        let y = b.last();
        assert(a.contains(x) && b.contains(y));
        let i = b.index_of(x);
        let j = a.index_of(y);
        assert(b.contains(x) && a.contains(y));
        if x != y {
            assert(i < b.len() - 1 && j < a.len() - 1);
            assert(before(b[i], b[b.len() - 1]));
            assert(before(a[j], a[a.len() - 1]));
            lemma_before_total(x, y);
        }
        let c = a.drop_last();
        let d = b.drop_last();
        assert forall|t: Seq<char>| c.contains(t) <==> d.contains(t) by {
            if c.contains(t) {
                let k = c.index_of(t);
                assert(a[k] == t);
                assert(a.contains(t));
                assert(before(a[k], a[a.len() - 1]));
                lemma_before_total(t, x);
                let m = b.index_of(t);
                assert(d[m] == t);
            }
            if d.contains(t) {
                let k = d.index_of(t);
                assert(b[k] == t);
                assert(b.contains(t));
                assert(before(b[k], b[b.len() - 1]));
                lemma_before_total(t, y);
                let m = a.index_of(t);
                assert(c[m] == t);
            }
        }
        lemma_ordered_unique(c, d);
        assert(a =~= c.push(x));
        assert(b =~= d.push(y));
    }
}

/// A set of flags, walked in the order of their spellings.
#[derive(Debug)]
pub struct FlagSet {
    flags: Vec<Flag>,
}

impl FlagSet {
    /// The spellings in the set, in order.
    pub closed spec fn list(&self) -> Seq<Seq<char>> {
        self.flags.deep_view()
    }

    #[verifier::type_invariant]
    closed spec fn inv(self) -> bool {
        ordered(self.flags.deep_view())
    }

    pub fn new() -> (r: FlagSet)
        ensures
            r@ == Set::<Seq<char>>::empty(),
    {
        let flags: Vec<Flag> = Vec::new();
        let r = FlagSet { flags };
        proof {
            assert(r@ =~= Set::<Seq<char>>::empty());
        }
        r
    }

    /// The flags in order.
    pub fn as_vec(&self) -> (r: &Vec<Flag>)
        ensures
            r.deep_view() == self.list(),
            self.list().to_set() == self@,
            ordered(self.list()),
    {
        proof {
            use_type_invariant(self);
        }
        &self.flags
    }

    pub fn is_empty(&self) -> (r: bool)
        ensures
            r == (self@ == Set::<Seq<char>>::empty()),
    {
        proof {
            if self.flags@.len() == 0 {
                assert(self@ =~= Set::<Seq<char>>::empty());
            } else {
                assert(self.list()[0] == self.flags@[0]@);
                assert(self@.contains(self.list()[0]));
            }
        }
        self.flags.len() == 0
    }

    pub fn contains(&self, flag: &Flag) -> (r: bool)
        ensures
            r == self@.contains(flag@),
    {
        let mut i: usize = 0;
        while i < self.flags.len()
            invariant
                i <= self.flags@.len(),
                forall|j: int| 0 <= j < i ==> self.list()[j] != flag@,
            decreases self.flags@.len() - i,
        {
            if same_text(self.flags[i].raw(), flag.raw()) {
                proof {
                    assert(self.list()[i as int] == flag@);
                }
                return true;
            }
            i = i + 1;
        }
        proof {
            assert(!self.list().contains(flag@));
        }
        false
    }

    /// Puts `flag` into the set.
    pub fn insert(&mut self, flag: Flag)
        ensures
            final(self)@ == old(self)@.insert(flag@),
    {
        proof {
            use_type_invariant(&*self);
        }
        let mut i: usize = 0;
        while i < self.flags.len() && is_before(self.flags[i].raw(), flag.raw())
            invariant
                i <= self.flags@.len(),
                forall|j: int| 0 <= j < i ==> before(self.list()[j], flag@),
            decreases self.flags@.len() - i,
        {
            i = i + 1;
        }
        let ghost was = self.list();
        if i < self.flags.len() && same_text(self.flags[i].raw(), flag.raw()) {
            proof {
                assert(was[i as int] == flag@);
                assert(was.contains(flag@));
                assert(self@ =~= old(self)@.insert(flag@));
            }
            return ;
        }
        let ghost text = flag@;
        let mut flags: Vec<Flag> = Vec::new();
        core::mem::swap(&mut self.flags, &mut flags);
        flags.insert(i, flag);
        proof {
            let now = flags.deep_view();
            assert(now =~= was.insert(i as int, text));
            if i < was.len() {
                lemma_before_total(was[i as int], text);
            }
            assert forall|j: int, k: int| 0 <= j < k < now.len() implies before(
                #[trigger] now[j],
                #[trigger] now[k],
            ) by {
                let j0 = if j < i { j } else { j - 1 };
                let k0 = if k < i { k } else { k - 1 };
                if j == i {
                    if k0 > i {
                        lemma_before_trans(text, was[i as int], was[k0]);
                    }
                } else if k == i {
                } else {
                    assert(before(was[j0], was[k0]));
                }
            }
            assert forall|t: Seq<char>| now.contains(t) <==> (was.contains(t) || t == text) by {
                if was.contains(t) {
                    let k = was.index_of(t);
                    if k < i {
                        assert(now[k] == t);
                    } else {
                        assert(now[k + 1] == t);
                    }
                }
                if t == text {
                    assert(now[i as int] == t);
                }
                if now.contains(t) {
                    let k = now.index_of(t);
                    if k < i {
                        assert(was[k] == t);
                    } else if k > i {
                        assert(was[k - 1] == t);
                    }
                }
            }
        }
        self.flags = flags;
        proof {
            assert(self@ =~= old(self)@.insert(text));
        }
    }

    /// The flags of this set that are not in `other`.
    pub fn without(&self, other: &FlagSet) -> (r: FlagSet)
        ensures
            r@ == self@.difference(other@),
    {
        let mut out = FlagSet::new();
        let mut i: usize = 0;
        while i < self.flags.len()
            invariant
                i <= self.flags@.len(),
                out@ == self.list().subrange(0, i as int).to_set().difference(other@),
            decreases self.flags@.len() - i,
        {
            proof {
                let a = self.list().subrange(0, i as int);
                let b = self.list().subrange(0, i + 1);
                assert(b == a.push(self.flags@[i as int]@));
                assert(b.to_set() =~= a.to_set().insert(self.flags@[i as int]@)) by {
                    assert forall|t: Seq<char>| b.contains(t) <==> a.contains(t) || t == b.last() by {
                        if a.contains(t) {
                            let k = a.index_of(t);
                            assert(b[k] == t);
                        }
                        if b.contains(t) {
                            let k = b.index_of(t);
                            if k < i {
                                assert(a[k] == t);
                            }
                        }
                        assert(b[i as int] == b.last());
                    }
                }
            }
            if !other.contains(&self.flags[i]) {
                out.insert(self.flags[i].clone());
            }
            proof {
                assert(out@ =~= self.list().subrange(0, i + 1).to_set().difference(other@));
            }
            i = i + 1;
        }
        proof {
            assert(self.list().subrange(0, self.list().len() as int) == self.list());
        }
        out
    }
}

impl Clone for FlagSet {
    fn clone(&self) -> (r: FlagSet)
        ensures
            r@ == self@,
    {
        let none = FlagSet::new();
        let r = self.without(&none);
        proof {
            assert(r@ =~= self@);
        }
        r
    }
}

impl View for FlagSet {
    type V = Set<Seq<char>>;

    open spec fn view(&self) -> Set<Seq<char>> {
        self.list().to_set()
    }
}

impl DeepView for FlagSet {
    type V = Set<Seq<char>>;

    open spec fn deep_view(&self) -> Set<Seq<char>> {
        self@
    }
}

/// The order in which a flag set is walked depends on its members alone:
/// lists in order with the same members are the same.
pub proof fn law_flag_order_is_determined(a: Seq<Seq<char>>, b: Seq<Seq<char>>)
    requires
        ordered(a),
        ordered(b),
        a.to_set() == b.to_set(),
    ensures
        a == b,
{
    assert forall|t: Seq<char>| a.contains(t) <==> b.contains(t) by {
        assert(a.to_set().contains(t) == b.to_set().contains(t));
    }
    lemma_ordered_unique(a, b);
}

/// A spelling is that of a registered flag exactly when it is the registered
/// one but for sigils in front and ASCII case; any other is a keyword of its
/// own, kept as it is.
pub proof fn law_only_its_name_is_a_flag(raw: Seq<char>, flag: IanaFlag)
    ensures
        IanaFlag::parsed(raw) == Some(flag) <==> bare(raw) == bare(flag.spelling()),
        IanaFlag::parsed(raw) is None ==> kept(raw) == raw,
        kept(raw) == flag.spelling() <==> bare(raw) == bare(flag.spelling()),
{
    law_spelling_parses_back(flag);
    if let Some(own) = IanaFlag::parsed(raw) {
        law_spelling_parses_back(own);
    }
}

/// The flags of the base protocol begin with a backslash, the keywords that
/// were registered later with a dollar sign.
pub proof fn law_system_flags_begin_with_a_backslash(flag: IanaFlag)
    ensures
        flag.spelling().len() > 0,
        flag.spelling()[0] == '\\' <==> flag == IanaFlag::Seen || flag == IanaFlag::Answered || flag
            == IanaFlag::Flagged || flag == IanaFlag::Draft || flag == IanaFlag::Deleted,
        flag.spelling()[0] == '\\' || flag.spelling()[0] == '$',
{
    reveal_strlit("\\Seen");
    reveal_strlit("\\Answered");
    reveal_strlit("\\Flagged");
    reveal_strlit("\\Draft");
    reveal_strlit("\\Deleted");
    reveal_strlit("$Forwarded");
    reveal_strlit("$Junk");
    reveal_strlit("$NotJunk");
    reveal_strlit("$Phishing");
    reveal_strlit("$Important");
    reveal_strlit("$MDNSent");
}

} // verus!
