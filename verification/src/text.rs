//! Characters, strings and numbers: the small text operations that the
//! backends share, each with its meaning on sequences.
use vstd::prelude::*;
use vstd::utf8::{decode_utf8, valid_utf8};

verus! {

/// `String::push`: appends one character.
pub assume_specification[ String::push ](s: &mut String, c: char)
    ensures
        final(s)@ == old(s)@.push(c),
;

/// ASCII lower case of one character; every other character stays.
pub open spec fn lower(c: char) -> char {
    if 'A' <= c && c <= 'Z' {
        ((c as u8) + 32) as u8 as char
    } else {
        c
    }
}

/// ASCII lower case of a text.
pub open spec fn ascii_lower(s: Seq<char>) -> Seq<char> {
    s.map_values(|c: char| lower(c))
}

/// The characters with the Unicode property White_Space.
pub open spec fn white_space(c: char) -> bool {
    let n = c as u32;
    ||| 0x9 <= n <= 0xd
    ||| n == 0x20
    ||| n == 0x85
    ||| n == 0xa0
    ||| n == 0x1680
    ||| 0x2000 <= n <= 0x200a
    ||| n == 0x2028
    ||| n == 0x2029
    ||| n == 0x202f
    ||| n == 0x205f
    ||| n == 0x3000
}

/// `s` without its longest prefix of characters in `drop`.
pub open spec fn trim_start(s: Seq<char>, drop: spec_fn(char) -> bool) -> Seq<char>
    decreases s.len(),
{
    if s.len() > 0 && drop(s[0]) {
        trim_start(s.drop_first(), drop)
    } else {
        s
    }
}

/// `s` without its longest suffix of characters in `drop`.
pub open spec fn trim_end(s: Seq<char>, drop: spec_fn(char) -> bool) -> Seq<char>
    decreases s.len(),
{
    if s.len() > 0 && drop(s.last()) {
        trim_end(s.drop_last(), drop)
    } else {
        s
    }
}

/// `s` without surrounding white space.
pub open spec fn trimmed(s: Seq<char>) -> Seq<char> {
    trim_end(trim_start(s, |c: char| white_space(c)), |c: char| white_space(c))
}

/// The test for the one character `q`.
pub open spec fn only(q: char) -> spec_fn(char) -> bool {
    |c: char| c == q
}

/// `s` without surrounding `q` characters.
pub open spec fn unquoted(s: Seq<char>, q: char) -> Seq<char> {
    trim_end(trim_start(s, only(q)), only(q))
}

/// The decimal digit `d`.
pub open spec fn digit(d: nat) -> char {
    ((d + 48) as u8) as char
}

/// The decimal notation of `n`, without leading zeros.
pub open spec fn decimal(n: nat) -> Seq<char>
    decreases n,
{
    if n < 10 {
        seq![digit(n)]
    } else {
        decimal(n / 10).push(digit(n % 10))
    }
}

/// The decimal notation of `n` in at least `width` characters, padded with
/// zeros on the left.
pub open spec fn padded(n: nat, width: nat) -> Seq<char> {
    let d = decimal(n);
    if d.len() < width {
        Seq::new((width - d.len()) as nat, |i: int| '0') + d
    } else {
        d
    }
}

/// `parts` with `sep` between each two.
pub open spec fn joined(parts: Seq<Seq<char>>, sep: Seq<char>) -> Seq<char>
    decreases parts.len(),
{
    if parts.len() == 0 {
        seq![]
    } else if parts.len() == 1 {
        parts[0]
    } else {
        joined(parts.drop_last(), sep) + sep + parts.last()
    }
}

/// The characters of `s`.
pub fn chars_of(s: &str) -> (r: Vec<char>)
    ensures
        r@ == s@,
{
    let mut out: Vec<char> = Vec::new();
    for c in it: s.chars()
        invariant
            out@ == s@.subrange(0, it.index()),
            it.seq() == s@,
    {
        proof {
            assert(s@.subrange(0, it.index() + 1) == s@.subrange(0, it.index()).push(c));
        }
        out.push(c);
    }
    proof {
        assert(s@.subrange(0, s@.len() as int) == s@);
    }
    out
}

/// The text of the characters `chars[from..to]`.
pub fn text_of(chars: &Vec<char>, from: usize, to: usize) -> (r: String)
    requires
        from <= to <= chars@.len(),
    ensures
        r@ == chars@.subrange(from as int, to as int),
{
    let mut out = String::new();
    let mut i: usize = from;
    while i < to
        invariant
            from <= i <= to <= chars@.len(),
            out@ == chars@.subrange(from as int, i as int),
        decreases to - i,
    {
        proof {
            assert(chars@.subrange(from as int, i + 1) == chars@.subrange(from as int, i as int).push(
                chars@[i as int],
            ));
        }
        out.push(chars[i]);
        i = i + 1;
    }
    out
}

/// Whether two texts are the same.
pub fn same_text(a: &str, b: &str) -> (r: bool)
    ensures
        r == (a@ == b@),
{
    let x = chars_of(a);
    let y = chars_of(b);
    if x.len() != y.len() {
        return false;
    }
    let mut i: usize = 0;
    while i < x.len()
        invariant
            i <= x@.len(),
            x@ == a@,
            y@ == b@,
            x@.len() == y@.len(),
            forall|j: int| 0 <= j < i ==> x@[j] == y@[j],
        decreases x@.len() - i,
    {
        if x[i] != y[i] {
            return false;
        }
        i = i + 1;
    }
    proof {
        assert(a@ =~= b@);
    }
    true
}

pub fn lower_char(c: char) -> (r: char)
    ensures
        r == lower(c),
{
    if 'A' <= c && c <= 'Z' {
        ((c as u8) + 32) as char
    } else {
        c
    }
}

/// ASCII lower case of `s`.
pub fn ascii_lower_of(s: &str) -> (r: String)
    ensures
        r@ == ascii_lower(s@),
{
    let chars = chars_of(s);
    let mut out = String::new();
    let mut i: usize = 0;
    while i < chars.len()
        invariant
            i <= chars@.len(),
            chars@ == s@,
            out@ == ascii_lower(s@.subrange(0, i as int)),
        decreases chars@.len() - i,
    {
        proof {
            assert(ascii_lower(s@.subrange(0, i + 1)) == ascii_lower(s@.subrange(0, i as int)).push(
                lower(s@[i as int]),
            ));
        }
        out.push(lower_char(chars[i]));
        i = i + 1;
    }
    proof {
        assert(s@.subrange(0, s@.len() as int) == s@);
    }
    out
}

pub fn is_white_space(c: char) -> (r: bool)
    ensures
        r == white_space(c),
{
    let n: u32 = c as u32;
    (0x9 <= n && n <= 0xd) || n == 0x20 || n == 0x85 || n == 0xa0 || n == 0x1680 || (0x2000 <= n && n
        <= 0x200a) || n == 0x2028 || n == 0x2029 || n == 0x202f || n == 0x205f || n == 0x3000
}

/// Dropping a prefix of `drop` characters up to one that stays is `trim_start`.
pub proof fn lemma_trim_start(s: Seq<char>, drop: spec_fn(char) -> bool, n: int)
    requires
        0 <= n <= s.len(),
        forall|i: int| 0 <= i < n ==> drop(#[trigger] s[i]),
        n < s.len() ==> !drop(s[n]),
    ensures
        trim_start(s, drop) == s.subrange(n, s.len() as int),
    decreases n,
{
    if n > 0 {
        let t = s.drop_first();
        assert(drop(s[0]));
        assert forall|i: int| 0 <= i < n - 1 implies drop(#[trigger] t[i]) by {
            assert(t[i] == s[i + 1]);
        }
        lemma_trim_start(t, drop, n - 1);
        assert(t.subrange(n - 1, t.len() as int) == s.subrange(n, s.len() as int));
    } else {
        assert(s.subrange(0, s.len() as int) == s);
    }
}

/// Dropping a suffix of `drop` characters down to one that stays is `trim_end`.
pub proof fn lemma_trim_end(s: Seq<char>, drop: spec_fn(char) -> bool, n: int)
    requires
        0 <= n <= s.len(),
        forall|i: int| n <= i < s.len() ==> drop(#[trigger] s[i]),
        n > 0 ==> !drop(s[n - 1]),
    ensures
        trim_end(s, drop) == s.subrange(0, n),
    decreases s.len() - n,
{
    if n < s.len() {
        let t = s.drop_last();
        assert(drop(s[s.len() - 1]));
        lemma_trim_end(t, drop, n);
        assert(t.subrange(0, n) == s.subrange(0, n));
    } else {
        assert(s.subrange(0, n) == s);
    }
}

/// `s` without surrounding white space.
pub fn trim_of(s: &str) -> (r: String)
    ensures
        r@ == trimmed(s@),
{
    let chars = chars_of(s);
    let mut i: usize = 0;
    while i < chars.len() && is_white_space(chars[i])
        invariant
            i <= chars@.len(),
            forall|j: int| 0 <= j < i ==> white_space(#[trigger] chars@[j]),
        decreases chars@.len() - i,
    {
        i = i + 1;
    }
    let ghost drop = |c: char| white_space(c);
    proof {
        lemma_trim_start(s@, drop, i as int);
    }
    let ghost t = trim_start(s@, drop);
    let mut k: usize = chars.len();
    while i < k && is_white_space(chars[k - 1])
        invariant
            i <= k <= chars@.len(),
            forall|j: int| k <= j < chars@.len() ==> white_space(#[trigger] chars@[j]),
        decreases k,
    {
        k = k - 1;
    }
    proof {
        assert forall|j: int| k - i <= j < t.len() implies drop(#[trigger] t[j]) by {
            assert(t[j] == chars@[j + i]);
        }
        lemma_trim_end(t, drop, k - i);
        assert(t.subrange(0, k - i) == chars@.subrange(i as int, k as int));
    }
    text_of(&chars, i, k)
}

/// `s` without surrounding `q` characters.
pub fn unquote_of(s: &str, q: char) -> (r: String)
    ensures
        r@ == unquoted(s@, q),
{
    let chars = chars_of(s);
    let mut i: usize = 0;
    while i < chars.len() && chars[i] == q
        invariant
            i <= chars@.len(),
            forall|j: int| 0 <= j < i ==> #[trigger] chars@[j] == q,
        decreases chars@.len() - i,
    {
        i = i + 1;
    }
    let ghost drop = only(q);
    proof {
        lemma_trim_start(s@, drop, i as int);
    }
    let ghost t = trim_start(s@, drop);
    let mut k: usize = chars.len();
    while i < k && chars[k - 1] == q
        invariant
            i <= k <= chars@.len(),
            forall|j: int| k <= j < chars@.len() ==> #[trigger] chars@[j] == q,
        decreases k,
    {
        k = k - 1;
    }
    proof {
        assert forall|j: int| k - i <= j < t.len() implies drop(#[trigger] t[j]) by {
            assert(t[j] == chars@[j + i]);
        }
        lemma_trim_end(t, drop, k - i);
        assert(t.subrange(0, k - i) == chars@.subrange(i as int, k as int));
    }
    text_of(&chars, i, k)
}

/// The decimal notation of `n`.
pub fn decimal_of(n: u64) -> (r: String)
    ensures
        r@ == decimal(n as nat),
    decreases n,
{
    let last: u8 = (n % 10) as u8;
    let c: char = (last + 48) as char;
    if n < 10 {
        let mut out = String::new();
        out.push(c);
        proof {
            assert(out@ == decimal(n as nat));
        }
        out
    } else {
        let mut out = decimal_of(n / 10);
        out.push(c);
        out
    }
}

/// The decimal notation of `n`, padded with zeros to `width` characters.
pub fn padded_of(n: u64, width: usize) -> (r: String)
    ensures
        r@ == padded(n as nat, width as nat),
{
    let digits = decimal_of(n);
    let len: usize = chars_of(&digits).len();
    let mut out = String::new();
    let mut i: usize = len;
    while i < width
        invariant
            len == digits@.len(),
            len <= i,
            i <= width || i == len,
            out@ == Seq::new((i - len) as nat, |j: int| '0'),
        decreases width - i,
    {
        proof {
            assert(Seq::new((i + 1 - len) as nat, |j: int| '0') == Seq::new(
                (i - len) as nat,
                |j: int| '0',
            ).push('0'));
        }
        out.push('0');
        i = i + 1;
    }
    out.append(&digits);
    proof {
        if len < width {
            assert(out@ == padded(n as nat, width as nat));
        } else {
            assert(out@ == digits@);
        }
    }
    out
}

/// The decimal notations of `ns`, separated by commas.
pub fn comma_joined(ns: &Vec<u32>) -> (r: String)
    ensures
        r@ == joined(decimals(ns@), seq![',']),
{
    let mut out = String::new();
    let mut i: usize = 0;
    while i < ns.len()
        invariant
            i <= ns@.len(),
            out@ == joined(decimals(ns@.subrange(0, i as int)), seq![',']),
        decreases ns@.len() - i,
    {
        proof {
            let a = decimals(ns@.subrange(0, i as int));
            let b = decimals(ns@.subrange(0, i + 1));
            assert(b == a.push(decimal(ns@[i as int] as nat)));
            assert(b.drop_last() == a);
            if i == 0 {
                assert(out@ == Seq::<char>::empty());
            }
        }
        if i > 0 {
            out.push(',');
        }
        out.append(&decimal_of(ns[i] as u64));
        i = i + 1;
    }
    proof {
        assert(ns@.subrange(0, ns@.len() as int) == ns@);
    }
    out
}

/// The decimal notation of each number.
pub open spec fn decimals(ns: Seq<u32>) -> Seq<Seq<char>> {
    ns.map_values(|n: u32| decimal(n as nat))
}

/// The value of a run of decimal digits.
pub open spec fn digits_value(s: Seq<char>) -> nat
    decreases s.len(),
{
    if s.len() == 0 {
        0
    } else {
        digits_value(s.drop_last()) * 10 + (s.last() as nat - 48) as nat
    }
}

/// Whether every character is a decimal digit.
pub open spec fn all_digits(s: Seq<char>) -> bool {
    forall|i: int| 0 <= i < s.len() ==> '0' <= #[trigger] s[i] && s[i] <= '9'
}

/// The unsigned number that a text denotes: an optional `+`, then one or
/// more decimal digits whose value fits in 32 bits.
pub open spec fn number(s: Seq<char>) -> Option<u32> {
    let d = if s.len() > 0 && s[0] == '+' {
        s.drop_first()
    } else {
        s
    };
    if d.len() > 0 && all_digits(d) && digits_value(d) <= u32::MAX {
        Some(digits_value(d) as u32)
    } else {
        None
    }
}

proof fn lemma_digits_value_prefix(s: Seq<char>, n: int)
    requires
        0 <= n <= s.len(),
        all_digits(s),
    ensures
        digits_value(s.subrange(0, n)) <= digits_value(s),
    decreases s.len() - n,
{
    if n == s.len() {
        assert(s.subrange(0, n) == s);
    } else {
        lemma_digits_value_prefix(s, n + 1);
        assert(s.subrange(0, n + 1).drop_last() == s.subrange(0, n));
    }
}

/// Parses an unsigned 32-bit number.
pub fn parse_number(s: &str) -> (r: Option<u32>)
    ensures
        r == number(s@),
{
    let chars = chars_of(s);
    let start: usize = if chars.len() > 0 && chars[0] == '+' {
        1
    } else {
        0
    };
    let ghost d = chars@.subrange(start as int, chars@.len() as int);
    proof {
        assert(d == if s@.len() > 0 && s@[0] == '+' {
            s@.drop_first()
        } else {
            s@
        });
    }
    if chars.len() == start {
        return None;
    }
    let mut value: u64 = 0;
    let mut i: usize = start;
    while i < chars.len()
        invariant
            start <= i <= chars@.len(),
            d == chars@.subrange(start as int, chars@.len() as int),
            value == digits_value(d.subrange(0, i - start)),
            value <= u32::MAX,
            all_digits(d.subrange(0, i - start)),
            number(s@) == (if d.len() > 0 && all_digits(d) && digits_value(d) <= u32::MAX {
                Some(digits_value(d) as u32)
            } else {
                None
            }),
        decreases chars@.len() - i,
    {
        let c: char = chars[i];
        proof {
            assert(d[i - start] == c);
        }
        if !('0' <= c && c <= '9') {
            return None;
        }
        let n: u64 = ((c as u8) - 48) as u64;
        proof {
            assert(d.subrange(0, i + 1 - start).drop_last() == d.subrange(0, i - start));
        }
        value = value * 10 + n;
        i = i + 1;
        if value > u32::MAX as u64 {
            proof {
                if all_digits(d) {
                    lemma_digits_value_prefix(d, i - start);
                }
            }
            return None;
        }
    }
    proof {
        assert(d.subrange(0, d.len() as int) == d);
    }
    Some(value as u32)
}

/// The order of texts: character by character, a prefix before what it
/// begins.
pub open spec fn before(a: Seq<char>, b: Seq<char>) -> bool
    decreases a.len(),
{
    if b.len() == 0 {
        false
    } else if a.len() == 0 {
        true
    } else if a[0] != b[0] {
        a[0] < b[0]
    } else {
        before(a.drop_first(), b.drop_first())
    }
}

/// No text is before itself, and of two different ones one is before the
/// other.
pub proof fn lemma_before_total(a: Seq<char>, b: Seq<char>)
    ensures
        before(a, b) || before(b, a) <==> a != b,
        !(before(a, b) && before(b, a)),
    decreases a.len(),
{
    if a.len() > 0 && b.len() > 0 && a[0] == b[0] {
        lemma_before_total(a.drop_first(), b.drop_first());
        if a.drop_first() == b.drop_first() {
            assert forall|i: int| 0 <= i < a.len() implies a[i] == b[i] by {
                if i > 0 {
                    assert(a.drop_first()[i - 1] == b.drop_first()[i - 1]);
                }
            }
            assert(a =~= b);
        }
    } else if a.len() == 0 && b.len() == 0 {
        assert(a =~= b);
    }
}

pub proof fn lemma_before_trans(a: Seq<char>, b: Seq<char>, c: Seq<char>)
    requires
        before(a, b),
        before(b, c),
    ensures
        before(a, c),
    decreases a.len(),
{
    if a.len() > 0 && b.len() > 0 && c.len() > 0 && a[0] == b[0] && b[0] == c[0] {
        lemma_before_trans(a.drop_first(), b.drop_first(), c.drop_first());
    }
}

proof fn lemma_before_step(a: Seq<char>, b: Seq<char>, n: int)
    requires
        0 <= n <= a.len(),
        n <= b.len(),
        forall|i: int| 0 <= i < n ==> a[i] == b[i],
    ensures
        before(a, b) == before(a.subrange(n, a.len() as int), b.subrange(n, b.len() as int)),
    decreases n,
{
    if n > 0 {
        let x = a.drop_first();
        let y = b.drop_first();
        assert forall|i: int| 0 <= i < n - 1 implies x[i] == y[i] by {
            assert(a[i + 1] == b[i + 1]);
        }
        lemma_before_step(x, y, n - 1);
        assert(x.subrange(n - 1, x.len() as int) == a.subrange(n, a.len() as int));
        assert(y.subrange(n - 1, y.len() as int) == b.subrange(n, b.len() as int));
    } else {
        assert(a.subrange(0, a.len() as int) == a);
        assert(b.subrange(0, b.len() as int) == b);
    }
}

/// Whether text `a` is before text `b`.
pub fn is_before(a: &str, b: &str) -> (r: bool)
    ensures
        r == before(a@, b@),
{
    let x = chars_of(a);
    let y = chars_of(b);
    let mut i: usize = 0;
    while i < x.len() && i < y.len() && x[i] == y[i]
        invariant
            i <= x@.len(),
            i <= y@.len(),
            forall|j: int| 0 <= j < i ==> x@[j] == y@[j],
        decreases x@.len() - i,
    {
        i = i + 1;
    }
    proof {
        lemma_before_step(a@, b@, i as int);
    }
    if i == y.len() {
        false
    } else if i == x.len() {
        true
    } else {
        x[i] < y[i]
    }
}

/// Where `c` first occurs in `s`, and the length of `s` where it does not.
pub open spec fn position(s: Seq<char>, c: char) -> int
    decreases s.len(),
{
    if s.len() == 0 || s[0] == c {
        0
    } else {
        1 + position(s.drop_first(), c)
    }
}

pub proof fn lemma_position(s: Seq<char>, c: char)
    ensures
        0 <= position(s, c) <= s.len(),
        forall|i: int| 0 <= i < position(s, c) ==> s[i] != c,
        position(s, c) < s.len() ==> s[position(s, c)] == c,
    decreases s.len(),
{
    if s.len() > 0 && s[0] != c {
        let t = s.drop_first();
        lemma_position(t, c);
        assert forall|i: int| 0 <= i < position(s, c) implies s[i] != c by {
            if i > 0 {
                assert(t[i - 1] == s[i]);
            }
        }
    }
}

/// The first occurrence is at `k` when none comes before it.
pub proof fn lemma_position_is(s: Seq<char>, c: char, k: int)
    requires
        0 <= k <= s.len(),
        forall|i: int| 0 <= i < k ==> s[i] != c,
        k < s.len() ==> s[k] == c,
    ensures
        position(s, c) == k,
{
    lemma_position(s, c);
    let p = position(s, c);
    if p < k {
        assert(s[p] != c);
    } else if k < p {
        assert(s[k] != c);
    }
}

/// The parts of `s` between the occurrences of `c`: one more than there
/// are occurrences.
pub open spec fn split(s: Seq<char>, c: char) -> Seq<Seq<char>>
    decreases s.len(),
{
    let k = position(s, c);
    if 0 <= k < s.len() {
        seq![s.subrange(0, k)] + split(s.subrange(k + 1, s.len() as int), c)
    } else {
        seq![s]
    }
}

/// A part without `c` in front of a `c` is the first part.
pub proof fn lemma_split_first(a: Seq<char>, b: Seq<char>, c: char)
    requires
        !a.contains(c),
    ensures
        split(a, c) == seq![a],
        split(a + seq![c] + b, c) == seq![a] + split(b, c),
{
    lemma_position_is(a, c, a.len() as int);
    let s = a + seq![c] + b;
    assert forall|i: int| 0 <= i < a.len() implies s[i] != c by {
        assert(s[i] == a[i]);
        assert(a.contains(a[i]));
    }
    assert(s[a.len() as int] == c);
    lemma_position_is(s, c, a.len() as int);
    assert(s.subrange(0, a.len() as int) == a);
    assert(s.subrange(a.len() as int + 1, s.len() as int) == b);
}

/// The decimal notation is one or more digits, the first of them not zero
/// unless the number is, and it denotes the number.
pub proof fn lemma_decimal(n: nat)
    ensures
        decimal(n).len() > 0,
        all_digits(decimal(n)),
        n > 0 ==> decimal(n)[0] != '0',
        digits_value(decimal(n)) == n,
    decreases n,
{
    let d = decimal(n);
    let last = digit(n % 10);
    assert('0' <= last && last <= '9' && last as nat - 48 == n % 10);
    if n < 10 {
        assert(d.drop_last() == Seq::<char>::empty());
        assert(digits_value(Seq::<char>::empty()) == 0);
        assert(d.last() == digit(n));
    } else {
        lemma_decimal(n / 10);
        assert(d.drop_last() == decimal(n / 10));
        assert(d.last() == last);
        assert forall|i: int| 0 <= i < d.len() implies '0' <= #[trigger] d[i] && d[i] <= '9' by {
            if i < d.len() - 1 {
                assert(d[i] == decimal(n / 10)[i]);
            }
        }
        assert(d[0] == decimal(n / 10)[0]);
    }
}

/// Reading the decimal notation of a number gives the number back.
pub proof fn law_decimal_reads_back(n: u32)
    ensures
        number(decimal(n as nat)) == Some(n),
{
    lemma_decimal(n as nat);
    assert('0' <= decimal(n as nat)[0]);
}

/// [`String::from_utf8`]: the text that the bytes encode, `None` where they
/// are not UTF-8.
#[verifier::external_body]
pub(crate) fn read_utf8(bytes: &[u8]) -> (r: Option<String>)
    ensures
        r is Some <==> valid_utf8(bytes@),
        r matches Some(text) ==> text@ == decode_utf8(bytes@),
{
    String::from_utf8(bytes.to_vec()).ok()
}

/// A list of numbers says what it holds.
pub proof fn lemma_numbers(v: Vec<u32>)
    ensures
        v.deep_view() == v@,
{
    assert(v.deep_view() =~= v@);
}

/// The bytes of an optional buffer.
pub open spec fn optional_bytes(bytes: Option<Vec<u8>>) -> Option<Seq<u8>> {
    match bytes {
        Some(bytes) => Some(bytes@),
        None => None,
    }
}

/// The text of raw bytes: UTF-8 where they are, else one character per
/// byte.
pub open spec fn bytes_text(bytes: Seq<u8>) -> Seq<char> {
    if valid_utf8(bytes) {
        decode_utf8(bytes)
    } else {
        bytes.map_values(|b: u8| b as char)
    }
}

/// Decodes raw bytes as UTF-8, falling back to one character per byte.
pub fn bytes_to_string(bytes: &[u8]) -> (r: String)
    ensures
        r@ == bytes_text(bytes@),
{
    if let Some(text) = read_utf8(bytes) {
        return text;
    }
    let mut out = String::new();
    let mut i: usize = 0;
    while i < bytes.len()
        invariant
            i <= bytes@.len(),
            out@ == bytes@.subrange(0, i as int).map_values(|b: u8| b as char),
        decreases bytes@.len() - i,
    {
        proof {
            assert(bytes@.subrange(0, i + 1).map_values(|b: u8| b as char) =~= bytes@.subrange(
                0,
                i as int,
            ).map_values(|b: u8| b as char).push(bytes@[i as int] as char));
        }
        out.push(bytes[i] as char);
        i = i + 1;
    }
    proof {
        assert(bytes@.subrange(0, bytes@.len() as int) == bytes@);
    }
    out
}

/// What [`String::from_utf8_lossy`] reads in bytes.
pub uninterp spec fn utf8_lossy(bytes: Seq<u8>) -> Seq<char>;

/// [`String::from_utf8_lossy`]: the text that the bytes encode, with
/// replacement characters where they are not UTF-8.
#[verifier::external_body]
pub(crate) fn read_utf8_lossy(bytes: &[u8]) -> (r: String)
    ensures
        r@ == utf8_lossy(bytes@),
        valid_utf8(bytes@) ==> r@ == decode_utf8(bytes@),
{
    String::from_utf8_lossy(bytes).into_owned()
}

/// Whether a text starts with another.
pub open spec fn starts(text: Seq<char>, prefix: Seq<char>) -> bool {
    prefix.len() <= text.len() && text.take(prefix.len() as int) == prefix
}

/// A text with each occurrence of `pattern`, found from the left, replaced.
pub open spec fn replaced(text: Seq<char>, pattern: Seq<char>, with: Seq<char>) -> Seq<char>
    decreases text.len(),
{
    if text.len() == 0 || pattern.len() == 0 {
        text
    } else if starts(text, pattern) {
        with + replaced(text.skip(pattern.len() as int), pattern, with)
    } else {
        seq![text[0]] + replaced(text.skip(1), pattern, with)
    }
}

/// Whether `pattern` stands at `at`.
pub fn stands_at(chars: &Vec<char>, at: usize, pattern: &Vec<char>) -> (r: bool)
    requires
        at <= chars@.len(),
    ensures
        r == starts(chars@.skip(at as int), pattern@),
{
    if pattern.len() > chars.len() - at {
        return false;
    }
    let ghost head = chars@.skip(at as int).take(pattern@.len() as int);
    let len: usize = chars.len();
    let mut i: usize = 0;
    while i < pattern.len()
        invariant
            at <= chars@.len() == len,
            i <= pattern@.len() <= chars@.len() - at,
            head == chars@.skip(at as int).take(pattern@.len() as int),
            forall|j: int| 0 <= j < i ==> head[j] == #[trigger] pattern@[j],
        decreases pattern@.len() - i,
    {
        if chars[at + i] != pattern[i] {
            proof {
                assert(head[i as int] != pattern@[i as int]);
            }
            return false;
        }
        i = i + 1;
    }
    proof {
        assert(head =~= pattern@);
    }
    true
}

/// Appends characters to a text.
pub fn push_chars(text: &mut String, chars: &Vec<char>)
    ensures
        final(text)@ == old(text)@ + chars@,
{
    let ghost was = text@;
    let mut i: usize = 0;
    proof {
        assert(was + chars@.take(0) =~= was);
    }
    while i < chars.len()
        invariant
            i <= chars@.len(),
            text@ == was + chars@.take(i as int),
        decreases chars@.len() - i,
    {
        text.push(chars[i]);
        i = i + 1;
        proof {
            assert(text@ =~= was + chars@.take(i as int));
        }
    }
    proof {
        assert(chars@.take(chars@.len() as int) =~= chars@);
    }
}

/// Replaces each occurrence of `pattern`, which is not empty.
pub fn replace_of(text: &str, pattern: &str, with: &str) -> (r: String)
    requires
        pattern@.len() > 0,
    ensures
        r@ == replaced(text@, pattern@, with@),
{
    let chars = chars_of(text);
    let wanted = chars_of(pattern);
    let written = chars_of(with);
    let mut out = String::new();
    proof {
        assert(chars@.skip(0) =~= chars@);
        assert(out@ + replaced(text@, pattern@, with@) =~= replaced(text@, pattern@, with@));
    }
    let mut i: usize = 0;
    while i < chars.len()
        invariant
            i <= chars@.len(),
            chars@ == text@,
            wanted@ == pattern@,
            written@ == with@,
            pattern@.len() > 0,
            out@ + replaced(chars@.skip(i as int), pattern@, with@) == replaced(
                text@,
                pattern@,
                with@,
            ),
        decreases chars@.len() - i,
    {
        let ghost rest = chars@.skip(i as int);
        let ghost was = out@;
        if stands_at(&chars, i, &wanted) {
            push_chars(&mut out, &written);
            i = i + wanted.len();
            proof {
                assert(rest.skip(pattern@.len() as int) =~= chars@.skip(i as int));
                assert(was + (with@ + replaced(chars@.skip(i as int), pattern@, with@)) =~= out@
                    + replaced(chars@.skip(i as int), pattern@, with@));
            }
        } else {
            out.push(chars[i]);
            i = i + 1;
            proof {
                assert(rest.skip(1) =~= chars@.skip(i as int));
                assert(was + (seq![rest[0]] + replaced(chars@.skip(i as int), pattern@, with@))
                    =~= out@ + replaced(chars@.skip(i as int), pattern@, with@));
            }
        }
    }
    proof {
        assert(chars@.skip(i as int).len() == 0);
        assert(out@ + chars@.skip(i as int) =~= out@);
    }
    out
}

/// Copies texts.
pub fn copy_texts(list: &Vec<String>) -> (r: Vec<String>)
    ensures
        r.deep_view() == list.deep_view(),
        r@.len() == list@.len(),
{
    let mut out: Vec<String> = Vec::new();
    let mut i: usize = 0;
    while i < list.len()
        invariant
            i <= list@.len(),
            out@.len() == i,
            forall|j: int| 0 <= j < i ==> (#[trigger] out@[j])@ == list@[j]@,
        decreases list@.len() - i,
    {
        out.push(list[i].clone());
        i = i + 1;
    }
    proof {
        assert(out.deep_view() =~= list.deep_view());
    }
    out
}

/// What a list of texts says.
pub open spec fn texts(list: Seq<&str>) -> Seq<Seq<char>> {
    list.map_values(|text: &str| text@)
}

/// Whether a text is in a list.
pub fn holds_text(list: &Vec<String>, text: &str) -> (r: bool)
    ensures
        r == list.deep_view().contains(text@),
{
    let ghost all = list.deep_view();
    let mut i: usize = 0;
    while i < list.len()
        invariant
            i <= list@.len(),
            all == list.deep_view(),
            forall|j: int| 0 <= j < i ==> #[trigger] all[j] != text@,
        decreases list@.len() - i,
    {
        if same_text(list[i].as_str(), text) {
            proof {
                assert(all[i as int] == text@);
            }
            return true;
        }
        i = i + 1;
    }
    false
}

/// The value of the first row under a key.
pub open spec fn row<V>(rows: Seq<(Seq<char>, V)>, key: Seq<char>) -> Option<V>
    decreases rows.len(),
{
    if rows.len() == 0 {
        None
    } else if rows[0].0 == key {
        Some(rows[0].1)
    } else {
        row(rows.skip(1), key)
    }
}

/// Looks up the first row under a key.
pub fn find_row<'a, T: DeepView>(rows: &'a Vec<(String, T)>, key: &str) -> (r: Option<&'a T>)
    ensures
        match r {
            Some(value) => row(rows.deep_view(), key@) == Some(value.deep_view()),
            None => row(rows.deep_view(), key@) is None,
        },
{
    let ghost all = rows.deep_view();
    proof {
        assert(all.skip(0) =~= all);
    }
    let mut i: usize = 0;
    while i < rows.len()
        invariant
            i <= rows@.len(),
            all == rows.deep_view(),
            row(all, key@) == row(all.skip(i as int), key@),
        decreases rows@.len() - i,
    {
        proof {
            assert(all.skip(i as int)[0] == rows@[i as int].deep_view());
            assert(all.skip(i as int).skip(1) =~= all.skip(i + 1));
        }
        if same_text(rows[i].0.as_str(), key) {
            return Some(&rows[i].1);
        }
        i = i + 1;
    }
    None
}

/// Splits a text at each `c`.
pub fn split_of(text: &str, c: char) -> (r: Vec<String>)
    ensures
        r.deep_view() == split(text@, c),
{
    let chars = chars_of(text);
    let mut out: Vec<String> = Vec::new();
    let mut from: usize = 0;
    let mut i: usize = 0;
    proof {
        assert(chars@.skip(0) =~= chars@);
        assert(out.deep_view() + split(chars@, c) =~= split(chars@, c));
    }
    while i < chars.len()
        invariant
            from <= i <= chars@.len(),
            chars@ == text@,
            forall|j: int| from <= j < i ==> chars@[j] != c,
            out.deep_view() + split(chars@.skip(from as int), c) == split(text@, c),
        decreases chars@.len() - i,
    {
        if chars[i] == c {
            let ghost rest = chars@.skip(from as int);
            let ghost was = out.deep_view();
            let ghost k = i - from;
            proof {
                assert forall|j: int| 0 <= j < k implies rest[j] != c by {
                    assert(rest[j] == chars@[from + j]);
                }
                lemma_position_is(rest, c, k);
                assert(rest.subrange(k + 1, rest.len() as int) =~= chars@.skip(i + 1));
                assert(rest.subrange(0, k) =~= chars@.subrange(from as int, i as int));
            }
            let part = text_of(&chars, from, i);
            let ghost view = part@;
            out.push(part);
            proof {
                assert(out.deep_view() =~= was.push(view));
                assert(was + (seq![view] + split(chars@.skip(i + 1), c)) =~= out.deep_view() + split(
                    chars@.skip(i + 1),
                    c,
                ));
            }
            from = i + 1;
        }
        i = i + 1;
    }
    let ghost rest = chars@.skip(from as int);
    let ghost was = out.deep_view();
    proof {
        assert forall|j: int| 0 <= j < rest.len() implies rest[j] != c by {
            assert(rest[j] == chars@[from + j]);
        }
        lemma_position_is(rest, c, rest.len() as int);
        assert(rest =~= chars@.subrange(from as int, chars@.len() as int));
    }
    let part = text_of(&chars, from, chars.len());
    let ghost view = part@;
    out.push(part);
    proof {
        assert(out.deep_view() =~= was + seq![view]);
    }
    out
}

/// Where `c` last occurs in `s`, and -1 where it does not.
pub open spec fn last_position(s: Seq<char>, c: char) -> int
    decreases s.len(),
{
    if s.len() == 0 {
        -1
    } else if s.last() == c {
        s.len() - 1
    } else {
        last_position(s.drop_last(), c)
    }
}

pub proof fn lemma_last_position(s: Seq<char>, c: char)
    ensures
        -1 <= last_position(s, c) < s.len(),
        last_position(s, c) >= 0 ==> s[last_position(s, c)] == c,
    decreases s.len(),
{
    if s.len() > 0 && s.last() != c {
        lemma_last_position(s.drop_last(), c);
    }
}

/// Finds where `c` last occurs.
pub fn last_position_of(chars: &Vec<char>, c: char) -> (r: Option<usize>)
    ensures
        match r {
            Some(i) => i < chars@.len() && i == last_position(chars@, c),
            None => last_position(chars@, c) == -1,
        },
{
    let mut n: usize = chars.len();
    proof {
        assert(chars@.take(n as int) =~= chars@);
    }
    while n > 0
        invariant
            n <= chars@.len(),
            last_position(chars@, c) == last_position(chars@.take(n as int), c),
        decreases n,
    {
        proof {
            assert(chars@.take(n as int).drop_last() =~= chars@.take(n - 1));
            assert(chars@.take(n as int).last() == chars@[n - 1]);
        }
        if chars[n - 1] == c {
            return Some(n - 1);
        }
        n = n - 1;
    }
    None
}

/// Finds where `c` first occurs at `from` or after it.
pub fn position_from(chars: &Vec<char>, from: usize, c: char) -> (r: Option<usize>)
    requires
        from <= chars@.len(),
    ensures
        match r {
            Some(i) => from <= i < chars@.len() && position(chars@.skip(from as int), c) == i - from,
            None => position(chars@.skip(from as int), c) == chars@.len() - from,
        },
{
    let ghost rest = chars@.skip(from as int);
    let mut i: usize = from;
    while i < chars.len()
        invariant
            from <= i <= chars@.len(),
            rest == chars@.skip(from as int),
            forall|j: int| 0 <= j < i - from ==> #[trigger] rest[j] != c,
        decreases chars@.len() - i,
    {
        proof {
            assert(rest[i - from] == chars@[i as int]);
        }
        if chars[i] == c {
            proof {
                lemma_position_is(rest, c, i - from);
            }
            return Some(i);
        }
        i = i + 1;
    }
    proof {
        lemma_position_is(rest, c, rest.len() as int);
    }
    None
}

/// Owned copies of texts.
pub fn own_texts(list: &[&str]) -> (r: Vec<String>)
    ensures
        r.deep_view() == texts(list@),
        r@.len() == list@.len(),
{
    let mut out: Vec<String> = Vec::new();
    let mut i: usize = 0;
    while i < list.len()
        invariant
            i <= list@.len(),
            out@.len() == i,
            forall|j: int| 0 <= j < i ==> (#[trigger] out@[j])@ == list@[j]@,
        decreases list@.len() - i,
    {
        out.push(list[i].to_owned());
        i = i + 1;
    }
    proof {
        assert(out.deep_view() =~= texts(list@));
    }
    out
}

/// What [`str::to_lowercase`] makes of a text.
pub uninterp spec fn lowercase(text: Seq<char>) -> Seq<char>;

/// [`str::to_lowercase`].
#[verifier::external_body]
pub(crate) fn lowercase_of(text: &str) -> (r: String)
    ensures
        r@ == lowercase(text@),
{
    text.to_lowercase()
}

/// Whether a text occurs in another.
pub open spec fn occurs(text: Seq<char>, pattern: Seq<char>) -> bool {
    exists|i: int| 0 <= i <= text.len() && starts(#[trigger] text.skip(i), pattern)
}

/// Whether `pattern` occurs in `text`.
pub fn contains_text(text: &str, pattern: &str) -> (r: bool)
    ensures
        r == occurs(text@, pattern@),
{
    let chars = chars_of(text);
    let wanted = chars_of(pattern);
    let mut i: usize = 0;
    while i < chars.len()
        invariant
            i <= chars@.len(),
            chars@ == text@,
            wanted@ == pattern@,
            forall|j: int| 0 <= j < i ==> !starts(#[trigger] text@.skip(j), pattern@),
        decreases chars@.len() - i,
    {
        if stands_at(&chars, i, &wanted) {
            proof {
                assert(starts(text@.skip(i as int), pattern@));
            }
            return true;
        }
        i = i + 1;
    }
    let r = stands_at(&chars, i, &wanted);
    proof {
        if r {
            assert(starts(text@.skip(i as int), pattern@));
        }
    }
    r
}

proof fn lemma_start_kept(s: Seq<char>, drop: spec_fn(char) -> bool)
    ensures
        trim_start(s, drop).len() > 0 ==> !drop(trim_start(s, drop)[0]),
    decreases s.len(),
{
    if s.len() > 0 && drop(s[0]) {
        lemma_start_kept(s.drop_first(), drop);
    }
}

proof fn lemma_end_kept(s: Seq<char>, drop: spec_fn(char) -> bool)
    ensures
        trim_end(s, drop).len() <= s.len(),
        trim_end(s, drop).len() > 0 ==> trim_end(s, drop)[0] == s[0] && !drop(
            trim_end(s, drop).last(),
        ),
    decreases s.len(),
{
    if s.len() > 0 && drop(s.last()) {
        lemma_end_kept(s.drop_last(), drop);
    }
}

/// A text without surrounding white space has none left.
pub proof fn law_trimmed_idempotent(s: Seq<char>)
    ensures
        trimmed(trimmed(s)) == trimmed(s),
{
    let drop = |c: char| white_space(c);
    lemma_start_kept(s, drop);
    lemma_end_kept(trim_start(s, drop), drop);
}

/// Whether a text is white space only.
pub open spec fn blank_text(s: Seq<char>) -> bool {
    forall|i: int| 0 <= i < s.len() ==> white_space(#[trigger] s[i])
}

proof fn lemma_blank_start(blank: Seq<char>, s: Seq<char>, drop: spec_fn(char) -> bool)
    requires
        forall|i: int| 0 <= i < blank.len() ==> drop(#[trigger] blank[i]),
    ensures
        trim_start(blank + s, drop) == trim_start(s, drop),
    decreases blank.len(),
{
    if blank.len() == 0 {
        assert(blank + s =~= s);
    } else {
        let rest = blank.drop_first();
        assert forall|i: int| 0 <= i < rest.len() implies drop(#[trigger] rest[i]) by {
            assert(rest[i] == blank[i + 1]);
        }
        lemma_blank_start(rest, s, drop);
        assert((blank + s)[0] == blank[0]);
        assert((blank + s).drop_first() =~= rest + s);
    }
}

proof fn lemma_start_pushed(s: Seq<char>, c: char, drop: spec_fn(char) -> bool)
    requires
        drop(c),
    ensures
        trim_start(s.push(c), drop) == if trim_start(s, drop).len() == 0 {
            seq![]
        } else {
            trim_start(s, drop).push(c)
        },
    decreases s.len(),
{
    let t = s.push(c);
    if s.len() == 0 {
        assert(t.drop_first() =~= seq![]);
        assert(trim_start(t.drop_first(), drop) =~= seq![]);
    } else {
        assert(t[0] == s[0]);
        if drop(s[0]) {
            lemma_start_pushed(s.drop_first(), c, drop);
            assert(t.drop_first() =~= s.drop_first().push(c));
        }
    }
}

/// White space around a text does not matter to it without its surrounding
/// white space.
pub proof fn law_trimmed_of_blanks(before: Seq<char>, s: Seq<char>, after: Seq<char>)
    requires
        blank_text(before),
        blank_text(after),
    ensures
        trimmed(before + s + after) == trimmed(s),
    decreases after.len(),
{
    let drop = |c: char| white_space(c);
    if after.len() == 0 {
        assert(before + s + after =~= before + s);
        lemma_blank_start(before, s, drop);
    } else {
        let most = after.drop_last();
        let c = after.last();
        let t = before + s + most;
        assert(after[after.len() - 1] == c);
        assert(blank_text(most));
        law_trimmed_of_blanks(before, s, most);
        assert(before + s + after =~= t.push(c));
        lemma_start_pushed(t, c, drop);
        let x = trim_start(t, drop);
        if x.len() > 0 {
            assert(x.push(c).drop_last() =~= x);
        } else {
            assert(x =~= seq![]);
        }
    }
}

/// The parts of two texts joined by `c` are those of the one and then those
/// of the other.
pub proof fn law_split_joined(a: Seq<char>, b: Seq<char>, c: char)
    ensures
        split(a + seq![c] + b, c) == split(a, c) + split(b, c),
    decreases a.len(),
{
    if a.contains(c) {
        let k = position(a, c);
        lemma_position(a, c);
        assert(k < a.len()) by {
            let i = choose|i: int| 0 <= i < a.len() && a[i] == c;
            if k == a.len() {
                assert(a[i] != c);
            }
        }
        let first = a.subrange(0, k);
        let rest = a.subrange(k + 1, a.len() as int);
        assert(!first.contains(c));
        law_split_joined(rest, b, c);
        lemma_split_first(first, rest + seq![c] + b, c);
        assert(a + seq![c] + b =~= first + seq![c] + (rest + seq![c] + b));
        assert(seq![first] + (split(rest, c) + split(b, c)) =~= (seq![first] + split(rest, c)) + split(
            b,
            c,
        ));
    } else {
        lemma_split_first(a, b, c);
    }
}

proof fn lemma_decimal_len(n: nat)
    ensures
        n < 10 ==> decimal(n).len() == 1,
        10 <= n < 100 ==> decimal(n).len() == 2,
        100 <= n < 1000 ==> decimal(n).len() == 3,
        1000 <= n < 10000 ==> decimal(n).len() == 4,
{
    reveal_with_fuel(decimal, 5);
}

proof fn lemma_zeros_value(zeros: nat, s: Seq<char>)
    ensures
        digits_value(Seq::new(zeros, |i: int| '0') + s) == digits_value(s),
    decreases zeros + s.len(),
{
    let z = Seq::new(zeros, |i: int| '0');
    let t = z + s;
    if s.len() > 0 {
        lemma_zeros_value(zeros, s.drop_last());
        assert(t.drop_last() =~= z + s.drop_last());
        assert(t.last() == s.last());
    } else if zeros > 0 {
        lemma_zeros_value((zeros - 1) as nat, s);
        assert(t.drop_last() =~= Seq::new((zeros - 1) as nat, |i: int| '0') + s);
        assert(t.last() == '0');
    }
}

/// A small number, padded, has the width and the value.
pub proof fn lemma_padded(n: nat, width: nat)
    requires
        width == 2 && n < 100 || width == 4 && n < 10000,
    ensures
        padded(n, width).len() == width,
        digits_value(padded(n, width)) == n,
{
    lemma_decimal_len(n);
    lemma_decimal(n);
    if decimal(n).len() < width {
        lemma_zeros_value((width - decimal(n).len()) as nat, decimal(n));
    }
}

/// Texts are ordered like words in a dictionary: by the first character in
/// which they differ, and a text before what it begins.
pub proof fn law_before_is_dictionary_order(a: Seq<char>, b: Seq<char>)
    ensures
        before(a, b) <==> exists|k: int|
            #![trigger a.take(k)]
            0 <= k <= a.len() && k < b.len() && a.take(k) == b.take(k) && (k == a.len() || a[k] < b[k]),
    decreases a.len(),
{
    if before(a, b) {
        if a.len() == 0 {
            assert(a.take(0) =~= b.take(0));
        } else if a[0] != b[0] {
            assert(a.take(0) =~= b.take(0));
        } else {
            let x = a.drop_first();
            let y = b.drop_first();
            law_before_is_dictionary_order(x, y);
            let k = choose|k: int|
                #![trigger x.take(k)]
                0 <= k <= x.len() && k < y.len() && x.take(k) == y.take(k) && (k == x.len() || x[k]
                    < y[k]);
            assert(a.take(k + 1) =~= seq![a[0]] + x.take(k));
            assert(b.take(k + 1) =~= seq![b[0]] + y.take(k));
        }
    }
    if exists|k: int|
        #![trigger a.take(k)]
        0 <= k <= a.len() && k < b.len() && a.take(k) == b.take(k) && (k == a.len() || a[k] < b[k]) {
        let k = choose|k: int|
            #![trigger a.take(k)]
            0 <= k <= a.len() && k < b.len() && a.take(k) == b.take(k) && (k == a.len() || a[k] < b[k]);
        if a.len() > 0 {
            if k == 0 {
                assert(a[0] < b[0]);
            } else {
                assert(a.take(k)[0] == b.take(k)[0]);
                let x = a.drop_first();
                let y = b.drop_first();
                law_before_is_dictionary_order(x, y);
                assert(x.take(k - 1) =~= a.take(k).drop_first());
                assert(y.take(k - 1) =~= b.take(k).drop_first());
            }
        }
    }
}

/// What is cut off a text at its ends is white space, and all of it: what is
/// left begins and ends with something else, and stands in the text.
pub proof fn law_only_blanks_are_cut_off(s: Seq<char>)
    ensures
        exists|before: Seq<char>, after: Seq<char>|
            #[trigger] blank_text(before) && #[trigger] blank_text(after) && s == before + trimmed(s) + after,
        trimmed(s).len() > 0 ==> !white_space(trimmed(s)[0]) && !white_space(trimmed(s).last()),
{
    let drop = |c: char| white_space(c);
    lemma_start_kept(s, drop);
    lemma_end_kept(trim_start(s, drop), drop);
    let before = lemma_start_cut(s, drop);
    let mid = trim_start(s, drop);
    let after = lemma_end_cut(mid, drop);
    assert(blank_text(before)) by {
        assert forall|i: int| 0 <= i < before.len() implies white_space(#[trigger] before[i]) by {
            assert(drop(before[i]));
        }
    }
    assert(blank_text(after)) by {
        assert forall|i: int| 0 <= i < after.len() implies white_space(#[trigger] after[i]) by {
            assert(drop(after[i]));
        }
    }
    assert(s =~= before + trimmed(s) + after);
}

proof fn lemma_start_cut(s: Seq<char>, drop: spec_fn(char) -> bool) -> (cut: Seq<char>)
    ensures
        s == cut + trim_start(s, drop),
        forall|i: int| 0 <= i < cut.len() ==> drop(#[trigger] cut[i]),
    decreases s.len(),
{
    if s.len() > 0 && drop(s[0]) {
        let rest = lemma_start_cut(s.drop_first(), drop);
        let cut = seq![s[0]] + rest;
        assert(s =~= seq![s[0]] + s.drop_first());
        assert(seq![s[0]] + (rest + trim_start(s, drop)) =~= cut + trim_start(s, drop));
        cut
    } else {
        assert(s =~= Seq::<char>::empty() + s);
        Seq::empty()
    }
}

proof fn lemma_end_cut(s: Seq<char>, drop: spec_fn(char) -> bool) -> (cut: Seq<char>)
    ensures
        s == trim_end(s, drop) + cut,
        forall|i: int| 0 <= i < cut.len() ==> drop(#[trigger] cut[i]),
    decreases s.len(),
{
    if s.len() > 0 && drop(s.last()) {
        let rest = lemma_end_cut(s.drop_last(), drop);
        let cut = rest.push(s.last());
        assert(s =~= s.drop_last().push(s.last()));
        assert((trim_end(s, drop) + rest).push(s.last()) =~= trim_end(s, drop) + cut);
        cut
    } else {
        assert(s =~= s + Seq::<char>::empty());
        Seq::empty()
    }
}

/// Quotes at the ends of a text are cut off, all of them and nothing else.
pub proof fn law_only_quotes_are_cut_off(s: Seq<char>, q: char)
    ensures
        exists|before: Seq<char>, after: Seq<char>|
            s == #[trigger] (before + unquoted(s, q) + after) && (forall|i: int|
                0 <= i < before.len() ==> before[i] == q) && forall|i: int|
                0 <= i < after.len() ==> after[i] == q,
        unquoted(s, q).len() > 0 ==> unquoted(s, q)[0] != q && unquoted(s, q).last() != q,
{
    lemma_start_kept(s, only(q));
    lemma_end_kept(trim_start(s, only(q)), only(q));
    let before = lemma_start_cut(s, only(q));
    let after = lemma_end_cut(trim_start(s, only(q)), only(q));
    assert forall|i: int| 0 <= i < before.len() implies before[i] == q by {
        assert(only(q)(before[i]));
    }
    assert forall|i: int| 0 <= i < after.len() implies after[i] == q by {
        assert(only(q)(after[i]));
    }
    assert(s =~= before + unquoted(s, q) + after);
}

/// The parts of a text hold no separator, and put together with one between
/// each two they are the text again.
pub proof fn law_split_comes_together(s: Seq<char>, c: char)
    ensures
        split(s, c).len() > 0,
        forall|i: int| 0 <= i < split(s, c).len() ==> !(#[trigger] split(s, c)[i]).contains(c),
        joined(split(s, c), seq![c]) == s,
    decreases s.len(),
{
    let k = position(s, c);
    lemma_position(s, c);
    if 0 <= k < s.len() {
        let first = s.subrange(0, k);
        let rest = s.subrange(k + 1, s.len() as int);
        law_split_comes_together(rest, c);
        let parts = split(s, c);
        assert forall|i: int| 0 <= i < parts.len() implies !(#[trigger] parts[i]).contains(c) by {
            if i > 0 {
                assert(parts[i] == split(rest, c)[i - 1]);
            }
        }
        lemma_joined_front(first, split(rest, c), seq![c]);
        assert(s =~= first + seq![c] + rest);
    } else {
        assert(split(s, c) =~= seq![s]);
    }
}

proof fn lemma_joined_front(first: Seq<char>, rest: Seq<Seq<char>>, sep: Seq<char>)
    requires
        rest.len() > 0,
    ensures
        joined(seq![first] + rest, sep) == first + sep + joined(rest, sep),
    decreases rest.len(),
{
    let all = seq![first] + rest;
    assert(all.last() == rest.last());
    if rest.len() == 1 {
        assert(all.drop_last() =~= seq![first]);
        assert(joined(all.drop_last(), sep) == first);
        assert(rest[0] == rest.last());
    } else {
        lemma_joined_front(first, rest.drop_last(), sep);
        assert(all.drop_last() =~= seq![first] + rest.drop_last());
        assert(joined(all, sep) =~= first + sep + joined(rest, sep));
    }
}

/// A number is written in decimal digits, with or without a plus sign in
/// front; nothing else is a number. Behind a plus sign it is the same.
pub proof fn law_number_is_digits(s: Seq<char>)
    ensures
        number(s) is Some ==> s.len() > 0 && forall|i: int|
            0 < i < s.len() ==> '0' <= #[trigger] s[i] <= '9',
        number(s) is Some ==> s[0] == '+' || '0' <= s[0] <= '9',
        number(s) is Some && s[0] == '+' ==> s.len() > 1,
        all_digits(s) && s.len() > 0 ==> number(seq!['+'] + s) == number(s),
        all_digits(s) && s.len() > 0 && digits_value(s) <= u32::MAX ==> (number(s) matches Some(n) && n
            == digits_value(s)),
{
    if s.len() > 0 {
        if s[0] == '+' {
            let d = s.drop_first();
            if all_digits(d) {
                assert forall|i: int| 0 < i < s.len() implies '0' <= #[trigger] s[i] <= '9' by {
                    assert(d[i - 1] == s[i]);
                }
            }
        }
        assert((seq!['+'] + s).drop_first() =~= s);
    }
}

/// The first row under a key is the one that is found, and none is found
/// where no row is under it.
pub proof fn law_row_is_the_first<V>(rows: Seq<(Seq<char>, V)>, key: Seq<char>)
    ensures
        match row(rows, key) {
            Some(value) => exists|i: int|
                0 <= i < rows.len() && #[trigger] rows[i] == (key, value) && forall|j: int|
                    0 <= j < i ==> (#[trigger] rows[j]).0 != key,
            None => forall|i: int| 0 <= i < rows.len() ==> (#[trigger] rows[i]).0 != key,
        },
    decreases rows.len(),
{
    if rows.len() > 0 {
        if rows[0].0 == key {
            assert(rows[0] == (key, rows[0].1));
        } else {
            let rest = rows.skip(1);
            law_row_is_the_first(rest, key);
            match row(rows, key) {
                Some(value) => {
                    let i = choose|i: int|
                        0 <= i < rest.len() && #[trigger] rest[i] == (key, value) && forall|j: int|
                            0 <= j < i ==> (#[trigger] rest[j]).0 != key;
                    assert(rows[i + 1] == rest[i]);
                    assert forall|j: int| 0 <= j < i + 1 implies (#[trigger] rows[j]).0 != key by {
                        if j > 0 {
                            assert(rest[j - 1] == rows[j]);
                        }
                    }
                },
                None => {
                    assert forall|i: int| 0 <= i < rows.len() implies (#[trigger] rows[i]).0 != key by {
                        if i > 0 {
                            assert(rest[i - 1] == rows[i]);
                        }
                    }
                },
            }
        }
    }
}

/// Where a pattern does not occur nothing is replaced; where the text is two
/// texts around the pattern, the first of which does not let it begin
/// earlier, the pattern gives way to what is put for it.
pub proof fn law_replacing(text: Seq<char>, pattern: Seq<char>, with: Seq<char>, n: int)
    requires
        pattern.len() > 0,
        0 <= n <= text.len(),
        forall|i: int| 0 <= i < n ==> !starts(#[trigger] text.skip(i), pattern),
    ensures
        replaced(text, pattern, with) == text.take(n) + replaced(text.skip(n), pattern, with),
        !occurs(text, pattern) ==> replaced(text, pattern, with) == text,
        starts(text, pattern) ==> replaced(text, pattern, with) == with + replaced(
            text.skip(pattern.len() as int),
            pattern,
            with,
        ),
    decreases text.len(),
{
    assert(text.skip(0) =~= text);
    assert(text.take(0) + text =~= text);
    if text.len() > 0 {
        let rest = text.skip(1);
        if n > 0 {
            assert(!starts(text.skip(0), pattern));
            assert forall|i: int| 0 <= i < n - 1 implies !starts(#[trigger] rest.skip(i), pattern) by {
                assert(rest.skip(i) =~= text.skip(i + 1));
            }
            law_replacing(rest, pattern, with, n - 1);
            assert(rest.skip(n - 1) =~= text.skip(n));
            assert(text.take(n) =~= seq![text[0]] + rest.take(n - 1));
            assert(seq![text[0]] + (rest.take(n - 1) + replaced(text.skip(n), pattern, with)) =~= seq![
                text[0],
            ] + rest.take(n - 1) + replaced(text.skip(n), pattern, with));
        }
        if !occurs(text, pattern) {
            assert(!starts(text.skip(0), pattern));
            assert(!occurs(rest, pattern)) by {
                if occurs(rest, pattern) {
                    let i = choose|i: int| 0 <= i <= rest.len() && starts(#[trigger] rest.skip(i), pattern);
                    assert(rest.skip(i) =~= text.skip(i + 1));
                    assert(starts(text.skip(i + 1), pattern));
                }
            }
            law_replacing(rest, pattern, with, 0);
            assert(seq![text[0]] + rest =~= text);
        }
    }
}

/// A character is last where it occurs and not again behind.
pub proof fn law_last_position(s: Seq<char>, c: char)
    ensures
        last_position(s, c) >= 0 <==> s.contains(c),
        last_position(s, c) >= 0 ==> s[last_position(s, c)] == c,
        forall|i: int| last_position(s, c) < i < s.len() && i >= 0 ==> s[i] != c,
    decreases s.len(),
{
    lemma_last_position(s, c);
    if s.len() > 0 {
        if s.last() == c {
            assert(s[s.len() - 1] == c);
        } else {
            let most = s.drop_last();
            law_last_position(most, c);
            if s.contains(c) {
                let i = choose|i: int| 0 <= i < s.len() && s[i] == c;
                assert(most[i] == c);
            }
            assert forall|i: int| last_position(s, c) < i < s.len() && i >= 0 implies s[i] != c by {
                if i < most.len() {
                    assert(most[i] == s[i]);
                }
            }
        }
    }
}

/// Lower case is of the same length; it maps the letters A to Z to a to z,
/// in their order, and leaves every other character.
pub proof fn law_ascii_lower(s: Seq<char>, i: int)
    requires
        0 <= i < s.len(),
    ensures
        ascii_lower(s).len() == s.len(),
        'A' <= s[i] && s[i] <= 'Z' ==> ascii_lower(s)[i] as u32 == s[i] as u32 - 'A' as u32 + 'a' as u32,
        !('A' <= s[i] && s[i] <= 'Z') ==> ascii_lower(s)[i] == s[i],
{
}

/// A number, padded, has at least the width, and its value.
pub proof fn lemma_wide(n: nat, width: nat)
    ensures
        padded(n, width).len() >= width,
        digits_value(padded(n, width)) == n,
{
    lemma_decimal(n);
    if decimal(n).len() < width {
        lemma_zeros_value((width - decimal(n).len()) as nat, decimal(n));
    }
}

} // verus!
