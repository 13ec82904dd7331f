//! Character-level building blocks: scanning for separators, decimal
//! numbers, and moving between `String` and `Vec<char>`.
//!
//! Everything here is stated over `Seq<char>`, the view of a string.

use vstd::prelude::*;

verus! {

/// The field separator of a menu line.
pub const TAB: char = '\t';

/// First half of a line break.
pub const CR: char = '\r';

/// Second half of a line break.
pub const LF: char = '\n';

/// `String::push` appends exactly one character to the end of the string.
pub assume_specification[ String::push ](s: &mut String, c: char)
    ensures
        final(s)@ == old(s)@.push(c),
;

/// Index of the first `c` in `s` at or after `from`; `s.len()` when there is none.
pub open spec fn find_from(s: Seq<char>, c: char, from: int) -> int
    decreases s.len() - from,
{
    if from >= s.len() {
        s.len() as int
    } else if s[from] == c {
        from
    } else {
        find_from(s, c, from + 1)
    }
}

/// `s` holds no `c` at all.
pub open spec fn free_of(s: Seq<char>, c: char) -> bool {
    forall|i: int| 0 <= i < s.len() ==> s[i] != c
}

/// What `find_from` finds: nothing before the result is `c`, and the result
/// is either a `c` or the end of the sequence.
pub proof fn lemma_find_from(s: Seq<char>, c: char, from: int)
    requires
        0 <= from,
    ensures
        from <= s.len() ==> from <= find_from(s, c, from) <= s.len(),
        from > s.len() ==> find_from(s, c, from) == s.len(),
        forall|i: int| from <= i < find_from(s, c, from) ==> s[i] != c,
        find_from(s, c, from) < s.len() ==> s[find_from(s, c, from)] == c,
    decreases s.len() - from,
{
    if from < s.len() && s[from] != c {
        lemma_find_from(s, c, from + 1);
    }
}

/// A position known to be the first `c` at or after `from` is what `find_from` returns.
pub proof fn lemma_find_from_unique(s: Seq<char>, c: char, from: int, at: int)
    requires
        0 <= from <= at <= s.len(),
        forall|i: int| from <= i < at ==> s[i] != c,
        at < s.len() ==> s[at] == c,
    ensures
        find_from(s, c, from) == at,
    decreases at - from,
{
    if from < at {
        lemma_find_from_unique(s, c, from + 1, at);
    }
}

/// The characters of a string, one vector element each.
pub fn chars_of(s: &str) -> (v: Vec<char>)
    ensures
        v@ == s@,
{
    let mut v: Vec<char> = Vec::new();
    for c in it: s.chars()
        invariant
            v@ == it.seq().take(it.index() as int),
            it.seq() == s@,
    {
        v.push(c);
    }
    v
}

/// The string made of `v[from..to]`.
pub fn string_of(v: &Vec<char>, from: usize, to: usize) -> (s: String)
    requires
        from <= to <= v.len(),
    ensures
        s@ == v@.subrange(from as int, to as int),
{
    let mut s = String::new();
    let mut i: usize = from;
    while i < to
        invariant
            from <= i <= to <= v.len(),
            s@ == v@.subrange(from as int, i as int),
        decreases to - i,
    {
        s.push(v[i]);
        i = i + 1;
    }
    s
}

/// Scans `v` from `from` for the first `c`.
pub fn find_char(v: &Vec<char>, c: char, from: usize) -> (at: usize)
    ensures
        at == find_from(v@, c, from as int),
        from <= v.len() ==> from <= at <= v.len(),
{
    let mut i: usize = from;
    while i < v.len() && v[i] != c
        invariant
            from <= i,
            from <= v.len() ==> i <= v.len(),
            find_from(v@, c, from as int) == find_from(v@, c, i as int),
        decreases v.len() - i,
    {
        i = i + 1;
    }
    if i >= v.len() {
        v.len()
    } else {
        i
    }
}

/// Whether `c` is one of the ten ASCII digits.
pub open spec fn is_digit(c: char) -> bool {
    '0' <= c <= '9'
}

/// The character for a single decimal digit.
pub open spec fn digit_char(d: nat) -> char
    recommends
        d < 10,
{
    (48 + d) as u8 as char
}

/// The value of a digit character.
pub open spec fn digit_value(c: char) -> nat
    recommends
        is_digit(c),
{
    (c as u32 - 48) as nat
}

/// Every character of `s` is an ASCII digit.
pub open spec fn all_digits(s: Seq<char>) -> bool {
    forall|i: int| 0 <= i < s.len() ==> is_digit(#[trigger] s[i])
}

/// The number that a run of digits denotes in base ten.
pub open spec fn digits_value(s: Seq<char>) -> nat
    decreases s.len(),
{
    if s.len() == 0 {
        0
    } else {
        digits_value(s.drop_last()) * 10 + digit_value(s.last())
    }
}

/// The shortest decimal numeral for `n`.
pub open spec fn decimal(n: nat) -> Seq<char>
    decreases n,
{
    if n < 10 {
        seq![digit_char(n)]
    } else {
        decimal(n / 10).push(digit_char(n % 10))
    }
}

/// A numeral is a non-empty run of digits that denotes the number it was made from.
pub proof fn lemma_decimal(n: nat)
    ensures
        decimal(n).len() >= 1,
        all_digits(decimal(n)),
        digits_value(decimal(n)) == n,
    decreases n,
{
    if n < 10 {
        let s = decimal(n);
        assert(s.drop_last() =~= Seq::<char>::empty());
        assert(digits_value(s.drop_last()) == 0);
        assert(s.last() == digit_char(n));
    } else {
        lemma_decimal(n / 10);
        let p = decimal(n / 10);
        let s = decimal(n);
        assert(s.drop_last() =~= p);
        assert(s.last() == digit_char(n % 10));
        assert forall|i: int| 0 <= i < s.len() implies is_digit(#[trigger] s[i]) by {
            if i < p.len() {
                assert(s[i] == p[i]);
            }
        }
    }
}

/// Dropping trailing digits never makes the denoted number larger.
pub proof fn lemma_digits_value_prefix(s: Seq<char>, k: int)
    requires
        0 <= k <= s.len(),
    ensures
        digits_value(s.take(k)) <= digits_value(s),
    decreases s.len() - k,
{
    if k < s.len() {
        lemma_digits_value_prefix(s, k + 1);
        assert(s.take(k + 1).drop_last() =~= s.take(k));
    } else {
        assert(s.take(k) =~= s);
    }
}

/// Appends the numeral of `n` to `s`.
pub fn push_decimal(s: &mut String, n: u64)
    ensures
        final(s)@ == old(s)@ + decimal(n as nat),
    decreases n,
{
    if n >= 10 {
        push_decimal(s, n / 10);
    }
    let d: u8 = (n % 10) as u8;
    s.push((48u8 + d) as char);
    assert(s@ =~= old(s)@ + decimal(n as nat));
}

/// What a run of digits denotes as a port: it must be non-empty, all
/// digits, and no larger than 65535.
pub open spec fn parse_digits(body: Seq<char>) -> Option<u16> {
    if body.len() > 0 && all_digits(body) && digits_value(body) <= u16::MAX {
        Some(digits_value(body) as u16)
    } else {
        None
    }
}

/// What a port field denotes: an optional `+`, then at least one digit,
/// the whole no larger than 65535. Anything else denotes no port.
pub open spec fn parse_port(s: Seq<char>) -> Option<u16> {
    if s.len() > 0 && s[0] == '+' {
        parse_digits(s.drop_first())
    } else {
        parse_digits(s)
    }
}

/// The numeral of a port reads back as that port.
pub proof fn lemma_parse_port_decimal(port: u16)
    ensures
        parse_port(decimal(port as nat)) == Some(port),
{
    lemma_decimal(port as nat);
    let s = decimal(port as nat);
    assert(is_digit(s[0]));
}

/// Reads `v[from..]` as a port.
pub fn read_port(v: &Vec<char>, from: usize) -> (port: Option<u16>)
    requires
        from <= v.len(),
    ensures
        port == parse_port(v@.subrange(from as int, v.len() as int)),
{
    let ghost field = v@.subrange(from as int, v.len() as int);
    let start: usize = if from < v.len() && v[from] == '+' {
        from + 1
    } else {
        from
    };
    let ghost body = v@.subrange(start as int, v.len() as int);
    proof {
        if start > from {
            assert(field.drop_first() =~= body);
        } else {
            assert(field =~= body);
        }
    }
    if start >= v.len() {
        return None;
    }
    let mut value: u32 = 0;
    let mut i: usize = start;
    while i < v.len()
        invariant
            start <= i <= v.len(),
            start < v.len(),
            body == v@.subrange(start as int, v.len() as int),
            parse_port(v@.subrange(from as int, v.len() as int)) == parse_digits(body),
            all_digits(body.take(i - start)),
            value == digits_value(body.take(i - start)),
            value <= u16::MAX,
        decreases v.len() - i,
    {
        let c = v[i];
        if !(c >= '0' && c <= '9') {
            proof {
                assert(body[i - start] == c);
            }
            return None;
        }
        let ghost before = body.take(i - start);
        let ghost after = body.take(i - start + 1);
        proof {
            assert(after.drop_last() =~= before);
            assert(after.last() == c);
            assert forall|j: int| 0 <= j < after.len() implies is_digit(#[trigger] after[j]) by {
                if j < before.len() {
                    assert(after[j] == before[j]);
                }
            }
        }
        value = value * 10 + (c as u32 - 48);
        if value > 65535 {
            proof {
                lemma_digits_value_prefix(body, i - start + 1);
            }
            return None;
        }
        i = i + 1;
    }
    proof {
        assert(body.take(i - start) =~= body);
    }
    Some(value as u16)
}

/// `std::str::from_utf8` accepts exactly the well-formed UTF-8 byte strings,
/// and the text it gives back is made of the very bytes it was given.
#[verifier::external_body]
pub(crate) fn from_utf8(bytes: &[u8]) -> (text: Option<String>)
    ensures
        text is Some <==> vstd::utf8::valid_utf8(bytes@),
        text matches Some(s) ==> vstd::utf8::encode_utf8(s@) == bytes@,
{
    match std::str::from_utf8(bytes) {
        Ok(s) => Some(s.to_owned()),
        Err(_) => None,
    }
}

} // verus!
