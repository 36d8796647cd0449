//! Small string operations with exact contracts, shared by the other modules.

use vstd::prelude::*;

verus! {

/// Whether two strings hold the same characters.
pub fn str_eq(a: &str, b: &str) -> (same: bool)
    ensures
        same == (a@ == b@),
{
    let a = a.to_owned();
    let b = b.to_owned();
    a == b
}

/// `String::push`: appends one character.
#[verifier::external_body]
pub fn push_char(s: &mut String, c: char)
    ensures
        final(s)@ == old(s)@.push(c),
{
    s.push(c)
}

/// The characters of `s`, in order.
pub fn chars_of(s: &str) -> (chars: Vec<char>)
    ensures
        chars@ == s@,
{
    let n = s.unicode_len();
    let mut chars: Vec<char> = Vec::new();
    let mut i: usize = 0;
    while i < n
        invariant
            i <= n,
            n == s@.len(),
            chars@ == s@.subrange(0, i as int),
        decreases n - i,
    {
        let c = s.get_char(i);
        chars.push(c);
        assert(chars@ =~= s@.subrange(0, i + 1));
        i = i + 1;
    }
    assert(s@.subrange(0, n as int) =~= s@);
    chars
}

/// The string made of the characters `chars[from..to]`.
pub fn string_of(chars: &Vec<char>, from: usize, to: usize) -> (s: String)
    requires
        from <= to <= chars.len(),
    ensures
        s@ == chars@.subrange(from as int, to as int),
{
    let mut s = String::new();
    let mut i: usize = from;
    while i < to
        invariant
            from <= i <= to,
            to <= chars.len(),
            s@ == chars@.subrange(from as int, i as int),
        decreases to - i,
    {
        push_char(&mut s, chars[i]);
        assert(s@ =~= chars@.subrange(from as int, i + 1));
        i = i + 1;
    }
    s
}

/// Whether `c` is an ASCII decimal digit.
pub open spec fn is_digit(c: char) -> bool {
    '0' <= c <= '9'
}

/// The value of a string of decimal digits, most significant first.
pub open spec fn digits_value(d: Seq<char>) -> nat
    decreases d.len(),
{
    if d.len() == 0 {
        0
    } else {
        digits_value(d.drop_last()) * 10 + ((d.last() as int) - ('0' as int)) as nat
    }
}

/// The digits of an unsigned decimal literal: the text after an optional leading `+`.
pub open spec fn unsigned_digits(s: Seq<char>) -> Seq<char> {
    if s.len() > 0 && s[0] == '+' {
        s.drop_first()
    } else {
        s
    }
}

/// The value of an unsigned decimal literal (an optional `+`, then one or more
/// digits), or none for any other text.
pub open spec fn decimal_value(s: Seq<char>) -> Option<nat> {
    let d = unsigned_digits(s);
    if d.len() > 0 && forall|i: int| 0 <= i < d.len() ==> is_digit(#[trigger] d[i]) {
        Some(digits_value(d))
    } else {
        None
    }
}

proof fn lemma_digits_value_grows(d: Seq<char>, i: int)
    requires
        0 <= i <= d.len(),
        forall|j: int| 0 <= j < d.len() ==> is_digit(#[trigger] d[j]),
    ensures
        digits_value(d.subrange(0, i)) <= digits_value(d),
    decreases d.len() - i,
{
    if i < d.len() {
        lemma_digits_value_grows(d, i + 1);
        assert(d.subrange(0, i + 1).drop_last() =~= d.subrange(0, i));
    } else {
        assert(d.subrange(0, i) =~= d);
    }
}

/// Parses an unsigned decimal literal that fits a `u64`, as `str::parse::<u64>` does.
pub fn parse_u64(s: &str) -> (n: Option<u64>)
    ensures
        n matches Some(v) ==> decimal_value(s@) == Some(v as nat),
        n is None ==> decimal_value(s@) is None || decimal_value(s@).unwrap() > u64::MAX,
{
    let chars = chars_of(s);
    let mut i: usize = 0;
    if chars.len() > 0 && chars[0] == '+' {
        i = 1;
    }
    let start = i;
    let ghost d = unsigned_digits(s@);
    assert(d =~= s@.subrange(start as int, s@.len() as int));
    if start == chars.len() {
        return None;
    }
    let mut value: u64 = 0;
    while i < chars.len()
        invariant
            chars@ == s@,
            start <= i <= chars.len(),
            d == unsigned_digits(s@),
            d =~= s@.subrange(start as int, s@.len() as int),
            forall|j: int| 0 <= j < i - start ==> is_digit(#[trigger] d[j]),
            value == digits_value(d.subrange(0, i - start)),
        decreases chars.len() - i,
    {
        let c = chars[i];
        if !('0' <= c && c <= '9') {
            assert(!is_digit(d[i - start]));
            return None;
        }
        let digit = (c as u64) - ('0' as u64);
        assert(d.subrange(0, i + 1 - start).drop_last() =~= d.subrange(0, i - start));
        assert(d.subrange(0, i + 1 - start).last() == c);
        assert(digits_value(d.subrange(0, i + 1 - start)) == value * 10 + digit);
        match value.checked_mul(10) {
            Some(tens) => match tens.checked_add(digit) {
                Some(next) => {
                    value = next;
                },
                None => {
                    proof {
                        if forall|j: int| 0 <= j < d.len() ==> is_digit(#[trigger] d[j]) {
                            lemma_digits_value_grows(d, i + 1 - start);
                        }
                    }
                    return None;
                },
            },
            None => {
                proof {
                    if forall|j: int| 0 <= j < d.len() ==> is_digit(#[trigger] d[j]) {
                        lemma_digits_value_grows(d, i + 1 - start);
                    }
                }
                return None;
            },
        }
        i = i + 1;
    }
    assert(d.subrange(0, d.len() as int) =~= d);
    Some(value)
}

/// The value of `d` when it is one or more decimal digits, or none.
pub open spec fn digits_only_value(d: Seq<char>) -> Option<nat> {
    if d.len() > 0 && forall|i: int| 0 <= i < d.len() ==> is_digit(#[trigger] d[i]) {
        Some(digits_value(d))
    } else {
        None
    }
}

/// The value of a signed decimal literal (an optional `+` or `-`, then one or
/// more digits), or none for any other text.
pub open spec fn signed_decimal_value(s: Seq<char>) -> Option<int> {
    if s.len() > 0 && s[0] == '-' {
        match digits_only_value(s.drop_first()) {
            Some(v) => Some(-v),
            None => None,
        }
    } else {
        match decimal_value(s) {
            Some(v) => Some(v as int),
            None => None,
        }
    }
}

/// Reads `chars[start..]` as one or more decimal digits whose value fits a
/// `u128`; none when they are not all digits, are empty, or overflow.
pub fn parse_digits_u128(chars: &Vec<char>, start: usize) -> (n: Option<u128>)
    requires
        start <= chars.len(),
    ensures
        n matches Some(v) ==> digits_only_value(chars@.subrange(start as int, chars@.len() as int))
            == Some(v as nat),
        n is None ==> digits_only_value(chars@.subrange(start as int, chars@.len() as int)) is None
            || digits_only_value(chars@.subrange(start as int, chars@.len() as int)).unwrap()
            > u128::MAX,
{
    let ghost d = chars@.subrange(start as int, chars@.len() as int);
    if start == chars.len() {
        return None;
    }
    let mut i: usize = start;
    let mut value: u128 = 0;
    while i < chars.len()
        invariant
            start <= i <= chars.len(),
            d == chars@.subrange(start as int, chars@.len() as int),
            forall|j: int| 0 <= j < i - start ==> is_digit(#[trigger] d[j]),
            value == digits_value(d.subrange(0, i - start)),
        decreases chars.len() - i,
    {
        let c = chars[i];
        if !('0' <= c && c <= '9') {
            assert(!is_digit(d[i - start]));
            return None;
        }
        let digit = (c as u128) - ('0' as u128);
        assert(d.subrange(0, i + 1 - start).drop_last() =~= d.subrange(0, i - start));
        assert(d.subrange(0, i + 1 - start).last() == c);
        assert(digits_value(d.subrange(0, i + 1 - start)) == value * 10 + digit);
        match value.checked_mul(10) {
            Some(tens) => match tens.checked_add(digit) {
                Some(next) => {
                    value = next;
                },
                None => {
                    proof {
                        if forall|j: int| 0 <= j < d.len() ==> is_digit(#[trigger] d[j]) {
                            lemma_digits_value_grows(d, i + 1 - start);
                        }
                    }
                    return None;
                },
            },
            None => {
                proof {
                    if forall|j: int| 0 <= j < d.len() ==> is_digit(#[trigger] d[j]) {
                        lemma_digits_value_grows(d, i + 1 - start);
                    }
                }
                return None;
            },
        }
        i = i + 1;
    }
    assert(d.subrange(0, d.len() as int) =~= d);
    Some(value)
}

/// `t` occurs in `s` as a run of consecutive characters (the empty string
/// occurs everywhere).
pub open spec fn has_substring(s: Seq<char>, t: Seq<char>) -> bool {
    exists|i: int| 0 <= i <= s.len() - t.len() && #[trigger] s.subrange(i, i + t.len()) == t
}

/// Whether `t` occurs in `s`, as `str::contains` with a string pattern answers.
pub fn contains_text(s: &str, t: &str) -> (found: bool)
    ensures
        found == has_substring(s@, t@),
{
    let cs = chars_of(s);
    let ct = chars_of(t);
    if ct.len() > cs.len() {
        return false;
    }
    let last = cs.len() - ct.len();
    let mut i: usize = 0;
    while i <= last
        invariant
            cs@ == s@,
            ct@ == t@,
            last == s@.len() - t@.len(),
            forall|k: int| 0 <= k < i ==> #[trigger] s@.subrange(k, k + t@.len()) != t@,
        decreases last + 1 - i,
    {
        let mut j: usize = 0;
        while j < ct.len() && cs[i + j] == ct[j]
            invariant
                cs@ == s@,
                ct@ == t@,
                i <= last,
                last == s@.len() - t@.len(),
                i + ct.len() <= cs.len(),
                j <= ct.len(),
                forall|m: int| 0 <= m < j ==> s@[i + m] == t@[m],
            decreases ct.len() - j,
        {
            j = j + 1;
        }
        if j == ct.len() {
            assert(s@.subrange(i as int, i + t@.len()) =~= t@);
            return true;
        }
        assert(s@.subrange(i as int, i + t@.len())[j as int] != t@[j as int]);
        if i == last {
            assert forall|k: int| 0 <= k <= s@.len() - t@.len() implies #[trigger] s@.subrange(
                k,
                k + t@.len(),
            ) != t@ by {
                if k < i {
                } else {
                    assert(k == i);
                }
            }
            return false;
        }
        i = i + 1;
    }
    false
}

/// `s` followed by `t`.
pub fn concat(s: &str, t: &str) -> (joined: String)
    ensures
        joined@ == s@ + t@,
{
    let mut joined = s.to_owned();
    joined.append(t);
    joined
}

} // verus!
