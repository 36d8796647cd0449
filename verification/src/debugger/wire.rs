//! Owned transport data exchanged with the editor, before conversion to engine
//! variants. Objects keep their fields sorted by key, each key once.

use crate::text::{chars_of, digits_value, is_digit, push_char, str_eq};
use vstd::prelude::*;

verus! {

/// A transport value. `Float` holds the bit pattern of an `f64`.
#[derive(Debug, PartialEq)]
pub enum Wire {
    Null,
    Bool(bool),
    Integer(i64),
    Float(u64),
    String(String),
    Array(Vec<Wire>),
    Object(Vec<(String, Wire)>),
}

/// `a` and `b` agree on their first `i` characters.
pub open spec fn prefix_agrees(a: Seq<char>, b: Seq<char>, i: int) -> bool {
    &&& 0 <= i <= a.len()
    &&& i <= b.len()
    &&& forall|j: int| 0 <= j < i ==> a[j] == b[j]
}

/// `a` sorts before `b`, decided at position `i`.
pub open spec fn orders_at(a: Seq<char>, b: Seq<char>, i: int) -> bool {
    &&& prefix_agrees(a, b, i)
    &&& ((i == a.len() && i < b.len()) || (i < a.len() && i < b.len() && (a[i] as int) < (
    b[i] as int)))
}

/// Lexicographic order of keys by character code, the order of a sorted map of strings.
pub open spec fn key_lt(a: Seq<char>, b: Seq<char>) -> bool {
    exists|i: int| #[trigger] orders_at(a, b, i)
}

/// The fields are sorted by key, strictly, so each key occurs once.
pub open spec fn keys_sorted(fields: Seq<(String, Wire)>) -> bool {
    forall|i: int, j: int|
        #![trigger fields[i], fields[j]]
        0 <= i < j < fields.len() ==> key_lt(fields[i].0@, fields[j].0@)
}

/// `i` is the first position whose key is `key`.
pub open spec fn first_match(fields: Seq<(String, Wire)>, key: Seq<char>, i: int) -> bool {
    &&& 0 <= i < fields.len()
    &&& fields[i].0@ == key
    &&& forall|j: int| 0 <= j < i ==> fields[j].0@ != key
}

/// The value of the first field named `key`, if any.
pub open spec fn field_value(fields: Seq<(String, Wire)>, key: Seq<char>) -> Option<Wire> {
    if exists|i: int| #[trigger] first_match(fields, key, i) {
        Some(fields[choose|i: int| #[trigger] first_match(fields, key, i)].1)
    } else {
        None
    }
}

/// The member `key` of an object; nothing for other values.
pub open spec fn wire_get(w: Wire, key: Seq<char>) -> Option<Wire> {
    match w {
        Wire::Object(fields) => field_value(fields@, key),
        _ => None,
    }
}

/// The value given last for `key` in a list of named values.
pub open spec fn assoc_last<'a>(pairs: Seq<(&'a str, Wire)>, key: Seq<char>) -> Option<Wire>
    decreases pairs.len(),
{
    if pairs.len() == 0 {
        None
    } else if pairs.last().0@ == key {
        Some(pairs.last().1)
    } else {
        assoc_last(pairs.drop_last(), key)
    }
}

/// An object whose fields are sorted and whose members are those given last per key.
pub open spec fn object_of<'a>(w: Wire, pairs: Seq<(&'a str, Wire)>) -> bool {
    &&& w matches Wire::Object(fields)
    &&& keys_sorted(fields@)
    &&& forall|k: Seq<char>| #[trigger] field_value(fields@, k) == assoc_last(pairs, k)
}

/// With distinct names, the value given for a name is the one given last for it.
pub proof fn lemma_assoc_last_distinct<'a>(pairs: Seq<(&'a str, Wire)>, i: int)
    requires
        0 <= i < pairs.len(),
        forall|j: int| 0 <= j < pairs.len() && j != i ==> pairs[j].0@ != pairs[i].0@,
    ensures
        assoc_last(pairs, pairs[i].0@) == Some(pairs[i].1),
    decreases pairs.len(),
{
    if i < pairs.len() - 1 {
        assert(pairs.last().0@ != pairs[i].0@);
        lemma_assoc_last_distinct(pairs.drop_last(), i);
    }
}

/// A name not given has no value.
pub proof fn lemma_assoc_last_absent<'a>(pairs: Seq<(&'a str, Wire)>, k: Seq<char>)
    requires
        forall|j: int| 0 <= j < pairs.len() ==> pairs[j].0@ != k,
    ensures
        assoc_last(pairs, k) is None,
    decreases pairs.len(),
{
    if pairs.len() > 0 {
        lemma_assoc_last_absent(pairs.drop_last(), k);
    }
}

pub proof fn lemma_key_lt_irreflexive(a: Seq<char>)
    ensures
        !key_lt(a, a),
{
}

pub proof fn lemma_key_lt_transitive(a: Seq<char>, b: Seq<char>, c: Seq<char>)
    requires
        key_lt(a, b),
        key_lt(b, c),
    ensures
        key_lt(a, c),
{
    let i = choose|i: int| #[trigger] orders_at(a, b, i);
    let k = choose|k: int| #[trigger] orders_at(b, c, k);
    if i < k {
        assert(orders_at(a, c, i));
    } else if k < i {
        assert(a[k] == b[k]);
        assert(orders_at(a, c, k));
    } else {
        assert(orders_at(a, c, i));
    }
}

proof fn lemma_first_difference(a: Seq<char>, b: Seq<char>, i: int)
    requires
        a != b,
        prefix_agrees(a, b, i),
    ensures
        key_lt(a, b) || key_lt(b, a),
    decreases a.len() - i,
{
    if i == a.len() && i == b.len() {
        assert(a =~= b);
    } else if i == a.len() {
        assert(orders_at(a, b, i));
    } else if i == b.len() {
        assert(orders_at(b, a, i));
    } else if a[i] != b[i] {
        if (a[i] as int) < (b[i] as int) {
            assert(orders_at(a, b, i));
        } else {
            assert(orders_at(b, a, i));
        }
    } else {
        lemma_first_difference(a, b, i + 1);
    }
}

pub proof fn lemma_key_lt_total(a: Seq<char>, b: Seq<char>)
    requires
        a != b,
    ensures
        key_lt(a, b) || key_lt(b, a),
{
    lemma_first_difference(a, b, 0);
}

proof fn lemma_sorted_distinct(fields: Seq<(String, Wire)>, i: int, j: int)
    requires
        keys_sorted(fields),
        0 <= i < fields.len(),
        0 <= j < fields.len(),
        fields[i].0@ == fields[j].0@,
    ensures
        i == j,
{
    if i < j {
        assert(key_lt(fields[i].0@, fields[j].0@));
        lemma_key_lt_irreflexive(fields[i].0@);
    } else if j < i {
        assert(key_lt(fields[j].0@, fields[i].0@));
        lemma_key_lt_irreflexive(fields[i].0@);
    }
}

proof fn lemma_first_match_unique(fields: Seq<(String, Wire)>, key: Seq<char>, i: int, j: int)
    requires
        first_match(fields, key, i),
        first_match(fields, key, j),
    ensures
        i == j,
{
}

/// In sorted fields, the value of a present key is the one at its position.
pub proof fn lemma_sorted_value(fields: Seq<(String, Wire)>, p: int)
    requires
        keys_sorted(fields),
        0 <= p < fields.len(),
    ensures
        field_value(fields, fields[p].0@) == Some(fields[p].1),
{
    let key = fields[p].0@;
    assert forall|j: int| 0 <= j < p implies fields[j].0@ != key by {
        if fields[j].0@ == key {
            lemma_sorted_distinct(fields, j, p);
        }
    }
    assert(first_match(fields, key, p));
    let c = choose|i: int| #[trigger] first_match(fields, key, i);
    lemma_first_match_unique(fields, key, c, p);
}

/// Fields without `key` give it no value.
proof fn lemma_absent_value(fields: Seq<(String, Wire)>, key: Seq<char>)
    requires
        forall|i: int| 0 <= i < fields.len() ==> fields[i].0@ != key,
    ensures
        field_value(fields, key) is None,
{
}

/// Whether `a` sorts before `b`.
pub fn str_lt(a: &str, b: &str) -> (before: bool)
    ensures
        before == key_lt(a@, b@),
{
    let ca = chars_of(a);
    let cb = chars_of(b);
    let mut i: usize = 0;
    while i < ca.len() && i < cb.len() && ca[i] == cb[i]
        invariant
            ca@ == a@,
            cb@ == b@,
            prefix_agrees(a@, b@, i as int),
        decreases ca.len() - i,
    {
        i = i + 1;
    }
    if i == ca.len() {
        if i < cb.len() {
            assert(orders_at(a@, b@, i as int));
            true
        } else {
            assert(a@ =~= b@);
            proof {
                lemma_key_lt_irreflexive(a@);
            }
            false
        }
    } else if i == cb.len() {
        proof {
            if key_lt(a@, b@) {
                let j = choose|j: int| #[trigger] orders_at(a@, b@, j);
                if j < i {
                    assert(a@[j] == b@[j]);
                }
            }
        }
        false
    } else {
        let x = ca[i];
        let y = cb[i];
        if x < y {
            assert(orders_at(a@, b@, i as int));
            true
        } else {
            proof {
                if key_lt(a@, b@) {
                    let j = choose|j: int| #[trigger] orders_at(a@, b@, j);
                    if j < i {
                        assert(a@[j] == b@[j]);
                    } else if j > i {
                        assert(a@[i as int] == b@[i as int]);
                    }
                }
            }
            false
        }
    }
}

/// Sets `key` to `value` in sorted fields, replacing an existing value for the key.
pub fn insert_field(fields: &mut Vec<(String, Wire)>, key: String, value: Wire)
    requires
        keys_sorted(old(fields)@),
    ensures
        keys_sorted(final(fields)@),
        forall|k: Seq<char>| #[trigger]
            field_value(final(fields)@, k) == (if k == key@ {
                Some(value)
            } else {
                field_value(old(fields)@, k)
            }),
{
    let ghost f0 = fields@;
    let mut i: usize = 0;
    while i < fields.len() && str_lt(fields[i].0.as_str(), key.as_str())
        invariant
            fields@ == f0,
            keys_sorted(f0),
            i <= fields.len(),
            forall|j: int| 0 <= j < i ==> key_lt(#[trigger] f0[j].0@, key@),
        decreases fields.len() - i,
    {
        i = i + 1;
    }
    if i < fields.len() && str_eq(fields[i].0.as_str(), key.as_str()) {
        let ghost kv = key@;
        fields.set(i, (key, value));
        proof {
            let f1 = fields@;
            assert forall|a: int, b: int|
                #![trigger f1[a], f1[b]]
                0 <= a < b < f1.len() implies key_lt(f1[a].0@, f1[b].0@) by {
                assert(f0[a].0@ == f1[a].0@);
                assert(f0[b].0@ == f1[b].0@);
                assert(key_lt(f0[a].0@, f0[b].0@));
            }
            assert forall|k: Seq<char>| #[trigger]
                field_value(f1, k) == (if k == kv {
                    Some(value)
                } else {
                    field_value(f0, k)
                }) by {
                if k == kv {
                    lemma_sorted_value(f1, i as int);
                } else if exists|p: int| 0 <= p < f0.len() && f0[p].0@ == k {
                    let p = choose|p: int| 0 <= p < f0.len() && f0[p].0@ == k;
                    lemma_sorted_value(f0, p);
                    assert(f1[p] == f0[p]);
                    lemma_sorted_value(f1, p);
                } else {
                    lemma_absent_value(f0, k);
                    assert forall|p: int| 0 <= p < f1.len() implies f1[p].0@ != k by {
                        if p != i {
                            assert(f1[p] == f0[p]);
                        }
                    }
                    lemma_absent_value(f1, k);
                }
            }
        }
    } else {
        let ghost kv = key@;
        proof {
            if i < f0.len() {
                assert(!key_lt(f0[i as int].0@, kv));
                assert(f0[i as int].0@ != kv);
                lemma_key_lt_total(f0[i as int].0@, kv);
            }
        }
        fields.insert(i, (key, value));
        proof {
            let f1 = fields@;
            assert(f1.len() == f0.len() + 1);
            assert forall|p: int| 0 <= p < f1.len() implies #[trigger] f1[p] == (if p < i {
                f0[p]
            } else if p == i {
                (f1[p].0, value)
            } else {
                f0[p - 1]
            }) by {}
            assert forall|a: int, b: int|
                #![trigger f1[a], f1[b]]
                0 <= a < b < f1.len() implies key_lt(f1[a].0@, f1[b].0@) by {
                if b < i {
                    assert(key_lt(f0[a].0@, f0[b].0@));
                } else if b == i {
                    assert(key_lt(f0[a].0@, kv));
                } else if a == i {
                    if b - 1 > i {
                        assert(key_lt(f0[i as int].0@, f0[b - 1].0@));
                        lemma_key_lt_transitive(kv, f0[i as int].0@, f0[b - 1].0@);
                    }
                } else if a < i {
                    assert(key_lt(f0[a].0@, f0[b - 1].0@));
                } else {
                    assert(key_lt(f0[a - 1].0@, f0[b - 1].0@));
                }
            }
            assert forall|k: Seq<char>| #[trigger]
                field_value(f1, k) == (if k == kv {
                    Some(value)
                } else {
                    field_value(f0, k)
                }) by {
                if k == kv {
                    lemma_sorted_value(f1, i as int);
                } else if exists|p: int| 0 <= p < f0.len() && f0[p].0@ == k {
                    let p = choose|p: int| 0 <= p < f0.len() && f0[p].0@ == k;
                    lemma_sorted_value(f0, p);
                    if p < i {
                        assert(f1[p] == f0[p]);
                        lemma_sorted_value(f1, p);
                    } else {
                        assert(f1[p + 1] == f0[p]);
                        lemma_sorted_value(f1, p + 1);
                    }
                } else {
                    lemma_absent_value(f0, k);
                    assert forall|p: int| 0 <= p < f1.len() implies f1[p].0@ != k by {
                        if p < i {
                            assert(f1[p] == f0[p]);
                        } else if p > i {
                            assert(f1[p] == f0[p - 1]);
                        }
                    }
                    lemma_absent_value(f1, k);
                }
            }
        }
    }
}

impl Wire {
    /// An object built from named values; when a name repeats, the last value wins.
    pub fn object<'a>(pairs: Vec<(&'a str, Wire)>) -> (w: Wire)
        ensures
            object_of(w, pairs@),
    {
        let ghost all = pairs@;
        assert(all.len() == pairs.len());
        let mut rest = pairs;
        let mut fields: Vec<(String, Wire)> = Vec::new();
        let mut done: usize = 0;
        while rest.len() > 0
            invariant
                done + rest.len() == all.len(),
                all.len() <= usize::MAX,
                rest@ == all.subrange(done as int, all.len() as int),
                keys_sorted(fields@),
                forall|k: Seq<char>| #[trigger]
                    field_value(fields@, k) == assoc_last(all.subrange(0, done as int), k),
            decreases rest.len(),
        {
            let (name, value) = rest.remove(0);
            let ghost prev = all.subrange(0, done as int);
            let ghost next = all.subrange(0, done + 1);
            assert(next.drop_last() =~= prev);
            assert(next.last() == all[done as int]);
            assert(all[done as int] == (name, value));
            insert_field(&mut fields, name.to_owned(), value);
            done = done + 1;
            assert(rest@ =~= all.subrange(done as int, all.len() as int));
        }
        assert(all.subrange(0, done as int) =~= all);
        Wire::Object(fields)
    }

    /// The member `key` of an object; nothing for other values.
    pub fn get(&self, key: &str) -> (member: Option<&Wire>)
        ensures
            member is None <==> wire_get(*self, key@) is None,
            member matches Some(m) ==> wire_get(*self, key@) == Some(*m),
    {
        match self {
            Wire::Object(fields) => {
                let mut i: usize = 0;
                while i < fields.len()
                    invariant
                        i <= fields.len(),
                        wire_get(*self, key@) == field_value(fields@, key@),
                        forall|j: int| 0 <= j < i ==> fields@[j].0@ != key@,
                    decreases fields.len() - i,
                {
                    if str_eq(fields[i].0.as_str(), key) {
                        assert(first_match(fields@, key@, i as int));
                        proof {
                            let c = choose|c: int| #[trigger] first_match(fields@, key@, c);
                            lemma_first_match_unique(fields@, key@, c, i as int);
                        }
                        return Some(&fields[i].1);
                    }
                    i = i + 1;
                }
                None
            },
            _ => None,
        }
    }

    /// The items of an array; nothing for other values.
    pub fn as_array(&self) -> (items: Option<&[Wire]>)
        ensures
            items is Some <==> self is Array,
            items matches Some(s) ==> self matches Wire::Array(v) && s@ == v@,
    {
        match self {
            Wire::Array(items) => Some(items.as_slice()),
            _ => None,
        }
    }

    /// The text of a string; nothing for other values.
    pub fn as_str(&self) -> (text: Option<&str>)
        ensures
            text is Some <==> self is String,
            text matches Some(t) ==> self matches Wire::String(s) && t@ == s@,
    {
        match self {
            Wire::String(s) => Some(s.as_str()),
            _ => None,
        }
    }
}

/// Two `f64` bit patterns compare equal as numbers: neither is NaN, and they are
/// the same pattern or both zeros.
pub open spec fn float_equal(a: u64, b: u64) -> bool {
    let ma = a % 0x8000_0000_0000_0000u64;
    let mb = b % 0x8000_0000_0000_0000u64;
    ma <= 0x7FF0_0000_0000_0000u64 && mb <= 0x7FF0_0000_0000_0000u64 && (a == b || (ma == 0
        && mb == 0))
}

/// Equality of transport values as `==` on them answers: same variant and same
/// contents, floats compared as numbers, members compared in order.
pub open spec fn wire_same(a: Wire, b: Wire) -> bool
    decreases a,
{
    match (a, b) {
        (Wire::Null, Wire::Null) => true,
        (Wire::Bool(x), Wire::Bool(y)) => x == y,
        (Wire::Integer(x), Wire::Integer(y)) => x == y,
        (Wire::Float(x), Wire::Float(y)) => float_equal(x, y),
        (Wire::String(x), Wire::String(y)) => x@ == y@,
        (Wire::Array(x), Wire::Array(y)) => x@.len() == y@.len() && forall|i: int|
            0 <= i < x@.len() ==> wire_same(#[trigger] x@[i], y@[i]),
        (Wire::Object(x), Wire::Object(y)) => x@.len() == y@.len() && forall|i: int|
            0 <= i < x@.len() ==> (#[trigger] x@[i]).0@ == y@[i].0@ && wire_same(x@[i].1, y@[i].1),
        _ => false,
    }
}

/// Whether two transport values are equal.
pub fn wire_eq(a: &Wire, b: &Wire) -> (same: bool)
    ensures
        same == wire_same(*a, *b),
    decreases a,
{
    match (a, b) {
        (Wire::Null, Wire::Null) => true,
        (Wire::Bool(x), Wire::Bool(y)) => *x == *y,
        (Wire::Integer(x), Wire::Integer(y)) => *x == *y,
        (Wire::Float(x), Wire::Float(y)) => {
            let ma = *x % 0x8000_0000_0000_0000u64;
            let mb = *y % 0x8000_0000_0000_0000u64;
            ma <= 0x7FF0_0000_0000_0000u64 && mb <= 0x7FF0_0000_0000_0000u64 && (*x == *y || (ma
                == 0 && mb == 0))
        },
        (Wire::String(x), Wire::String(y)) => str_eq(x.as_str(), y.as_str()),
        (Wire::Array(x), Wire::Array(y)) => {
            if x.len() != y.len() {
                return false;
            }
            let mut i: usize = 0;
            while i < x.len()
                invariant
                    *a == Wire::Array(*x),
                    *b == Wire::Array(*y),
                    x@.len() == y@.len(),
                    i <= x@.len(),
                    forall|j: int| 0 <= j < i ==> wire_same(#[trigger] x@[j], y@[j]),
                decreases x.len() - i,
            {
                proof {
                    assert(decreases_to!(*a => (*a)->Array_0));
                    assert(decreases_to!((*a)->Array_0 => (*a)->Array_0@));
                    assert(decreases_to!((*a)->Array_0@ => (*a)->Array_0@[i as int]));
                }
                if !wire_eq(&x[i], &y[i]) {
                    return false;
                }
                i = i + 1;
            }
            true
        },
        (Wire::Object(x), Wire::Object(y)) => {
            if x.len() != y.len() {
                return false;
            }
            let mut i: usize = 0;
            while i < x.len()
                invariant
                    *a == Wire::Object(*x),
                    *b == Wire::Object(*y),
                    x@.len() == y@.len(),
                    i <= x@.len(),
                    forall|j: int|
                        0 <= j < i ==> (#[trigger] x@[j]).0@ == y@[j].0@ && wire_same(
                            x@[j].1,
                            y@[j].1,
                        ),
                decreases x.len() - i,
            {
                proof {
                    assert(decreases_to!(*a => (*a)->Object_0));
                    assert(decreases_to!((*a)->Object_0 => (*a)->Object_0@));
                    assert(decreases_to!((*a)->Object_0@ => (*a)->Object_0@[i as int]));
                    assert(decreases_to!((*a)->Object_0@[i as int] => (*a)->Object_0@[i as int].1));
                }
                if !str_eq(x[i].0.as_str(), y[i].0.as_str()) || !wire_eq(&x[i].1, &y[i].1) {
                    return false;
                }
                i = i + 1;
            }
            true
        },
        _ => false,
    }
}

/// The text of a string member `key`, if it is one.
pub open spec fn string_member(w: Wire, key: Seq<char>) -> Option<Seq<char>> {
    match wire_get(w, key) {
        Some(Wire::String(s)) => Some(s@),
        _ => None,
    }
}

/// The character for a decimal digit.
pub open spec fn digit_char(d: nat) -> char {
    if d == 0 {
        '0'
    } else if d == 1 {
        '1'
    } else if d == 2 {
        '2'
    } else if d == 3 {
        '3'
    } else if d == 4 {
        '4'
    } else if d == 5 {
        '5'
    } else if d == 6 {
        '6'
    } else if d == 7 {
        '7'
    } else if d == 8 {
        '8'
    } else {
        '9'
    }
}

/// The decimal text of `n`, without leading zeros.
pub open spec fn decimal(n: nat) -> Seq<char>
    decreases n,
{
    if n < 10 {
        seq![digit_char(n)]
    } else {
        decimal(n / 10).push(digit_char(n % 10))
    }
}

proof fn lemma_digit_char(d: nat)
    requires
        d < 10,
    ensures
        is_digit(digit_char(d)),
        (digit_char(d) as int) - ('0' as int) == d,
{
}

/// The decimal text of `n` is digits only, and reads back as `n`.
pub proof fn lemma_decimal_reads_back(n: nat)
    ensures
        decimal(n).len() > 0,
        forall|i: int| 0 <= i < decimal(n).len() ==> is_digit(#[trigger] decimal(n)[i]),
        digits_value(decimal(n)) == n,
    decreases n,
{
    lemma_digit_char(n % 10);
    if n < 10 {
        assert(decimal(n) == seq![digit_char(n)]);
        assert(decimal(n).drop_last() =~= Seq::<char>::empty());
        assert(digits_value(Seq::<char>::empty()) == 0);
        assert(decimal(n).last() == digit_char(n));
        assert(n % 10 == n);
    } else {
        lemma_decimal_reads_back(n / 10);
        let d = decimal(n);
        assert(d.drop_last() =~= decimal(n / 10));
        assert(d.last() == digit_char(n % 10));
        assert(digits_value(d) == digits_value(decimal(n / 10)) * 10 + ((digit_char(n % 10) as int)
            - ('0' as int)) as nat);
        assert(n == (n / 10) * 10 + n % 10);
        assert forall|i: int| 0 <= i < d.len() implies is_digit(#[trigger] d[i]) by {
            if i < d.len() - 1 {
                assert(d[i] == decimal(n / 10)[i]);
            }
        }
    }
}

fn digit(d: u64) -> (c: char)
    requires
        d < 10,
    ensures
        c == digit_char(d as nat),
{
    if d == 0 {
        '0'
    } else if d == 1 {
        '1'
    } else if d == 2 {
        '2'
    } else if d == 3 {
        '3'
    } else if d == 4 {
        '4'
    } else if d == 5 {
        '5'
    } else if d == 6 {
        '6'
    } else if d == 7 {
        '7'
    } else if d == 8 {
        '8'
    } else {
        '9'
    }
}

/// The decimal text of `n`.
pub fn decimal_string(n: u64) -> (text: String)
    ensures
        text@ == decimal(n as nat),
    decreases n,
{
    if n < 10 {
        let mut text = String::new();
        push_char(&mut text, digit(n));
        assert(text@ =~= seq![digit_char(n as nat)]);
        text
    } else {
        let mut text = decimal_string(n / 10);
        push_char(&mut text, digit(n % 10));
        text
    }
}

/// The decimal text of `n`, for integers as wide as a `u128`.
pub fn decimal_string_wide(n: u128) -> (text: String)
    ensures
        text@ == decimal(n as nat),
    decreases n,
{
    if n < 10 {
        let mut text = String::new();
        push_char(&mut text, digit(n as u64));
        assert(text@ =~= seq![digit_char(n as nat)]);
        text
    } else {
        let mut text = decimal_string_wide(n / 10);
        push_char(&mut text, digit((n % 10) as u64));
        text
    }
}

/// The transport form of an entity reference: its id as decimal text and its generation.
pub open spec fn entity_ref(w: Wire, bits: u64, generation: u32) -> bool {
    &&& w matches Wire::Object(fields)
    &&& keys_sorted(fields@)
    &&& fields@.len() == 2
    &&& fields@[0].0@ == "bits"@
    &&& fields@[0].1 matches Wire::String(s) && s@ == decimal(bits as nat)
    &&& fields@[1].0@ == "generation"@
    &&& fields@[1].1 == Wire::Integer(generation as i64)
}

/// An entity reference: `{"bits": <id as decimal text>, "generation": <generation>}`.
pub fn entity(bits: u64, generation: u32) -> (w: Wire)
    ensures
        entity_ref(w, bits, generation),
{
    let b = "bits";
    let g = "generation";
    proof {
        reveal_strlit("bits");
        reveal_strlit("generation");
    }
    let mut fields: Vec<(String, Wire)> = Vec::new();
    fields.push((b.to_owned(), Wire::String(decimal_string(bits))));
    fields.push((g.to_owned(), Wire::Integer(generation as i64)));
    assert(orders_at(b@, g@, 0));
    assert(keys_sorted(fields@));
    Wire::Object(fields)
}

} // verus!
