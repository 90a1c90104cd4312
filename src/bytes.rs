use vstd::prelude::*;
use crate::leaf::Relation;

verus! {

/// Whether `key` occurs in `val` at position `i`.
pub open spec fn occurs_at(key: Seq<u8>, val: Seq<u8>, i: int) -> bool {
    0 <= i && i + key.len() <= val.len() && val.subrange(i, i + key.len()) == key
}

/// Whether `key` is a substring of `val`.
pub open spec fn contains_spec(key: Seq<u8>, val: Seq<u8>) -> bool {
    exists|i: int| occurs_at(key, val, i)
}

/// Octet-wise comparison: -1, 0 or 1 as `a` sorts before, equal to or after `b`.
pub open spec fn octet_cmp(a: Seq<u8>, b: Seq<u8>) -> int
    decreases a.len(),
{
    if a.len() == 0 {
        if b.len() == 0 { 0 } else { -1 }
    } else if b.len() == 0 {
        1
    } else if a[0] < b[0] {
        -1
    } else if a[0] > b[0] {
        1
    } else {
        octet_cmp(a.drop_first(), b.drop_first())
    }
}

/// Whether a comparison outcome (-1, 0, 1) satisfies a relation.
pub open spec fn rel_holds(c: int, rel: Relation) -> bool {
    match rel {
        Relation::Gt => c > 0,
        Relation::Ge => c >= 0,
        Relation::Lt => c < 0,
        Relation::Le => c <= 0,
        Relation::Eq => c == 0,
        Relation::Ne => c != 0,
    }
}

/// The sign of `a - b`, where `None` stands for a number above all others.
pub open spec fn num_cmp(a: int, b: Option<int>) -> int {
    match b {
        None => -1,
        Some(b) => if a < b { -1 } else if a > b { 1 } else { 0 },
    }
}

pub open spec fn is_digit(c: u8) -> bool {
    48 <= c <= 57
}

/// The value of a string of decimal digits.
pub open spec fn dec_value(s: Seq<u8>) -> int
    decreases s.len(),
{
    if s.len() == 0 {
        0
    } else {
        dec_value(s.drop_last()) * 10 + (s.last() - 48)
    }
}

/// The number a key stands for in a numeric comparison: the value of a
/// non-empty string of decimal digits; any other key counts as infinite.
pub open spec fn key_number(s: Seq<u8>) -> Option<int> {
    if s.len() > 0 && forall|i: int| 0 <= i < s.len() ==> is_digit(#[trigger] s[i]) {
        Some(dec_value(s))
    } else {
        None
    }
}

/// Above this bound a parsed key is only known to be large.
pub const NUMBER_LIMIT: u64 = 1_000_000_000_000_000_000;

proof fn lemma_dec_value_nonneg(s: Seq<u8>)
    requires
        forall|i: int| 0 <= i < s.len() ==> is_digit(#[trigger] s[i]),
    ensures
        dec_value(s) >= 0,
    decreases s.len(),
{
    if s.len() > 0 {
        let p = s.drop_last();
        assert forall|i: int| 0 <= i < p.len() implies is_digit(#[trigger] p[i]) by {
            assert(p[i] == s[i]);
        }
        lemma_dec_value_nonneg(p);
    }
}

/// Equality of two byte strings.
pub fn bytes_eq(a: &Vec<u8>, b: &Vec<u8>) -> (r: bool)
    ensures
        r == (a@ == b@),
{
    if a.len() != b.len() {
        return false;
    }
    let mut i: usize = 0;
    while i < a.len()
        invariant
            a@.len() == b@.len(),
            i <= a@.len(),
            forall|j: int| 0 <= j < i ==> a@[j] == b@[j],
        decreases a@.len() - i,
    {
        if a[i] != b[i] {
            return false;
        }
        i = i + 1;
    }
    assert(a@ =~= b@);
    true
}

/// Whether `key` occurs in `val` at position `i`.
fn occurs_at_exec(key: &Vec<u8>, val: &Vec<u8>, i: usize) -> (r: bool)
    ensures
        r == occurs_at(key@, val@, i as int),
{
    if i > val.len() || key.len() > val.len() - i {
        return false;
    }
    let mut j: usize = 0;
    while j < key.len()
        invariant
            val@.len() <= usize::MAX,
            i <= val@.len(),
            i + key@.len() <= val@.len(),
            j <= key@.len(),
            forall|t: int| 0 <= t < j ==> val@[i + t] == key@[t],
        decreases key@.len() - j,
    {
        if val[i + j] != key[j] {
            assert(val@.subrange(i as int, i + key@.len())[j as int] != key@[j as int]);
            return false;
        }
        j = j + 1;
    }
    assert(val@.subrange(i as int, i + key@.len()) =~= key@);
    true
}

/// Substring containment: whether `key` occurs anywhere in `val`.
pub fn contains_bytes(key: &Vec<u8>, val: &Vec<u8>) -> (r: bool)
    ensures
        r == contains_spec(key@, val@),
{
    let mut i: usize = 0;
    while i < val.len()
        invariant
            i <= val@.len(),
            forall|t: int| 0 <= t < i ==> !occurs_at(key@, val@, t),
        decreases val@.len() - i,
    {
        if occurs_at_exec(key, val, i) {
            return true;
        }
        i = i + 1;
    }
    if occurs_at_exec(key, val, i) {
        return true;
    }
    assert forall|t: int| !occurs_at(key@, val@, t) by {
        if 0 <= t && t < i {
        } else if t == i {
        }
    }
    false
}

proof fn lemma_octet_cmp_skip(a: Seq<u8>, b: Seq<u8>, i: int)
    requires
        0 <= i < a.len(),
        i < b.len(),
        a[i] == b[i],
    ensures
        octet_cmp(a.skip(i), b.skip(i)) == octet_cmp(a.skip(i + 1), b.skip(i + 1)),
{
    assert(a.skip(i).drop_first() =~= a.skip(i + 1));
    assert(b.skip(i).drop_first() =~= b.skip(i + 1));
}

/// Octet-wise comparison of two byte strings.
pub fn octet_compare(a: &Vec<u8>, b: &Vec<u8>) -> (r: i8)
    ensures
        r as int == octet_cmp(a@, b@),
{
    let mut i: usize = 0;
    assert(a@.skip(0) =~= a@ && b@.skip(0) =~= b@);
    while i < a.len() && i < b.len()
        invariant
            i <= a@.len(),
            i <= b@.len(),
            octet_cmp(a@, b@) == octet_cmp(a@.skip(i as int), b@.skip(i as int)),
        decreases a@.len() - i,
    {
        if a[i] < b[i] {
            return -1;
        } else if a[i] > b[i] {
            return 1;
        }
        proof {
            lemma_octet_cmp_skip(a@, b@, i as int);
        }
        i = i + 1;
    }
    if i < a.len() {
        1
    } else if i < b.len() {
        -1
    } else {
        0
    }
}

/// Whether a comparison outcome satisfies a relation.
pub fn relation_holds(c: i8, rel: Relation) -> (r: bool)
    ensures
        r == rel_holds(c as int, rel),
{
    match rel {
        Relation::Gt => c > 0,
        Relation::Ge => c >= 0,
        Relation::Lt => c < 0,
        Relation::Le => c <= 0,
        Relation::Eq => c == 0,
        Relation::Ne => c != 0,
    }
}

/// Compares a count with a key read as a decimal number (`None`: infinite).
pub fn count_compare(n: usize, key: &Vec<u8>) -> (r: i8)
    requires
        n < NUMBER_LIMIT,
    ensures
        r as int == num_cmp(n as int, key_number(key@)),
{
    if key.len() == 0 {
        return -1;
    }
    let mut v: u64 = 0;
    let mut big: bool = false;
    let mut i: usize = 0;
    while i < key.len()
        invariant
            i <= key@.len(),
            forall|t: int| 0 <= t < i ==> is_digit(#[trigger] key@[t]),
            !big ==> v as int == dec_value(key@.subrange(0, i as int)),
            !big ==> v < NUMBER_LIMIT,
            big ==> dec_value(key@.subrange(0, i as int)) >= NUMBER_LIMIT,
        decreases key@.len() - i,
    {
        let c = key[i];
        if c < 48 || c > 57 {
            assert(!is_digit(key@[i as int]));
            return -1;
        }
        proof {
            let p = key@.subrange(0, i as int);
            let q = key@.subrange(0, i + 1);
            assert(q.drop_last() =~= p);
            assert forall|t: int| 0 <= t < p.len() implies is_digit(#[trigger] p[t]) by {
                assert(p[t] == key@[t]);
            }
            lemma_dec_value_nonneg(p);
            assert(dec_value(q) == dec_value(p) * 10 + (c - 48));
        }
        if !big {
            if v >= NUMBER_LIMIT / 10 {
                assert(v * 10 >= NUMBER_LIMIT) by (nonlinear_arith)
                    requires v >= NUMBER_LIMIT / 10;
                big = true;
            } else {
                assert(v * 10 + 9 < NUMBER_LIMIT) by (nonlinear_arith)
                    requires v < NUMBER_LIMIT / 10;
                v = v * 10 + (c - 48) as u64;
            }
        }
        i = i + 1;
    }
    assert(key@.subrange(0, key@.len() as int) =~= key@);
    if big || (n as u64) < v {
        -1
    } else if (n as u64) > v {
        1
    } else {
        0
    }
}

} // verus!
