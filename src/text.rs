//! Character-level helpers shared by the decoder and the encoders.
use vstd::prelude::*;

verus! {

/// Relies on `String::push`: appends one character at the end.
#[verifier::external_body]
pub(crate) fn push_char(s: &mut String, c: char)
    ensures
        final(s)@ == old(s)@.push(c),
{
    s.push(c);
}

/// The characters of `s`, in order.
pub fn chars_of(s: &str) -> (r: Vec<char>)
    ensures
        r@ == s@,
{
    let mut r: Vec<char> = Vec::new();
    for c in it: s.chars()
        invariant
            r@ == it.history(),
    {
        r.push(c);
    }
    r
}

/// The characters `t[a..b]` as a string.
pub fn string_of(t: &Vec<char>, a: usize, b: usize) -> (r: String)
    requires
        a <= b <= t@.len(),
    ensures
        r@ == t@.subrange(a as int, b as int),
{
    let mut r = String::new();
    let mut i = a;
    while i < b
        invariant
            a <= i <= b <= t@.len(),
            r@ == t@.subrange(a as int, i as int),
        decreases b - i,
    {
        push_char(&mut r, t[i]);
        assert(r@ =~= t@.subrange(a as int, i + 1));
        i += 1;
    }
    r
}

/// The characters `t[a..b]` as a vector.
pub fn copy_range(t: &Vec<char>, a: usize, b: usize) -> (r: Vec<char>)
    requires
        a <= b <= t@.len(),
    ensures
        r@ == t@.subrange(a as int, b as int),
{
    let mut r: Vec<char> = Vec::new();
    let mut i = a;
    while i < b
        invariant
            a <= i <= b <= t@.len(),
            r@ == t@.subrange(a as int, i as int),
        decreases b - i,
    {
        r.push(t[i]);
        assert(r@ =~= t@.subrange(a as int, i + 1));
        i += 1;
    }
    r
}

/// Whether `t[a..b]` is exactly `w`.
pub fn range_eq(t: &Vec<char>, a: usize, b: usize, w: &Vec<char>) -> (r: bool)
    requires
        a <= b <= t@.len(),
    ensures
        r == (t@.subrange(a as int, b as int) == w@),
{
    if b - a != w.len() {
        return false;
    }
    let mut i: usize = 0;
    while i < w.len()
        invariant
            a <= b <= t@.len(),
            b - a == w@.len(),
            i <= w@.len(),
            forall|j: int| 0 <= j < i ==> t@[a + j] == w@[j],
        decreases w@.len() - i,
    {
        if t[a + i] != w[i] {
            assert(t@.subrange(a as int, b as int)[i as int] != w@[i as int]);
            return false;
        }
        i += 1;
    }
    assert(t@.subrange(a as int, b as int) =~= w@);
    true
}

/// Whether `s` is exactly `n` followed by `suffix`.
pub fn is_concat(s: &Vec<char>, n: &Vec<char>, suffix: &Vec<char>) -> (r: bool)
    ensures
        r == (s@ == n@ + suffix@),
{
    if s.len() < n.len() || s.len() - n.len() != suffix.len() {
        return false;
    }
    let a = range_eq(s, 0, n.len(), n);
    let b = range_eq(s, n.len(), s.len(), suffix);
    if a && b {
        assert(s@ =~= n@ + suffix@);
        true
    } else {
        assert(!a ==> (n@ + suffix@).subrange(0, n@.len() as int) =~= n@);
        assert(!b ==> (n@ + suffix@).subrange(n@.len() as int, s@.len() as int) =~= suffix@);
        false
    }
}

} // verus!

verus! {

/// Whether two character vectors are equal.
pub fn same_chars(a: &Vec<char>, b: &Vec<char>) -> (r: bool)
    ensures
        r == (a@ == b@),
{
    let r = range_eq(a, 0, a.len(), b);
    assert(a@.subrange(0, a@.len() as int) =~= a@);
    r
}

/// The characters of `t` as a string.
pub fn string_of_all(t: &Vec<char>) -> (r: String)
    ensures
        r@ == t@,
{
    let r = string_of(t, 0, t.len());
    assert(t@.subrange(0, t@.len() as int) =~= t@);
    r
}

} // verus!
