//! Character-level helpers on strings, stated over `Seq<char>`.

use vstd::prelude::*;
use vstd::string::*;

verus! {

/// `prefix` is a prefix of `s`.
pub open spec fn is_prefix_of(prefix: Seq<char>, s: Seq<char>) -> bool {
    prefix.len() <= s.len() && s.subrange(0, prefix.len() as int) == prefix
}

/// `suffix` is a suffix of `s`.
pub open spec fn is_suffix_of(suffix: Seq<char>, s: Seq<char>) -> bool {
    suffix.len() <= s.len() && s.subrange(s.len() - suffix.len(), s.len() as int) == suffix
}

/// The characters of a string, in order.
pub fn chars_of(s: &str) -> (v: Vec<char>)
    ensures
        v@ == s@,
{
    let n = s.unicode_len();
    let mut v: Vec<char> = Vec::new();
    let mut i: usize = 0;
    while i < n
        invariant
            n == s@.len(),
            i <= n,
            v@ == s@.subrange(0, i as int),
        decreases n - i,
    {
        let c = s.get_char(i);
        v.push(c);
        i = i + 1;
    }
    v
}

/// Whether `t[off .. off + (hi - lo)]` exists and equals `p[lo .. hi]`.
pub fn matches_at(t: &Vec<char>, off: usize, p: &Vec<char>, lo: usize, hi: usize) -> (r: bool)
    requires
        lo <= hi <= p@.len(),
    ensures
        r == (off + (hi - lo) <= t@.len() && t@.subrange(off as int, off + (hi - lo))
            == p@.subrange(lo as int, hi as int)),
{
    let n = hi - lo;
    if off > t.len() || t.len() - off < n {
        return false;
    }
    let mut i: usize = 0;
    while i < n
        invariant
            n == hi - lo,
            lo <= hi <= p@.len(),
            off + n <= t.len(),
            i <= n,
            t@.subrange(off as int, off + i) =~= p@.subrange(lo as int, lo + i),
        decreases n - i,
    {
        if t[off + i] != p[lo + i] {
            assert(t@.subrange(off as int, off + n)[i as int] != p@.subrange(
                lo as int,
                hi as int,
            )[i as int]);
            return false;
        }
        assert(t@.subrange(off as int, off + i + 1) =~= t@.subrange(off as int, off + i).push(
            t@[off + i],
        ));
        assert(p@.subrange(lo as int, lo + i + 1) =~= p@.subrange(lo as int, lo + i).push(
            p@[lo + i],
        ));
        i = i + 1;
    }
    true
}

/// Whether two character sequences are equal.
pub fn chars_equal(a: &Vec<char>, b: &Vec<char>) -> (r: bool)
    ensures
        r == (a@ == b@),
{
    if a.len() != b.len() {
        return false;
    }
    let r = matches_at(a, 0, b, 0, b.len());
    assert(a@.subrange(0, b@.len() as int) =~= a@);
    assert(b@.subrange(0, b@.len() as int) =~= b@);
    r
}

/// Whether the string `s` has exactly the characters `c`.
pub fn str_equals_chars(s: &str, c: &Vec<char>) -> (r: bool)
    ensures
        r == (s@ == c@),
{
    let v = chars_of(s);
    chars_equal(&v, c)
}

/// Whether two strings have the same characters.
pub fn str_equal(a: &str, b: &str) -> (r: bool)
    ensures
        r == (a@ == b@),
{
    let va = chars_of(a);
    let vb = chars_of(b);
    chars_equal(&va, &vb)
}

} // verus!
