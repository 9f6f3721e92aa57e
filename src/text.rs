//! Character-level text helpers: substring occurrence over `Seq<char>`.
use vstd::prelude::*;

verus! {

/// `needle` occurs in `hay` starting at position `p`.
pub open spec fn occurs_at(hay: Seq<char>, needle: Seq<char>, p: int) -> bool {
    0 <= p && p + needle.len() <= hay.len() && hay.subrange(p, p + needle.len()) == needle
}

/// `needle` occurs somewhere in `hay`.
pub open spec fn contains_seq(hay: Seq<char>, needle: Seq<char>) -> bool {
    exists|p: int| occurs_at(hay, needle, p)
}

/// The characters of a text, in order.
pub fn chars_of(s: &str) -> (r: Vec<char>)
    ensures
        r@ == s@,
{
    let mut r: Vec<char> = Vec::new();
    for c in it: s.chars()
        invariant
            r@ == it.seq().subrange(0, it.index() as int),
            it.seq() == s@,
    {
        r.push(c);
        assert(r@ =~= it.seq().subrange(0, it.index() + 1));
    }
    assert(r@ =~= s@);
    r
}

/// Whether `needle` occurs at position `p` of `hay`.
fn occurs_here(hay: &Vec<char>, needle: &Vec<char>, p: usize) -> (r: bool)
    requires
        p + needle@.len() <= hay@.len(),
    ensures
        r == occurs_at(hay@, needle@, p as int),
{
    let n = hay.len();
    let mut k: usize = 0;
    while k < needle.len()
        invariant
            n == hay@.len(),
            k <= needle@.len(),
            p + needle@.len() <= hay@.len(),
            forall|j: int| 0 <= j < k ==> hay@[p + j] == needle@[j],
        decreases needle@.len() - k,
    {
        if hay[p + k] != needle[k] {
            assert(hay@.subrange(p as int, p + needle@.len())[k as int] != needle@[k as int]);
            return false;
        }
        k = k + 1;
    }
    assert(hay@.subrange(p as int, p + needle@.len()) =~= needle@);
    true
}

/// Whether `needle` occurs in `hay` at some position `start` or later.
pub fn occurs_from(hay: &Vec<char>, needle: &Vec<char>, start: usize) -> (r: bool)
    ensures
        r == exists|p: int| start <= p && occurs_at(hay@, needle@, p),
{
    if needle.len() > hay.len() {
        return false;
    }
    let n = hay.len();
    let last = n - needle.len();
    let mut p = start;
    while p <= last
        invariant
            n == hay@.len(),
            last + needle@.len() == hay@.len(),
            start <= p,
            forall|q: int| start <= q < p ==> !occurs_at(hay@, needle@, q),
        ensures
            forall|q: int| start <= q <= last ==> !occurs_at(hay@, needle@, q),
        decreases last + 1 - p,
    {
        if occurs_here(hay, needle, p) {
            return true;
        }
        if p == last {
            break;
        }
        p = p + 1;
    }
    assert forall|q: int| start <= q implies !occurs_at(hay@, needle@, q) by {
        if q > last {
            assert(q + needle@.len() > hay@.len());
        }
    }
    false
}

/// Whether `needle` occurs in `hay`.
pub fn contains_chars(hay: &Vec<char>, needle: &Vec<char>) -> (r: bool)
    ensures
        r == contains_seq(hay@, needle@),
{
    occurs_from(hay, needle, 0)
}

/// An occurrence in an extended text that ends inside the prefix is an occurrence in the prefix.
pub proof fn lemma_occurs_in_prefix(a: Seq<char>, b: Seq<char>, needle: Seq<char>, p: int)
    requires
        occurs_at(a + b, needle, p),
        p + needle.len() <= a.len(),
    ensures
        occurs_at(a, needle, p),
{
    assert((a + b).subrange(p, p + needle.len()) =~= a.subrange(p, p + needle.len()));
}

} // verus!
