//! Dotted-quad IPv4 addresses.
use crate::text::chars_of;
use vstd::prelude::*;

verus! {

/// The parts of a text between dots (a text without dots is one part).
pub open spec fn split_dots(s: Seq<char>) -> Seq<Seq<char>>
    decreases s.len(),
{
    if s.len() == 0 {
        seq![Seq::<char>::empty()]
    } else if s.last() == '.' {
        split_dots(s.drop_last()).push(Seq::<char>::empty())
    } else {
        let p = split_dots(s.drop_last());
        p.update(p.len() - 1, p.last().push(s.last()))
    }
}

/// True of an ASCII decimal digit.
pub open spec fn is_digit(c: char) -> bool {
    '0' <= c && c <= '9'
}

/// The value of a text of decimal digits.
pub open spec fn decimal_value(s: Seq<char>) -> int
    decreases s.len(),
{
    if s.len() == 0 {
        0
    } else {
        decimal_value(s.drop_last()) * 10 + (s.last() as int - '0' as int)
    }
}

/// The byte that a part of an address names: one or more decimal digits whose value fits in a byte.
pub open spec fn octet_of(s: Seq<char>) -> Option<u8> {
    if s.len() > 0 && (forall|i: int| 0 <= i < s.len() ==> is_digit(#[trigger] s[i]))
        && decimal_value(s) <= 255 {
        Some(decimal_value(s) as u8)
    } else {
        None
    }
}

/// The four bytes of a dotted-quad address, or `None` when the text is not one.
pub open spec fn ipv4_of(host: Seq<char>) -> Option<Seq<u8>> {
    let parts = split_dots(host);
    if parts.len() == 4 && (forall|i: int| 0 <= i < 4 ==> (#[trigger] octet_of(parts[i])) is Some) {
        Some(Seq::new(4, |i: int| octet_of(parts[i])->0))
    } else {
        None
    }
}

/// A text of digits has a non-negative value, no smaller than that of the text without its last digit.
proof fn lemma_decimal_monotone(s: Seq<char>)
    requires
        forall|i: int| 0 <= i < s.len() ==> is_digit(#[trigger] s[i]),
    ensures
        decimal_value(s) >= 0,
        s.len() > 0 ==> decimal_value(s) >= decimal_value(s.drop_last()),
    decreases s.len(),
{
    if s.len() > 0 {
        lemma_decimal_monotone(s.drop_last());
    }
}

/// A text of digits has a value no smaller than that of any of its prefixes.
proof fn lemma_decimal_prefix(s: Seq<char>, k: int)
    requires
        0 <= k <= s.len(),
        forall|i: int| 0 <= i < s.len() ==> is_digit(#[trigger] s[i]),
    ensures
        decimal_value(s) >= decimal_value(s.subrange(0, k)),
    decreases s.len(),
{
    if k == s.len() {
        assert(s.subrange(0, k) =~= s);
    } else {
        lemma_decimal_monotone(s);
        assert(s.drop_last().subrange(0, k) =~= s.subrange(0, k));
        lemma_decimal_prefix(s.drop_last(), k);
    }
}

/// The parts of a text between dots.
fn split_on_dots(host: &Vec<char>) -> (r: Vec<Vec<char>>)
    ensures
        r@.len() == split_dots(host@).len(),
        forall|i: int| 0 <= i < r@.len() ==> #[trigger] r@[i]@ == split_dots(host@)[i],
{
    let mut parts: Vec<Vec<char>> = Vec::new();
    parts.push(Vec::new());
    let mut k: usize = 0;
    proof {
        assert(host@.subrange(0, 0) =~= Seq::<char>::empty());
    }
    while k < host.len()
        invariant
            k <= host@.len(),
            parts@.len() == split_dots(host@.subrange(0, k as int)).len(),
            parts@.len() >= 1,
            forall|i: int| 0 <= i < parts@.len() ==> #[trigger] parts@[i]@ == split_dots(host@.subrange(0, k as int))[i],
        decreases host@.len() - k,
    {
        let c = host[k];
        let ghost pre = host@.subrange(0, k as int);
        let ghost next = host@.subrange(0, k + 1);
        assert(next.drop_last() =~= pre);
        assert(next.last() == c);
        if c == '.' {
            parts.push(Vec::new());
        } else {
            let last = parts.len() - 1;
            let mut part = parts.remove(last);
            part.push(c);
            parts.push(part);
            proof {
                let p = split_dots(pre);
                assert(parts@[last as int]@ =~= p.last().push(c));
            }
        }
        k = k + 1;
        proof {
            let now = split_dots(host@.subrange(0, k as int));
            assert(forall|i: int| 0 <= i < parts@.len() ==> #[trigger] parts@[i]@ == now[i]);
        }
    }
    assert(host@.subrange(0, host@.len() as int) =~= host@);
    parts
}

/// The byte that one part of an address names, if it names one.
fn parse_octet(part: &Vec<char>) -> (r: Option<u8>)
    ensures
        r == octet_of(part@),
{
    if part.len() == 0 {
        return None;
    }
    let mut v: u32 = 0;
    let mut k: usize = 0;
    while k < part.len()
        invariant
            k <= part@.len(),
            v <= 255,
            forall|i: int| 0 <= i < k ==> is_digit(#[trigger] part@[i]),
            v as int == decimal_value(part@.subrange(0, k as int)),
        decreases part@.len() - k,
    {
        let c = part[k];
        let ghost pre = part@.subrange(0, k as int);
        let ghost next = part@.subrange(0, k + 1);
        assert(next.drop_last() =~= pre);
        if !('0' <= c && c <= '9') {
            proof {
                assert(!is_digit(part@[k as int]));
            }
            return None;
        }
        let nv = v * 10 + (c as u32 - '0' as u32);
        if nv > 255 {
            proof {
                assert(decimal_value(next) > 255);
                if forall|i: int| 0 <= i < part@.len() ==> is_digit(#[trigger] part@[i]) {
                    lemma_decimal_prefix(part@, k + 1);
                }
            }
            return None;
        }
        v = nv;
        k = k + 1;
    }
    assert(part@.subrange(0, part@.len() as int) =~= part@);
    Some(v as u8)
}

/// The four bytes of a dotted-quad address, or `None` when `host` is not one.
pub fn parse_ipv4(host: &str) -> (r: Option<[u8; 4]>)
    ensures
        match r {
            Some(o) => ipv4_of(host@) == Some(o@),
            None => ipv4_of(host@) is None,
        },
{
    let chars = chars_of(host);
    let parts = split_on_dots(&chars);
    if parts.len() != 4 {
        return None;
    }
    let a = parse_octet(&parts[0]);
    let b = parse_octet(&parts[1]);
    let c = parse_octet(&parts[2]);
    let d = parse_octet(&parts[3]);
    match (a, b, c, d) {
        (Some(a), Some(b), Some(c), Some(d)) => {
            let o = [a, b, c, d];
            proof {
                let p = split_dots(host@);
                assert(forall|i: int| 0 <= i < 4 ==> (#[trigger] octet_of(p[i])) is Some) by {
                    assert(parts@[0]@ == p[0]);
                    assert(parts@[1]@ == p[1]);
                    assert(parts@[2]@ == p[2]);
                    assert(parts@[3]@ == p[3]);
                }
                assert(o@ =~= Seq::new(4, |i: int| octet_of(p[i])->0));
            }
            Some(o)
        },
        _ => {
            proof {
                let p = split_dots(host@);
                assert(parts@[0]@ == p[0]);
                assert(parts@[1]@ == p[1]);
                assert(parts@[2]@ == p[2]);
                assert(parts@[3]@ == p[3]);
            }
            None
        },
    }
}

} // verus!
