use vstd::prelude::*;

use crate::model::Address;

verus! {

pub open spec fn is_digit(b: u8) -> bool {
    48 <= b <= 57
}

/// The number that a run of decimal digits writes.
pub open spec fn digits_value(s: Seq<u8>) -> int
    decreases s.len(),
{
    if s.len() == 0 {
        0
    } else {
        10 * digits_value(s.drop_last()) + (s.last() - 48)
    }
}

/// `s` is a non-empty run of decimal digits whose value fits in a `u64`.
pub open spec fn is_id(s: Seq<u8>) -> bool {
    &&& s.len() > 0
    &&& forall|i: int| 0 <= i < s.len() ==> is_digit(#[trigger] s[i])
    &&& digits_value(s) <= u64::MAX
}

pub open spec fn package_prefix() -> Seq<u8> {
    seq![112u8, 97, 99, 107, 97, 103, 101, 95]
}

pub open spec fn component_prefix() -> Seq<u8> {
    seq![99u8, 111, 109, 112, 111, 110, 101, 110, 116, 95]
}

pub open spec fn resource_def_prefix() -> Seq<u8> {
    seq![114u8, 101, 115, 111, 117, 114, 99, 101, 95, 100, 101, 102, 95]
}

/// The address that `s` writes: `package_<id>`, `component_<id>` or
/// `resource_def_<id>`, with `<id>` a decimal number that fits in a `u64`.
pub open spec fn address_of(s: Seq<u8>) -> Option<Address> {
    let p = package_prefix();
    let c = component_prefix();
    let d = resource_def_prefix();
    if s.len() >= p.len() && s.subrange(0, p.len() as int) == p && is_id(s.subrange(p.len() as int, s.len() as int)) {
        Some(Address::Package(digits_value(s.subrange(p.len() as int, s.len() as int)) as u64))
    } else if s.len() >= c.len() && s.subrange(0, c.len() as int) == c && is_id(s.subrange(c.len() as int, s.len() as int)) {
        Some(Address::Component(digits_value(s.subrange(c.len() as int, s.len() as int)) as u64))
    } else if s.len() >= d.len() && s.subrange(0, d.len() as int) == d && is_id(s.subrange(d.len() as int, s.len() as int)) {
        Some(Address::ResourceDef(digits_value(s.subrange(d.len() as int, s.len() as int)) as u64))
    } else {
        None
    }
}

fn starts_with(s: &[u8], p: &[u8]) -> (r: bool)
    ensures
        r == (s@.len() >= p@.len() && s@.subrange(0, p@.len() as int) == p@),
{
    if s.len() < p.len() {
        return false;
    }
    let mut i: usize = 0;
    while i < p.len()
        invariant
            i <= p@.len() <= s@.len(),
            forall|k: int| 0 <= k < i ==> s@[k] == p@[k],
        decreases p@.len() - i,
    {
        if s[i] != p[i] {
            assert(s@.subrange(0, p@.len() as int)[i as int] != p@[i as int]);
            return false;
        }
        i = i + 1;
    }
    assert(s@.subrange(0, p@.len() as int) =~= p@);
    true
}

/// Reads the decimal number in `s[start..]`.
fn parse_id(s: &[u8], start: usize) -> (r: Option<u64>)
    requires
        start <= s@.len(),
    ensures
        r == if is_id(s@.subrange(start as int, s@.len() as int)) {
            Some(digits_value(s@.subrange(start as int, s@.len() as int)) as u64)
        } else {
            None::<u64>
        },
{
    let ghost t = s@.subrange(start as int, s@.len() as int);
    if start == s.len() {
        return None;
    }
    let mut v: u64 = 0;
    let mut i: usize = start;
    while i < s.len()
        invariant
            start <= i <= s@.len(),
            t == s@.subrange(start as int, s@.len() as int),
            forall|k: int| start <= k < i ==> is_digit(s@[k]),
            v == digits_value(s@.subrange(start as int, i as int)),
        decreases s@.len() - i,
    {
        let b = s[i];
        let ghost pre = s@.subrange(start as int, i as int);
        let ghost post = s@.subrange(start as int, i + 1);
        assert(post.drop_last() == pre);
        if b < 48 || b > 57 {
            assert(!is_digit(t[i - start]));
            return None;
        }
        let d = (b - 48) as u64;
        if v > (u64::MAX - d) / 10 {
            proof {
                assert(digits_value(post) > u64::MAX) by (nonlinear_arith)
                    requires
                        digits_value(post) == 10 * v + d,
                        v > (u64::MAX - d) / 10,
                        d <= 9,
                ;
                assert(post == t.subrange(0, i + 1 - start));
                assert forall|k: int| 0 <= k < i + 1 - start implies is_digit(#[trigger] t[k]) by {
                    assert(t[k] == s@[start + k]);
                }
                lemma_prefix_bound(t, (i + 1 - start) as int);
            }
            return None;
        }
        assert(10 * v + d <= u64::MAX) by (nonlinear_arith)
            requires
                v <= (u64::MAX - d) / 10,
                d <= 9,
        ;
        v = v * 10 + d;
        i = i + 1;
    }
    proof {
        assert(t =~= s@.subrange(start as int, i as int));
        assert forall|k: int| 0 <= k < t.len() implies is_digit(#[trigger] t[k]) by {
            assert(t[k] == s@[start + k]);
        }
    }
    Some(v)
}

/// A prefix of a run of digits writes no more than the whole run.
proof fn lemma_prefix_bound(t: Seq<u8>, n: int)
    requires
        0 <= n <= t.len(),
        forall|k: int| 0 <= k < n ==> is_digit(#[trigger] t[k]),
    ensures
        is_id(t) ==> digits_value(t.subrange(0, n)) <= digits_value(t),
    decreases t.len() - n,
{
    if n < t.len() && is_id(t) {
        assert(is_digit(t[n]));
        lemma_prefix_bound(t, n + 1);
        assert(t.subrange(0, n + 1).drop_last() == t.subrange(0, n));
        assert forall|k: int| 0 <= k < n implies is_digit(#[trigger] t.subrange(0, n)[k]) by {
            assert(t.subrange(0, n)[k] == t[k]);
        }
        lemma_value_nonneg(t.subrange(0, n));
    } else if n == t.len() {
        assert(t.subrange(0, n) == t);
    }
}

proof fn lemma_value_nonneg(s: Seq<u8>)
    requires
        forall|k: int| 0 <= k < s.len() ==> is_digit(#[trigger] s[k]),
    ensures
        digits_value(s) >= 0,
    decreases s.len(),
{
    if s.len() > 0 {
        lemma_value_nonneg(s.drop_last());
    }
}

/// Reads an address from its text. `None` for anything that is not one of
/// the three written forms.
pub fn parse_address(s: &[u8]) -> (r: Option<Address>)
    ensures
        r == address_of(s@),
{
    let p: [u8; 8] = [112, 97, 99, 107, 97, 103, 101, 95];
    let c: [u8; 10] = [99, 111, 109, 112, 111, 110, 101, 110, 116, 95];
    let d: [u8; 13] = [114, 101, 115, 111, 117, 114, 99, 101, 95, 100, 101, 102, 95];
    assert(p@ == package_prefix());
    assert(c@ == component_prefix());
    assert(d@ == resource_def_prefix());
    if starts_with(s, p.as_slice()) {
        if let Some(id) = parse_id(s, 8) {
            return Some(Address::Package(id));
        }
    }
    if starts_with(s, c.as_slice()) {
        if let Some(id) = parse_id(s, 10) {
            return Some(Address::Component(id));
        }
    }
    if starts_with(s, d.as_slice()) {
        if let Some(id) = parse_id(s, 13) {
            return Some(Address::ResourceDef(id));
        }
    }
    None
}

} // verus!
