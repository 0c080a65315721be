use vstd::prelude::*;
use crate::error::ConvertError;
use crate::model::INDEX_SPACE;
use crate::modelfactory::IndexSet;

verus! {

/// The byte `/`, which separates the three references of a face corner.
pub const SLASH: u8 = 0x2f;

/// An ASCII decimal digit.
pub open spec fn is_digit(c: u8) -> bool {
    0x30 <= c <= 0x39
}

/// A non-empty run of decimal digits.
pub open spec fn is_number(s: Seq<u8>) -> bool {
    s.len() > 0 && forall|i: int| 0 <= i < s.len() ==> is_digit(#[trigger] s[i])
}

/// The value of a run of decimal digits, most significant first.
pub open spec fn decimal_value(s: Seq<u8>) -> nat
    decreases s.len(),
{
    if s.len() == 0 {
        0
    } else {
        decimal_value(s.drop_last()) * 10 + (s.last() - 0x30) as nat
    }
}

/// `g` reads `position/tex_coord/normal`, with its two slashes at `a` and `b`
/// and a decimal number in each of the three places.
pub open spec fn splits_at(g: Seq<u8>, a: int, b: int) -> bool {
    &&& 0 <= a < b < g.len()
    &&& g[a] == SLASH
    &&& g[b] == SLASH
    &&& is_number(g.subrange(0, a))
    &&& is_number(g.subrange(a + 1, b))
    &&& is_number(g.subrange(b + 1, g.len() as int))
}

/// The three 1-based references of a corner `g` split at `a` and `b`:
/// position, texture coordinate, normal.
pub open spec fn references(g: Seq<u8>, a: int, b: int) -> (nat, nat, nat) {
    (
        decimal_value(g.subrange(0, a)),
        decimal_value(g.subrange(a + 1, b)),
        decimal_value(g.subrange(b + 1, g.len() as int)),
    )
}

/// The value of the digits `g[start..end]`, or 65537 for any value above
/// 65536; `None` where they are not a decimal number.
fn parse_reference(g: &[u8], start: usize, end: usize) -> (r: Option<u32>)
    requires
        start <= end <= g@.len(),
    ensures
        match r {
            Some(v) => is_number(g@.subrange(start as int, end as int)) && (if decimal_value(
                g@.subrange(start as int, end as int),
            ) <= INDEX_SPACE {
                v == decimal_value(g@.subrange(start as int, end as int))
            } else {
                v == INDEX_SPACE + 1
            }),
            None => !is_number(g@.subrange(start as int, end as int)),
        },
{
    if start == end {
        return None;
    }
    let mut v: u32 = 0;
    let mut k: usize = start;
    while k < end
        invariant
            start <= k <= end <= g@.len(),
            forall|i: int| start <= i < k ==> is_digit(#[trigger] g@[i]),
            decimal_value(g@.subrange(start as int, k as int)) <= INDEX_SPACE ==> v == decimal_value(
                g@.subrange(start as int, k as int),
            ),
            decimal_value(g@.subrange(start as int, k as int)) > INDEX_SPACE ==> v == INDEX_SPACE + 1,
        decreases end - k,
    {
        let c = g[k];
        if !(0x30 <= c && c <= 0x39) {
            assert(g@.subrange(start as int, end as int)[k - start] == c);
            return None;
        }
        let ghost prev = g@.subrange(start as int, k as int);
        let ghost next = g@.subrange(start as int, k as int + 1);
        assert(next.drop_last() == prev);
        assert(next.last() == c);
        if v as u64 > INDEX_SPACE {
            v = (INDEX_SPACE + 1) as u32;
        } else {
            let w = v * 10 + (c - 0x30) as u32;
            if w as u64 > INDEX_SPACE {
                v = (INDEX_SPACE + 1) as u32;
            } else {
                v = w;
            }
        }
        k += 1;
    }
    assert forall|i: int| 0 <= i < g@.subrange(start as int, end as int).len() implies is_digit(
        #[trigger] g@.subrange(start as int, end as int)[i],
    ) by {
        assert(g@.subrange(start as int, end as int)[i] == g@[start + i]);
    }
    Some(v)
}

/// Reads one face corner, `position/tex_coord/normal` with 1-based decimal
/// references, into 0-based indices. `MalformedInput` where it does not read
/// so or a reference is 0; `CapacityExceeded` where a reference is above
/// 65536.
pub fn parse_index_set(group: &[u8]) -> (r: Result<IndexSet, ConvertError>)
    ensures
        match r {
            Ok(s) => exists|a: int, b: int| {
                &&& #[trigger] splits_at(group@, a, b)
                &&& 1 <= references(group@, a, b).0 <= INDEX_SPACE
                &&& 1 <= references(group@, a, b).1 <= INDEX_SPACE
                &&& 1 <= references(group@, a, b).2 <= INDEX_SPACE
                &&& s.position_index == references(group@, a, b).0 - 1
                &&& s.tex_coord_index == references(group@, a, b).1 - 1
                &&& s.normal_index == references(group@, a, b).2 - 1
            },
            Err(ConvertError::MalformedInput) => (forall|a: int, b: int| !#[trigger] splits_at(group@, a, b))
                || exists|a: int, b: int| {
                &&& #[trigger] splits_at(group@, a, b)
                &&& (references(group@, a, b).0 == 0 || references(group@, a, b).1 == 0 || references(group@, a, b).2 == 0)
            },
            Err(ConvertError::CapacityExceeded) => exists|a: int, b: int| {
                &&& #[trigger] splits_at(group@, a, b)
                &&& references(group@, a, b).0 >= 1
                &&& references(group@, a, b).1 >= 1
                &&& references(group@, a, b).2 >= 1
                &&& (references(group@, a, b).0 > INDEX_SPACE || references(group@, a, b).1 > INDEX_SPACE
                    || references(group@, a, b).2 > INDEX_SPACE)
            },
            Err(ConvertError::VersionMismatch) => false,
        },
{
    let g = group;
    let n = g.len();
    let mut first: usize = 0;
    while first < n && g[first] != SLASH
        invariant
            first <= n == g@.len(),
            forall|i: int| 0 <= i < first ==> g@[i] != SLASH,
        decreases n - first,
    {
        first += 1;
    }
    if first == n {
        assert forall|a: int, b: int| !#[trigger] splits_at(g@, a, b) by {
            if splits_at(g@, a, b) {
                assert(g@[a] == SLASH);
            }
        }
        return Err(ConvertError::MalformedInput);
    }
    let mut last: usize = n - 1;
    while g[last] != SLASH
        invariant
            first <= last < n == g@.len(),
            g@[first as int] == SLASH,
            forall|i: int| last < i < n ==> g@[i] != SLASH,
        decreases last,
    {
        last -= 1;
    }
    let ghost gs = g@;
    proof {
        // Any reading of the corner has its slashes at `first` and `last`.
        assert forall|a: int, b: int| #[trigger] splits_at(gs, a, b) implies a == first && b == last by {
            if a > first {
                assert(gs.subrange(0, a)[first as int] == gs[first as int]);
            }
            if b < last {
                assert(gs.subrange(b + 1, gs.len() as int)[last - b - 1] == gs[last as int]);
            }
        }
    }
    if first == last {
        assert forall|a: int, b: int| !#[trigger] splits_at(gs, a, b) by {}
        return Err(ConvertError::MalformedInput);
    }
    let p = parse_reference(g, 0, first);
    let t = parse_reference(g, first + 1, last);
    let m = parse_reference(g, last + 1, n);
    if p.is_none() || t.is_none() || m.is_none() {
        assert forall|a: int, b: int| !#[trigger] splits_at(gs, a, b) by {}
        return Err(ConvertError::MalformedInput);
    }
    let p = p.unwrap();
    let t = t.unwrap();
    let m = m.unwrap();
    assert(splits_at(gs, first as int, last as int));
    if p == 0 || t == 0 || m == 0 {
        return Err(ConvertError::MalformedInput);
    }
    if p as u64 > INDEX_SPACE || t as u64 > INDEX_SPACE || m as u64 > INDEX_SPACE {
        return Err(ConvertError::CapacityExceeded);
    }
    Ok(IndexSet { position_index: (p - 1) as u16, tex_coord_index: (t - 1) as u16, normal_index: (m - 1) as u16 })
}

} // verus!
