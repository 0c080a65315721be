use vstd::prelude::*;

verus! {

/// The sign bit of a single-precision bit pattern.
pub const SIGN_BIT: u32 = 0x8000_0000;

/// Where a single-precision value, given by its bit pattern, lies on the real line
/// relative to the others: the magnitude bits with the sign applied. For every
/// pattern that is not a NaN, float `a < b` holds exactly when
/// `order_key(a) < order_key(b)`; both zeros map to 0.
pub open spec fn order_key(bits: u32) -> int {
    if bits >= SIGN_BIT {
        -((bits - SIGN_BIT) as int)
    } else {
        bits as int
    }
}

/// Float `<` on two bit patterns.
pub fn less_than(a: u32, b: u32) -> (r: bool)
    ensures
        r == (order_key(a) < order_key(b)),
{
    if a >= SIGN_BIT && b >= SIGN_BIT {
        b - SIGN_BIT < a - SIGN_BIT
    } else if a >= SIGN_BIT {
        !(a == SIGN_BIT && b == 0)
    } else if b >= SIGN_BIT {
        false
    } else {
        a < b
    }
}

/// The value left by scanning `s` from the front, starting from `seed`, and
/// replacing the current value by each element strictly below it.
pub open spec fn running_min(seed: u32, s: Seq<u32>) -> u32
    decreases s.len(),
{
    if s.len() == 0 {
        seed
    } else {
        let m = running_min(seed, s.drop_last());
        if order_key(s.last()) < order_key(m) {
            s.last()
        } else {
            m
        }
    }
}

/// The value left by scanning `s` from the front, starting from `seed`, and
/// replacing the current value by each element strictly above it.
pub open spec fn running_max(seed: u32, s: Seq<u32>) -> u32
    decreases s.len(),
{
    if s.len() == 0 {
        seed
    } else {
        let m = running_max(seed, s.drop_last());
        if order_key(m) < order_key(s.last()) {
            s.last()
        } else {
            m
        }
    }
}

/// The running minimum is no greater than the seed and than any element, and is
/// the seed or one of the elements.
pub proof fn lemma_running_min_bounds(seed: u32, s: Seq<u32>)
    ensures
        order_key(running_min(seed, s)) <= order_key(seed),
        forall|i: int| 0 <= i < s.len() ==> order_key(running_min(seed, s)) <= order_key(#[trigger] s[i]),
        running_min(seed, s) == seed || exists|i: int| 0 <= i < s.len() && running_min(seed, s) == s[i],
    decreases s.len(),
{
    if s.len() > 0 {
        lemma_running_min_bounds(seed, s.drop_last());
        let m = running_min(seed, s.drop_last());
        if m != seed {
            let i = choose|i: int| 0 <= i < s.drop_last().len() && m == s.drop_last()[i];
            assert(s[i] == m);
        }
        assert forall|i: int| 0 <= i < s.len() implies order_key(running_min(seed, s)) <= order_key(#[trigger] s[i]) by {
            if i < s.len() - 1 {
                assert(s[i] == s.drop_last()[i]);
            }
        }
        if running_min(seed, s) != seed && running_min(seed, s) == s.last() {
            assert(s[s.len() - 1] == s.last());
        }
    }
}

/// The running maximum is no less than the seed and than any element, and is
/// the seed or one of the elements.
pub proof fn lemma_running_max_bounds(seed: u32, s: Seq<u32>)
    ensures
        order_key(seed) <= order_key(running_max(seed, s)),
        forall|i: int| 0 <= i < s.len() ==> order_key(#[trigger] s[i]) <= order_key(running_max(seed, s)),
        running_max(seed, s) == seed || exists|i: int| 0 <= i < s.len() && running_max(seed, s) == s[i],
    decreases s.len(),
{
    if s.len() > 0 {
        lemma_running_max_bounds(seed, s.drop_last());
        let m = running_max(seed, s.drop_last());
        if m != seed {
            let i = choose|i: int| 0 <= i < s.drop_last().len() && m == s.drop_last()[i];
            assert(s[i] == m);
        }
        assert forall|i: int| 0 <= i < s.len() implies order_key(#[trigger] s[i]) <= order_key(running_max(seed, s)) by {
            if i < s.len() - 1 {
                assert(s[i] == s.drop_last()[i]);
            }
        }
        if running_max(seed, s) != seed && running_max(seed, s) == s.last() {
            assert(s[s.len() - 1] == s.last());
        }
    }
}

/// The smallest of `values` by float order; of equal ones the first.
pub fn min_value(seed: u32, values: &[u32]) -> (r: u32)
    ensures
        r == running_min(seed, values@),
{
    let mut m = seed;
    let mut i: usize = 0;
    while i < values.len()
        invariant
            i <= values@.len(),
            m == running_min(seed, values@.take(i as int)),
        decreases values@.len() - i,
    {
        assert(values@.take(i as int + 1).drop_last() == values@.take(i as int));
        if less_than(values[i], m) {
            m = values[i];
        }
        i += 1;
    }
    assert(values@.take(i as int) == values@);
    m
}

/// The largest of `values` by float order; of equal ones the first.
pub fn max_value(seed: u32, values: &[u32]) -> (r: u32)
    ensures
        r == running_max(seed, values@),
{
    let mut m = seed;
    let mut i: usize = 0;
    while i < values.len()
        invariant
            i <= values@.len(),
            m == running_max(seed, values@.take(i as int)),
        decreases values@.len() - i,
    {
        assert(values@.take(i as int + 1).drop_last() == values@.take(i as int));
        if less_than(m, values[i]) {
            m = values[i];
        }
        i += 1;
    }
    assert(values@.take(i as int) == values@);
    m
}

/// The index of the first element of `values` that is greatest by float order.
pub fn index_of_max(values: &[u32]) -> (r: usize)
    requires
        values@.len() > 0,
    ensures
        r < values@.len(),
        forall|j: int| 0 <= j < values@.len() ==> order_key(#[trigger] values@[j]) <= order_key(values@[r as int]),
        forall|j: int| 0 <= j < r ==> order_key(#[trigger] values@[j]) < order_key(values@[r as int]),
{
    let mut best: usize = 0;
    let mut i: usize = 1;
    while i < values.len()
        invariant
            1 <= i <= values@.len(),
            best < i,
            forall|j: int| 0 <= j < i ==> order_key(#[trigger] values@[j]) <= order_key(values@[best as int]),
            forall|j: int| 0 <= j < best ==> order_key(#[trigger] values@[j]) < order_key(values@[best as int]),
        decreases values@.len() - i,
    {
        if less_than(values[best], values[i]) {
            best = i;
        }
        i += 1;
    }
    best
}

} // verus!
