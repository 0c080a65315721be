use vstd::prelude::*;

verus! {

/// The four bytes of `v`, least significant first.
pub open spec fn u32_bytes(v: u32) -> Seq<u8> {
    seq![(v & 0xff) as u8, ((v >> 8) & 0xff) as u8, ((v >> 16) & 0xff) as u8, ((v >> 24) & 0xff) as u8]
}

/// The two bytes of `v`, least significant first.
pub open spec fn u16_bytes(v: u16) -> Seq<u8> {
    seq![(v & 0xff) as u8, ((v >> 8) & 0xff) as u8]
}

/// The `u32` stored least significant byte first at `b[i..i + 4]`.
#[verifier::opaque]
pub open spec fn u32_at(b: Seq<u8>, i: int) -> u32 {
    (b[i] as u32) | ((b[i + 1] as u32) << 8) | ((b[i + 2] as u32) << 16) | ((b[i + 3] as u32) << 24)
}

/// The `u16` stored least significant byte first at `b[i..i + 2]`.
#[verifier::opaque]
pub open spec fn u16_at(b: Seq<u8>, i: int) -> u16 {
    ((b[i] as u16) | ((b[i + 1] as u16) << 8)) as u16
}

/// The byte strings of the elements of `s`, one after another.
pub open spec fn concat_map<A>(s: Seq<A>, f: spec_fn(A) -> Seq<u8>) -> Seq<u8>
    decreases s.len(),
{
    if s.len() == 0 {
        Seq::empty()
    } else {
        concat_map(s.drop_last(), f) + f(s.last())
    }
}

/// Reading a `u32` back from its bytes gives it again.
pub proof fn lemma_u32_round_trip(v: u32)
    ensures
        u32_at(u32_bytes(v), 0) == v,
{
    reveal(u32_at);
    let b = u32_bytes(v);
    let b0 = (v & 0xff) as u8;
    let b1 = ((v >> 8) & 0xff) as u8;
    let b2 = ((v >> 16) & 0xff) as u8;
    let b3 = ((v >> 24) & 0xff) as u8;
    assert(b[0] == b0 && b[1] == b1 && b[2] == b2 && b[3] == b3);
    assert((b0 as u32) | ((b1 as u32) << 8) | ((b2 as u32) << 16) | ((b3 as u32) << 24) == v) by (bit_vector)
        requires
            b0 == (v & 0xff) as u8,
            b1 == ((v >> 8) & 0xff) as u8,
            b2 == ((v >> 16) & 0xff) as u8,
            b3 == ((v >> 24) & 0xff) as u8,
    ;
}

/// Reading a `u16` back from its bytes gives it again.
pub proof fn lemma_u16_round_trip(v: u16)
    ensures
        u16_at(u16_bytes(v), 0) == v,
{
    reveal(u16_at);
    let b = u16_bytes(v);
    let b0 = (v & 0xff) as u8;
    let b1 = ((v >> 8) & 0xff) as u8;
    assert(b[0] == b0 && b[1] == b1);
    assert(((b0 as u16) | ((b1 as u16) << 8)) as u16 == v) by (bit_vector)
        requires
            b0 == (v & 0xff) as u8,
            b1 == ((v >> 8) & 0xff) as u8,
    ;
}

/// Where each element takes `c` bytes, element `k` of `s` occupies bytes
/// `k * c .. k * c + c` of the concatenation.
pub proof fn lemma_concat_map_index<A>(s: Seq<A>, f: spec_fn(A) -> Seq<u8>, c: nat, k: int, j: int)
    requires
        forall|x: A| (#[trigger] f(x)).len() == c,
        0 <= k < s.len(),
        0 <= j < c,
    ensures
        concat_map(s, f).len() == s.len() * c,
        0 <= k * c + j < s.len() * c,
        concat_map(s, f)[k * c + j] == f(s[k])[j],
    decreases s.len(),
{
    lemma_concat_map_len(s, f, c);
    let n = s.len() - 1;
    assert(k * c + j < (k + 1) * c) by (nonlinear_arith)
        requires j < c;
    assert((k + 1) * c <= s.len() * c) by (nonlinear_arith)
        requires k + 1 <= s.len();
    assert(0 <= k * c) by (nonlinear_arith)
        requires 0 <= k;
    lemma_concat_map_len(s.drop_last(), f, c);
    if k < n {
        lemma_concat_map_index(s.drop_last(), f, c, k, j);
    } else {
        assert(n * c == s.drop_last().len() * c);
    }
}

/// The concatenation of `s.len()` elements of `c` bytes each is `s.len() * c` bytes long.
pub proof fn lemma_concat_map_len<A>(s: Seq<A>, f: spec_fn(A) -> Seq<u8>, c: nat)
    requires
        forall|x: A| (#[trigger] f(x)).len() == c,
    ensures
        concat_map(s, f).len() == s.len() * c,
    decreases s.len(),
{
    if s.len() > 0 {
        lemma_concat_map_len(s.drop_last(), f, c);
        assert((s.len() - 1) * c + c == s.len() * c) by (nonlinear_arith);
    }
}

/// Appending one element appends its bytes.
pub proof fn lemma_concat_map_push<A>(s: Seq<A>, f: spec_fn(A) -> Seq<u8>, x: A)
    ensures
        concat_map(s.push(x), f) == concat_map(s, f) + f(x),
{
    assert(s.push(x).drop_last() == s);
}

/// Appends `v` to `out`, least significant byte first.
pub fn push_u32(out: &mut Vec<u8>, v: u32)
    ensures
        final(out)@ == old(out)@ + u32_bytes(v),
{
    out.push((v & 0xff) as u8);
    out.push(((v >> 8) & 0xff) as u8);
    out.push(((v >> 16) & 0xff) as u8);
    out.push(((v >> 24) & 0xff) as u8);
    assert(final(out)@ =~= old(out)@ + u32_bytes(v));
}

/// Appends `v` to `out`, least significant byte first.
pub fn push_u16(out: &mut Vec<u8>, v: u16)
    ensures
        final(out)@ == old(out)@ + u16_bytes(v),
{
    out.push((v & 0xff) as u8);
    out.push(((v >> 8) & 0xff) as u8);
    assert(final(out)@ =~= old(out)@ + u16_bytes(v));
}

/// The `u32` at `b[i..i + 4]`.
pub fn read_u32(b: &[u8], i: usize) -> (r: u32)
    requires
        i + 4 <= b@.len(),
    ensures
        r == u32_at(b@, i as int),
{
    reveal(u32_at);
    (b[i] as u32) | ((b[i + 1] as u32) << 8) | ((b[i + 2] as u32) << 16) | ((b[i + 3] as u32) << 24)
}

/// The `u16` at `b[i..i + 2]`.
pub fn read_u16(b: &[u8], i: usize) -> (r: u16)
    requires
        i + 2 <= b@.len(),
    ensures
        r == u16_at(b@, i as int),
{
    reveal(u16_at);
    ((b[i] as u16) | ((b[i + 1] as u16) << 8)) as u16
}

} // verus!
