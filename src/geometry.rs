use vstd::prelude::*;
use crate::wire::{u32_bytes, u32_at, lemma_u32_round_trip, push_u32, read_u32, concat_map, lemma_concat_map_index};

verus! {

/// A point or direction in space; each coordinate is the bit pattern of a
/// single-precision value.
#[derive(Clone, Copy, Debug, PartialEq, Eq, Structural)]
pub struct Vec3 {
    pub x: u32,
    pub y: u32,
    pub z: u32,
}

/// A texture coordinate; each component is the bit pattern of a
/// single-precision value.
#[derive(Clone, Copy, Debug, PartialEq, Eq, Structural)]
pub struct Vec2 {
    pub s: u32,
    pub t: u32,
}

/// The twelve bytes of a `Vec3`: x, y, z in turn.
pub open spec fn vec3_bytes(p: Vec3) -> Seq<u8> {
    u32_bytes(p.x) + u32_bytes(p.y) + u32_bytes(p.z)
}

/// The eight bytes of a `Vec2`: s, then t.
pub open spec fn vec2_bytes(p: Vec2) -> Seq<u8> {
    u32_bytes(p.s) + u32_bytes(p.t)
}

/// The `Vec3` stored at `b[i..i + 12]`.
pub open spec fn vec3_at(b: Seq<u8>, i: int) -> Vec3 {
    Vec3 { x: u32_at(b, i), y: u32_at(b, i + 4), z: u32_at(b, i + 8) }
}

/// The `Vec2` stored at `b[i..i + 8]`.
pub open spec fn vec2_at(b: Seq<u8>, i: int) -> Vec2 {
    Vec2 { s: u32_at(b, i), t: u32_at(b, i + 4) }
}

/// `b` holds the bytes `e` starting at `off`.
#[verifier::opaque]
pub open spec fn holds_at(b: Seq<u8>, off: int, e: Seq<u8>) -> bool {
    &&& 0 <= off
    &&& off + e.len() <= b.len()
    &&& forall|j: int| 0 <= j < e.len() ==> b[off + j] == #[trigger] e[j]
}

/// The front part of a concatenation is held at its start.
pub proof fn lemma_holds_front(a: Seq<u8>, c: Seq<u8>)
    ensures
        holds_at(a + c, 0, a),
{
    reveal(holds_at);
}

/// The back part of a concatenation is held after the front part.
pub proof fn lemma_holds_back(a: Seq<u8>, c: Seq<u8>)
    ensures
        holds_at(a + c, a.len() as int, c),
{
    reveal(holds_at);
    assert forall|j: int| 0 <= j < c.len() implies (a + c)[a.len() + j] == #[trigger] c[j] by {}
}

/// Bytes held within bytes that are held are held at the summed offset.
pub proof fn lemma_holds_within(b: Seq<u8>, off: int, x: Seq<u8>, off2: int, y: Seq<u8>)
    requires
        holds_at(b, off, x),
        holds_at(x, off2, y),
    ensures
        holds_at(b, off + off2, y),
{
    reveal(holds_at);
    assert forall|j: int| 0 <= j < y.len() implies b[off + off2 + j] == #[trigger] y[j] by {
        assert(x[off2 + j] == y[j]);
        assert(b[off + (off2 + j)] == x[off2 + j]);
    }
}

/// A `u32` is read back from wherever its bytes stand.
pub proof fn lemma_u32_held(b: Seq<u8>, off: int, v: u32)
    requires
        holds_at(b, off, u32_bytes(v)),
    ensures
        u32_at(b, off) == v,
{
    reveal(holds_at);
    let e = u32_bytes(v);
    assert(b[off] == e[0] && b[off + 1] == e[1] && b[off + 2] == e[2] && b[off + 3] == e[3]);
    lemma_u32_round_trip(v);
    reveal(u32_at);
}

/// Bytes held at `off` hold each part of them at its own offset.
pub proof fn lemma_held_part(b: Seq<u8>, off: int, e: Seq<u8>, start: int, len: int)
    requires
        holds_at(b, off, e),
        0 <= start,
        0 <= len,
        start + len <= e.len(),
    ensures
        holds_at(b, off + start, e.subrange(start, start + len)),
{
    reveal(holds_at);
    let p = e.subrange(start, start + len);
    assert forall|j: int| 0 <= j < p.len() implies b[off + start + j] == #[trigger] p[j] by {
        assert(b[off + (start + j)] == e[start + j]);
    }
}

/// Where the bytes of a list of `c`-byte elements are held at `off`, those of
/// element `k` are held at `off + k * c`.
pub proof fn lemma_held_in_list<A>(b: Seq<u8>, off: int, s: Seq<A>, f: spec_fn(A) -> Seq<u8>, c: nat, k: int)
    requires
        holds_at(b, off, concat_map(s, f)),
        forall|x: A| (#[trigger] f(x)).len() == c,
        0 <= k < s.len(),
    ensures
        holds_at(b, off + k * c, f(s[k])),
{
    reveal(holds_at);
    assert(0 <= k * c) by (nonlinear_arith)
        requires 0 <= k;
    if c > 0 {
        lemma_concat_map_index(s, f, c, k, c - 1);
    }
    assert forall|j: int| 0 <= j < f(s[k]).len() implies b[off + k * c + j] == #[trigger] f(s[k])[j] by {
        lemma_concat_map_index(s, f, c, k, j);
        assert(b[off + (k * c + j)] == concat_map(s, f)[k * c + j]);
    }
}

/// A `Vec3` is read back from wherever its bytes stand.
pub proof fn lemma_vec3_held(b: Seq<u8>, off: int, p: Vec3)
    requires
        holds_at(b, off, vec3_bytes(p)),
    ensures
        vec3_at(b, off) == p,
{
    reveal(holds_at);
    let e = vec3_bytes(p);
    lemma_held_part(b, off, e, 0, 4);
    lemma_held_part(b, off, e, 4, 4);
    lemma_held_part(b, off, e, 8, 4);
    assert(e.subrange(0, 4) =~= u32_bytes(p.x));
    assert(e.subrange(4, 8) =~= u32_bytes(p.y));
    assert(e.subrange(8, 12) =~= u32_bytes(p.z));
    lemma_u32_held(b, off, p.x);
    lemma_u32_held(b, off + 4, p.y);
    lemma_u32_held(b, off + 8, p.z);
}

/// A `Vec2` is read back from wherever its bytes stand.
pub proof fn lemma_vec2_held(b: Seq<u8>, off: int, p: Vec2)
    requires
        holds_at(b, off, vec2_bytes(p)),
    ensures
        vec2_at(b, off) == p,
{
    reveal(holds_at);
    let e = vec2_bytes(p);
    lemma_held_part(b, off, e, 0, 4);
    lemma_held_part(b, off, e, 4, 4);
    assert(e.subrange(0, 4) =~= u32_bytes(p.s));
    assert(e.subrange(4, 8) =~= u32_bytes(p.t));
    lemma_u32_held(b, off, p.s);
    lemma_u32_held(b, off + 4, p.t);
}

/// Appends the bytes of `p`.
pub fn push_vec3(out: &mut Vec<u8>, p: &Vec3)
    ensures
        final(out)@ == old(out)@ + vec3_bytes(*p),
{
    push_u32(out, p.x);
    push_u32(out, p.y);
    push_u32(out, p.z);
    assert(final(out)@ =~= old(out)@ + vec3_bytes(*p));
}

/// Appends the bytes of `p`.
pub fn push_vec2(out: &mut Vec<u8>, p: &Vec2)
    ensures
        final(out)@ == old(out)@ + vec2_bytes(*p),
{
    push_u32(out, p.s);
    push_u32(out, p.t);
    assert(final(out)@ =~= old(out)@ + vec2_bytes(*p));
}

/// The `Vec3` at `b[i..i + 12]`.
pub fn read_vec3(b: &[u8], i: usize) -> (r: Vec3)
    requires
        i + 12 <= b.len(),
    ensures
        r == vec3_at(b@, i as int),
{
    Vec3 { x: read_u32(b, i), y: read_u32(b, i + 4), z: read_u32(b, i + 8) }
}

/// The `Vec2` at `b[i..i + 8]`.
pub fn read_vec2(b: &[u8], i: usize) -> (r: Vec2)
    requires
        i + 8 <= b.len(),
    ensures
        r == vec2_at(b@, i as int),
{
    Vec2 { s: read_u32(b, i), t: read_u32(b, i + 4) }
}

} // verus!
