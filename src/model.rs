use vstd::prelude::*;
use std::collections::HashMap;
use crate::error::ConvertError;
use crate::geometry::{
    Vec2, Vec3, vec2_at, vec2_bytes, vec3_at, vec3_bytes, holds_at, lemma_held_part, lemma_u32_held,
    lemma_held_in_list, lemma_vec2_held, lemma_vec3_held, push_vec2, push_vec3, read_vec2,
    read_vec3,
};
use crate::wire::{
    concat_map, lemma_concat_map_len, lemma_concat_map_push, lemma_u16_round_trip, push_u16,
    push_u32, read_u16, read_u32, u16_at, u16_bytes, u32_at, u32_bytes
};

verus! {

broadcast use vstd::std_specs::hash::group_hash_axioms;

/// How many distinct attributes, vertices or faces one mesh object may hold:
/// every index into them fits in 16 bits.
pub const INDEX_SPACE: u64 = 65536;

/// One corner of the interleaved vertex buffer.
#[derive(Clone, Copy, Debug, PartialEq, Eq, Structural)]
pub struct Vertex {
    pub position: Vec3,
    pub normal: Vec3,
    pub tex_coord: Vec2,
}

impl Vertex {
    /// The vertex whose every component is zero.
    pub fn new_empty() -> (r: Vertex)
        ensures
            r == (Vertex {
                position: Vec3 { x: 0, y: 0, z: 0 },
                normal: Vec3 { x: 0, y: 0, z: 0 },
                tex_coord: Vec2 { s: 0, t: 0 },
            }),
    {
        Vertex {
            position: Vec3 { x: 0, y: 0, z: 0 },
            normal: Vec3 { x: 0, y: 0, z: 0 },
            tex_coord: Vec2 { s: 0, t: 0 },
        }
    }

    /// The vertex made of the given attributes.
    pub fn from_components(position: &Vec3, normal: &Vec3, tex_coord: &Vec2) -> (r: Vertex)
        ensures
            r == (Vertex { position: *position, normal: *normal, tex_coord: *tex_coord }),
    {
        Vertex { position: *position, normal: *normal, tex_coord: *tex_coord }
    }
}

/// The attributes declared so far, each list in declaration order.
pub struct RawModelData {
    raw_positions: Vec<Vec3>,
    raw_tex_coords: Vec<Vec2>,
    raw_normals: Vec<Vec3>,
}

impl RawModelData {
    /// The positions declared so far.
    pub closed spec fn positions(&self) -> Seq<Vec3> {
        self.raw_positions@
    }

    /// The normals declared so far.
    pub closed spec fn normals(&self) -> Seq<Vec3> {
        self.raw_normals@
    }

    /// The texture coordinates declared so far.
    pub closed spec fn tex_coords(&self) -> Seq<Vec2> {
        self.raw_tex_coords@
    }

    /// An empty pool.
    pub fn new() -> (r: RawModelData)
        ensures
            r.positions() == Seq::<Vec3>::empty(),
            r.normals() == Seq::<Vec3>::empty(),
            r.tex_coords() == Seq::<Vec2>::empty(),
    {
        RawModelData { raw_positions: Vec::new(), raw_tex_coords: Vec::new(), raw_normals: Vec::new() }
    }

    /// Declares the next position.
    pub fn push_position(&mut self, position: Vec3)
        ensures
            final(self).positions() == old(self).positions().push(position),
            final(self).normals() == old(self).normals(),
            final(self).tex_coords() == old(self).tex_coords(),
    {
        self.raw_positions.push(position);
    }

    /// Declares the next normal.
    pub fn push_normal(&mut self, normal: Vec3)
        ensures
            final(self).normals() == old(self).normals().push(normal),
            final(self).positions() == old(self).positions(),
            final(self).tex_coords() == old(self).tex_coords(),
    {
        self.raw_normals.push(normal);
    }

    /// Declares the next texture coordinate.
    pub fn push_tex_coord(&mut self, tex_coord: Vec2)
        ensures
            final(self).tex_coords() == old(self).tex_coords().push(tex_coord),
            final(self).positions() == old(self).positions(),
            final(self).normals() == old(self).normals(),
    {
        self.raw_tex_coords.push(tex_coord);
    }

    /// The position declared at `index`, if there is one.
    pub fn get_raw_position(&self, index: u16) -> (r: Option<Vec3>)
        ensures
            r == (if (index as int) < self.positions().len() {
                Some(self.positions()[index as int])
            } else {
                None
            }),
    {
        if (index as usize) < self.raw_positions.len() {
            Some(self.raw_positions[index as usize])
        } else {
            None
        }
    }

    /// The normal declared at `index`, if there is one.
    pub fn get_raw_normal(&self, index: u16) -> (r: Option<Vec3>)
        ensures
            r == (if (index as int) < self.normals().len() {
                Some(self.normals()[index as int])
            } else {
                None
            }),
    {
        if (index as usize) < self.raw_normals.len() {
            Some(self.raw_normals[index as usize])
        } else {
            None
        }
    }

    /// The texture coordinate declared at `index`, if there is one.
    pub fn get_raw_tex_coord(&self, index: u16) -> (r: Option<Vec2>)
        ensures
            r == (if (index as int) < self.tex_coords().len() {
                Some(self.tex_coords()[index as int])
            } else {
                None
            }),
    {
        if (index as usize) < self.raw_tex_coords.len() {
            Some(self.raw_tex_coords[index as usize])
        } else {
            None
        }
    }
}

impl Default for RawModelData {
    fn default() -> (r: Self)
        ensures
            r.positions() == Seq::<Vec3>::empty(),
            r.normals() == Seq::<Vec3>::empty(),
            r.tex_coords() == Seq::<Vec2>::empty(),
    {
        Self::new()
    }
}

/// The composite identity of a (position, normal, texture coordinate) index
/// triple: texture coordinate in the low 16 bits, normal in the next 16,
/// position in the 16 above them.
pub open spec fn index_key(position: u64, normal: u64, tex_coord: u64) -> u64 {
    tex_coord | (normal << 16u64) | (position << 32u64)
}

/// Distinct triples of 16-bit indices have distinct keys.
pub proof fn lemma_index_key_injective(pos_a: u64, nor_a: u64, tex_a: u64, pos_b: u64, nor_b: u64, tex_b: u64)
    requires
        pos_a < INDEX_SPACE,
        nor_a < INDEX_SPACE,
        tex_a < INDEX_SPACE,
        pos_b < INDEX_SPACE,
        nor_b < INDEX_SPACE,
        tex_b < INDEX_SPACE,
        index_key(pos_a, nor_a, tex_a) == index_key(pos_b, nor_b, tex_b),
    ensures
        pos_a == pos_b && nor_a == nor_b && tex_a == tex_b,
{
    assert(pos_a == pos_b && nor_a == nor_b && tex_a == tex_b) by (bit_vector)
        requires
            pos_a < 65536,
            nor_a < 65536,
            tex_a < 65536,
            pos_b < 65536,
            nor_b < 65536,
            tex_b < 65536,
            tex_a | (nor_a << 16u64) | (pos_a << 32u64) == tex_b | (nor_b << 16u64) | (pos_b << 32u64),
    ;
}

/// One deduplication step: the index of `key`, with the key map and the vertex
/// list after it. A known key keeps its index and changes nothing; a new key
/// gets the next index, and `vertex` is appended.
pub open spec fn dedup_step(keys: Map<u64, u16>, vertices: Seq<Vertex>, key: u64, vertex: Vertex) -> (u16, Map<u64, u16>, Seq<Vertex>) {
    if keys.contains_key(key) {
        (keys[key], keys, vertices)
    } else {
        (vertices.len() as u16, keys.insert(key, vertices.len() as u16), vertices.push(vertex))
    }
}

/// Asking twice for the same key gives the same index, and the second request
/// leaves the key map and the vertex list as they were.
pub proof fn lemma_dedup_idempotent(keys: Map<u64, u16>, vertices: Seq<Vertex>, key: u64, vertex: Vertex, again: Vertex)
    ensures
        ({
            let (first, keys1, vertices1) = dedup_step(keys, vertices, key, vertex);
            let (second, keys2, vertices2) = dedup_step(keys1, vertices1, key, again);
            &&& second == first
            &&& keys2 == keys1
            &&& vertices2 == vertices1
        }),
{
}

/// Distinct 16-bit attribute triples never share a vertex index: deduplicating
/// one after the other, with a key map whose indices are distinct and name
/// existing vertices, and room for two more vertices, gives two different
/// indices.
pub proof fn lemma_distinct_triples_distinct_indices(
    keys: Map<u64, u16>,
    vertices: Seq<Vertex>,
    first: (u64, u64, u64),
    second: (u64, u64, u64),
    v1: Vertex,
    v2: Vertex,
)
    requires
        forall|k: u64| #[trigger] keys.contains_key(k) ==> (keys[k] as int) < vertices.len(),
        forall|k1: u64, k2: u64|
            #[trigger] keys.contains_key(k1) && #[trigger] keys.contains_key(k2) && k1 != k2 ==> keys[k1] != keys[k2],
        vertices.len() + 2 <= INDEX_SPACE,
        first.0 < INDEX_SPACE && first.1 < INDEX_SPACE && first.2 < INDEX_SPACE,
        second.0 < INDEX_SPACE && second.1 < INDEX_SPACE && second.2 < INDEX_SPACE,
        first != second,
    ensures
        ({
            let (i1, keys1, vertices1) = dedup_step(keys, vertices, index_key(first.0, first.1, first.2), v1);
            let (i2, keys2, vertices2) = dedup_step(keys1, vertices1, index_key(second.0, second.1, second.2), v2);
            i1 != i2
        }),
{
    let k1 = index_key(first.0, first.1, first.2);
    let k2 = index_key(second.0, second.1, second.2);
    if k1 == k2 {
        lemma_index_key_injective(first.0, first.1, first.2, second.0, second.1, second.2);
    }
    if keys.contains_key(k1) && keys.contains_key(k2) {
        assert(keys[k1] != keys[k2]);
    }
}

/// One mesh object: its deduplicated vertices, its triangles as index
/// triples, and the map from index keys to vertex indices.
pub struct Model {
    pub name: String,
    pub interleaved_vertices: Vec<Vertex>,
    pub face_indices: Vec<u16>,
    pub index_map: HashMap<u64, u16>,
}

impl Model {
    /// The map from index keys to the vertex index each was given.
    pub open spec fn key_map(&self) -> Map<u64, u16> {
        self.index_map@
    }

    /// The object's name.
    pub open spec fn name(&self) -> String {
        self.name
    }

    /// Within the 16-bit index space, whole triangles, and every key mapped to
    /// its own existing vertex.
    pub open spec fn wf(&self) -> bool {
        &&& self.interleaved_vertices@.len() <= INDEX_SPACE
        &&& self.face_indices@.len() % 3 == 0
        &&& self.face_indices@.len() <= 3 * INDEX_SPACE
        &&& forall|k: u64| #[trigger] self.key_map().contains_key(k)
            ==> (self.key_map()[k] as int) < self.interleaved_vertices@.len()
        &&& forall|k1: u64, k2: u64|
            #[trigger] self.key_map().contains_key(k1) && #[trigger] self.key_map().contains_key(k2) && k1 != k2
            ==> self.key_map()[k1] != self.key_map()[k2]
    }

    /// An empty object named `model_name`.
    pub fn new(model_name: String) -> (r: Model)
        ensures
            r.wf(),
            r.name() == model_name,
            r.interleaved_vertices@ == Seq::<Vertex>::empty(),
            r.face_indices@ == Seq::<u16>::empty(),
            r.key_map() == Map::<u64, u16>::empty(),
    {
        Model {
            name: model_name,
            interleaved_vertices: Vec::new(),
            face_indices: Vec::new(),
            index_map: HashMap::new(),
        }
    }

    /// The object's name.
    pub fn get_name(&self) -> (r: &String)
        ensures
            *r == self.name(),
    {
        &self.name
    }

    /// The vertex index of the attribute triple (`index_position`,
    /// `index_normal`, `index_tex_coord`), given by [`dedup_step`]: a triple
    /// seen before keeps its index, a new one gets the next index and stores
    /// `vertex`. Fails with `CapacityExceeded` when an attribute index does not
    /// fit in 16 bits, or when a new vertex would be the 65537th.
    pub fn get_index(&mut self, index_position: u64, index_normal: u64, index_tex_coord: u64, vertex: Vertex) -> (r: Result<u16, ConvertError>)
        requires
            old(self).wf(),
        ensures
            final(self).wf(),
            final(self).name() == old(self).name(),
            final(self).face_indices@ == old(self).face_indices@,
            r is Err <==> !(index_position < INDEX_SPACE && index_normal < INDEX_SPACE && index_tex_coord < INDEX_SPACE)
                || (!old(self).key_map().contains_key(index_key(index_position, index_normal, index_tex_coord))
                    && old(self).interleaved_vertices@.len() == INDEX_SPACE),
            match r {
                Ok(i) => (i, final(self).key_map(), final(self).interleaved_vertices@) == dedup_step(
                    old(self).key_map(),
                    old(self).interleaved_vertices@,
                    index_key(index_position, index_normal, index_tex_coord),
                    vertex,
                ),
                Err(e) => e == ConvertError::CapacityExceeded
                    && final(self).key_map() == old(self).key_map()
                    && final(self).interleaved_vertices@ == old(self).interleaved_vertices@,
            },
    {
        if index_position >= INDEX_SPACE || index_normal >= INDEX_SPACE || index_tex_coord >= INDEX_SPACE {
            return Err(ConvertError::CapacityExceeded);
        }
        let identifier: u64 = index_tex_coord | (index_normal << 16u64) | (index_position << 32u64);
        match self.index_map.get(&identifier) {
            Some(position) => Ok(*position),
            None => {
                if self.interleaved_vertices.len() as u64 >= INDEX_SPACE {
                    return Err(ConvertError::CapacityExceeded);
                }
                let new_index = self.interleaved_vertices.len() as u16;
                self.index_map.insert(identifier, new_index);
                self.interleaved_vertices.push(vertex);
                proof {
                    let m = self.key_map();
                    assert forall|k1: u64, k2: u64|
                        #[trigger] m.contains_key(k1) && #[trigger] m.contains_key(k2) && k1 != k2
                        implies m[k1] != m[k2] by {
                        if k1 != identifier && k2 != identifier {
                            assert(old(self).key_map().contains_key(k1));
                            assert(old(self).key_map().contains_key(k2));
                        } else if k1 != identifier {
                            assert(old(self).key_map().contains_key(k1));
                        } else {
                            assert(old(self).key_map().contains_key(k2));
                        }
                    }
                    assert forall|k: u64| #[trigger] m.contains_key(k)
                        implies (m[k] as int) < self.interleaved_vertices@.len() by {
                        if k != identifier {
                            assert(old(self).key_map().contains_key(k));
                        }
                    }
                }
                Ok(new_index)
            },
        }
    }

    /// Appends one triangle. Fails with `CapacityExceeded`, changing nothing,
    /// when the object already holds 65536 triangles.
    pub fn add_face(&mut self, indices: [u16; 3]) -> (r: Result<(), ConvertError>)
        requires
            old(self).wf(),
        ensures
            final(self).wf(),
            final(self).name() == old(self).name(),
            final(self).key_map() == old(self).key_map(),
            final(self).interleaved_vertices@ == old(self).interleaved_vertices@,
            r is Err <==> old(self).face_indices@.len() == 3 * INDEX_SPACE,
            r is Err ==> r == Err::<(), ConvertError>(ConvertError::CapacityExceeded)
                && final(self).face_indices@ == old(self).face_indices@,
            r is Ok ==> final(self).face_indices@ == old(self).face_indices@ + seq![indices[0], indices[1], indices[2]],
    {
        if self.face_indices.len() as u64 >= 3 * INDEX_SPACE {
            return Err(ConvertError::CapacityExceeded);
        }
        self.face_indices.push(indices[0]);
        self.face_indices.push(indices[1]);
        self.face_indices.push(indices[2]);
        assert(self.key_map() == old(self).key_map());
        assert(self.face_indices@ =~= old(self).face_indices@ + seq![indices[0], indices[1], indices[2]]);
        Ok(())
    }
}


/// The 32 bytes of a vertex: position, normal, texture coordinate.
pub open spec fn vertex_bytes(v: Vertex) -> Seq<u8> {
    vec3_bytes(v.position) + vec3_bytes(v.normal) + vec2_bytes(v.tex_coord)
}

/// The vertex stored at `b[i..i + 32]`.
pub open spec fn vertex_at(b: Seq<u8>, i: int) -> Vertex {
    Vertex { position: vec3_at(b, i), normal: vec3_at(b, i + 12), tex_coord: vec2_at(b, i + 24) }
}

/// The bytes of a list of vertices, one after another.
pub open spec fn vertices_bytes(vs: Seq<Vertex>) -> Seq<u8> {
    concat_map(vs, |v: Vertex| vertex_bytes(v))
}

/// The bytes of a list of indices, one after another.
pub open spec fn indices_bytes(is: Seq<u16>) -> Seq<u8> {
    concat_map(is, |i: u16| u16_bytes(i))
}

/// The mesh layout: version, vertex count, the vertices, triangle count, and
/// the triangles' indices, every number least significant byte first.
pub open spec fn model_bytes(version: u32, vs: Seq<Vertex>, is: Seq<u16>) -> Seq<u8> {
    u32_bytes(version) + u32_bytes(vs.len() as u32) + vertices_bytes(vs) + u32_bytes((is.len() / 3) as u32)
        + indices_bytes(is)
}

/// What a mesh file holds, read by its layout: the vertices and the triangle
/// indices. `VersionMismatch` where the version field is not `version`,
/// `MalformedInput` where the length does not match the counts exactly, and
/// `CapacityExceeded` where a count is above 65536.
pub open spec fn decode_model(b: Seq<u8>, version: u32) -> Result<(Seq<Vertex>, Seq<u16>), ConvertError> {
    if b.len() < 4 {
        Err(ConvertError::MalformedInput)
    } else if u32_at(b, 0) != version {
        Err(ConvertError::VersionMismatch)
    } else if b.len() < 8 {
        Err(ConvertError::MalformedInput)
    } else {
        let nv = u32_at(b, 4) as int;
        let fo = 8 + 32 * nv;
        if b.len() < fo + 4 {
            Err(ConvertError::MalformedInput)
        } else {
            let nf = u32_at(b, fo) as int;
            if b.len() != fo + 4 + 6 * nf {
                Err(ConvertError::MalformedInput)
            } else if nv > INDEX_SPACE || nf > INDEX_SPACE {
                Err(ConvertError::CapacityExceeded)
            } else {
                Ok(
                    (
                        Seq::new(nv as nat, |k: int| vertex_at(b, 8 + 32 * k)),
                        Seq::new((3 * nf) as nat, |k: int| u16_at(b, fo + 4 + 2 * k)),
                    ),
                )
            }
        }
    }
}

/// A vertex is read back from wherever its bytes stand.
pub proof fn lemma_vertex_held(b: Seq<u8>, off: int, v: Vertex)
    requires
        holds_at(b, off, vertex_bytes(v)),
    ensures
        vertex_at(b, off) == v,
{
    let e = vertex_bytes(v);
    lemma_held_part(b, off, e, 0, 12);
    lemma_held_part(b, off, e, 12, 12);
    lemma_held_part(b, off, e, 24, 8);
    assert(e.subrange(0, 12) =~= vec3_bytes(v.position));
    assert(e.subrange(12, 24) =~= vec3_bytes(v.normal));
    assert(e.subrange(24, 32) =~= vec2_bytes(v.tex_coord));
    lemma_vec3_held(b, off, v.position);
    lemma_vec3_held(b, off + 12, v.normal);
    lemma_vec2_held(b, off + 24, v.tex_coord);
}

/// Decoding what was encoded gives back the same vertices and indices, for a
/// version, at most 65536 vertices, and whole triangles, at most 65536 of them.
pub proof fn lemma_model_round_trip(version: u32, vs: Seq<Vertex>, is: Seq<u16>)
    requires
        vs.len() <= INDEX_SPACE,
        is.len() % 3 == 0,
        is.len() <= 3 * INDEX_SPACE,
    ensures
        decode_model(model_bytes(version, vs, is), version) == Ok::<(Seq<Vertex>, Seq<u16>), ConvertError>((vs, is)),
{
    let b = model_bytes(version, vs, is);
    let nv = vs.len() as u32;
    let nf = (is.len() / 3) as u32;
    let vf = |v: Vertex| vertex_bytes(v);
    let xf = |i: u16| u16_bytes(i);
    lemma_concat_map_len(vs, vf, 32);
    lemma_concat_map_len(is, xf, 2);
    let fo: int = 8 + 32 * (vs.len() as int);
    assert(b.len() == fo + 4 + 6 * (nf as int));
    reveal(holds_at);
    assert(holds_at(b, 0, u32_bytes(version)));
    assert(holds_at(b, 4, u32_bytes(nv)));
    assert(holds_at(b, 8, vertices_bytes(vs)));
    assert(holds_at(b, fo, u32_bytes(nf)));
    assert(holds_at(b, fo + 4, indices_bytes(is)));
    lemma_u32_held(b, 0, version);
    lemma_u32_held(b, 4, nv);
    lemma_u32_held(b, fo, nf);
    let dv = Seq::new(nv as nat, |k: int| vertex_at(b, 8 + 32 * k));
    let di = Seq::new((3 * nf) as nat, |k: int| u16_at(b, fo + 4 + 2 * k));
    assert forall|k: int| 0 <= k < vs.len() implies dv[k] == vs[k] by {
        lemma_held_in_list(b, 8, vs, vf, 32, k);
        lemma_vertex_held(b, 8 + k * 32, vs[k]);
        assert(8 + k * 32 == 8 + 32 * k);
    }
    assert forall|k: int| 0 <= k < is.len() implies di[k] == is[k] by {
        lemma_held_in_list(b, fo + 4, is, xf, 2, k);
        let e = u16_bytes(is[k]);
        assert(b[fo + 4 + k * 2] == e[0] && b[fo + 4 + k * 2 + 1] == e[1]);
        reveal(holds_at);
        reveal(u16_at);
        lemma_u16_round_trip(is[k]);
    }
    assert(dv =~= vs);
    assert(di =~= is);
}

/// Appends the bytes of `v`.
fn push_vertex(out: &mut Vec<u8>, v: &Vertex)
    ensures
        final(out)@ == old(out)@ + vertex_bytes(*v),
{
    push_vec3(out, &v.position);
    push_vec3(out, &v.normal);
    push_vec2(out, &v.tex_coord);
    assert(final(out)@ =~= old(out)@ + vertex_bytes(*v));
}

/// The vertex at `b[i..i + 32]`.
fn read_vertex(b: &[u8], i: usize) -> (r: Vertex)
    requires
        i + 32 <= b.len(),
    ensures
        r == vertex_at(b@, i as int),
{
    Vertex { position: read_vec3(b, i), normal: read_vec3(b, i + 12), tex_coord: read_vec2(b, i + 24) }
}

impl Model {
    /// Appends to `out` the contents of this object's mesh file, laid out as
    /// [`model_bytes`] says.
    pub fn write_data_to_file(&self, out: &mut Vec<u8>, version: u32)
        requires
            self.interleaved_vertices@.len() <= u32::MAX,
            self.face_indices@.len() / 3 <= u32::MAX,
        ensures
            final(out)@ == old(out)@ + model_bytes(version, self.interleaved_vertices@, self.face_indices@),
    {
        let start = Ghost(out@);
        push_u32(out, version);
        push_u32(out, self.interleaved_vertices.len() as u32);
        let head = Ghost(out@);
        let mut i: usize = 0;
        while i < self.interleaved_vertices.len()
            invariant
                i <= self.interleaved_vertices@.len(),
                out@ == head@ + vertices_bytes(self.interleaved_vertices@.take(i as int)),
            decreases self.interleaved_vertices@.len() - i,
        {
            let ghost before = out@;
            push_vertex(out, &self.interleaved_vertices[i]);
            proof {
                let vs = self.interleaved_vertices@;
                assert(vs.take(i as int + 1) == vs.take(i as int).push(vs[i as int]));
                lemma_concat_map_push(vs.take(i as int), |v: Vertex| vertex_bytes(v), vs[i as int]);
            }
            i += 1;
        }
        assert(self.interleaved_vertices@.take(i as int) == self.interleaved_vertices@);
        push_u32(out, (self.face_indices.len() / 3) as u32);
        let mid = Ghost(out@);
        let mut j: usize = 0;
        while j < self.face_indices.len()
            invariant
                j <= self.face_indices@.len(),
                out@ == mid@ + indices_bytes(self.face_indices@.take(j as int)),
            decreases self.face_indices@.len() - j,
        {
            push_u16(out, self.face_indices[j]);
            proof {
                let is = self.face_indices@;
                assert(is.take(j as int + 1) == is.take(j as int).push(is[j as int]));
                lemma_concat_map_push(is.take(j as int), |x: u16| u16_bytes(x), is[j as int]);
            }
            j += 1;
        }
        assert(self.face_indices@.take(j as int) == self.face_indices@);
        assert(out@ =~= start@ + model_bytes(version, self.interleaved_vertices@, self.face_indices@));
    }

    /// Reads a mesh file back: the object named "", holding what
    /// [`decode_model`] finds in `bytes`, or the error it gives.
    pub fn from_bytes(bytes: &[u8], version: u32) -> (r: Result<Model, ConvertError>)
        ensures
            match r {
                Ok(m) => decode_model(bytes@, version) == Ok::<(Seq<Vertex>, Seq<u16>), ConvertError>(
                    (m.interleaved_vertices@, m.face_indices@),
                ) && m.wf() && m.name()@ == Seq::<char>::empty(),
                Err(e) => decode_model(bytes@, version) == Err::<(Seq<Vertex>, Seq<u16>), ConvertError>(e),
            },
    {
        let len = bytes.len();
        if len < 4 {
            return Err(ConvertError::MalformedInput);
        }
        if read_u32(bytes, 0) != version {
            return Err(ConvertError::VersionMismatch);
        }
        if len < 8 {
            return Err(ConvertError::MalformedInput);
        }
        let nv = read_u32(bytes, 4);
        let fo: u64 = 8 + 32 * (nv as u64);
        if (len as u64) < fo + 4 {
            return Err(ConvertError::MalformedInput);
        }
        let fo = fo as usize;
        let nf = read_u32(bytes, fo);
        if len as u64 != fo as u64 + 4 + 6 * (nf as u64) {
            return Err(ConvertError::MalformedInput);
        }
        if nv as u64 > INDEX_SPACE || nf as u64 > INDEX_SPACE {
            return Err(ConvertError::CapacityExceeded);
        }
        let mut vertices: Vec<Vertex> = Vec::new();
        let mut k: usize = 0;
        while k < nv as usize
            invariant
                k <= nv,
                nv <= INDEX_SPACE,
                8 + 32 * (nv as int) + 4 <= len,
                len == bytes@.len(),
                vertices@.len() == k,
                forall|j: int| 0 <= j < k ==> vertices@[j] == vertex_at(bytes@, 8 + 32 * j),
            decreases nv - k,
        {
            vertices.push(read_vertex(bytes, 8 + 32 * k));
            k += 1;
        }
        let mut indices: Vec<u16> = Vec::new();
        let mut k: usize = 0;
        let ni = 3 * nf as usize;
        while k < ni
            invariant
                ni == 3 * nf,
                nf <= INDEX_SPACE,
                k <= ni,
                fo + 4 + 6 * (nf as int) == len,
                len == bytes@.len(),
                indices@.len() == k,
                forall|j: int| 0 <= j < k ==> indices@[j] == u16_at(bytes@, fo + 4 + 2 * j),
            decreases ni - k,
        {
            indices.push(read_u16(bytes, fo + 4 + 2 * k));
            k += 1;
        }
        let ghost b = bytes@;
        assert(vertices@ =~= Seq::new(nv as nat, |j: int| vertex_at(b, 8 + 32 * j)));
        assert(indices@ =~= Seq::new((3 * nf) as nat, |j: int| u16_at(b, fo + 4 + 2 * j)));
        Ok(Model { name: String::new(), interleaved_vertices: vertices, face_indices: indices, index_map: HashMap::new() })
    }
}

} // verus!
