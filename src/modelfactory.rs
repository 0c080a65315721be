use vstd::prelude::*;
use crate::collisiondata::{extent_points, without_repeats, CollisionData};
use crate::scalar::{running_max, running_min};
use crate::geometry::Vec3;
use crate::error::ConvertError;
use crate::model::{dedup_step, index_key, Model, RawModelData, Vertex, INDEX_SPACE};

verus! {

/// The version every encoded artifact starts with.
pub const FILE_VERSION_NUMBER: u32 = 1;

/// The attribute indices one polygon corner refers to, 0-based.
#[derive(Clone, Copy, Debug, PartialEq, Eq, Structural)]
pub struct IndexSet {
    pub position_index: u16,
    pub normal_index: u16,
    pub tex_coord_index: u16,
}

/// The key under which a corner's vertex is deduplicated.
pub open spec fn set_key(s: IndexSet) -> u64 {
    index_key(s.position_index as u64, s.normal_index as u64, s.tex_coord_index as u64)
}

/// Every attribute the corner refers to has been declared.
pub open spec fn resolves(pool: RawModelData, s: IndexSet) -> bool {
    &&& (s.position_index as int) < pool.positions().len()
    &&& (s.normal_index as int) < pool.normals().len()
    &&& (s.tex_coord_index as int) < pool.tex_coords().len()
}

/// The vertex a corner stands for.
pub open spec fn resolve(pool: RawModelData, s: IndexSet) -> Vertex {
    Vertex {
        position: pool.positions()[s.position_index as int],
        normal: pool.normals()[s.normal_index as int],
        tex_coord: pool.tex_coords()[s.tex_coord_index as int],
    }
}

/// Deduplicating the corners `sets` in order, starting from the key map
/// `keys` and the vertex list `vertices`: the index of each corner and the key
/// map and vertex list after them, or `None` where a new vertex would not fit
/// in the 16-bit index space.
pub open spec fn dedup_all(pool: RawModelData, keys: Map<u64, u16>, vertices: Seq<Vertex>, sets: Seq<IndexSet>) -> Option<(Seq<u16>, Map<u64, u16>, Seq<Vertex>)>
    decreases sets.len(),
{
    if sets.len() == 0 {
        Some((Seq::empty(), keys, vertices))
    } else {
        match dedup_all(pool, keys, vertices, sets.drop_last()) {
            None => None,
            Some((ids, k, v)) => {
                let s = sets.last();
                if !k.contains_key(set_key(s)) && v.len() >= INDEX_SPACE {
                    None
                } else {
                    let (i, k2, v2) = dedup_step(k, v, set_key(s), resolve(pool, s));
                    Some((ids.push(i), k2, v2))
                }
            },
        }
    }
}

/// Once deduplication runs out of indices, every longer run does too.
proof fn lemma_dedup_all_stays_none(pool: RawModelData, keys: Map<u64, u16>, vertices: Seq<Vertex>, sets: Seq<IndexSet>, i: int)
    requires
        0 <= i <= sets.len(),
        dedup_all(pool, keys, vertices, sets.take(i)) is None,
    ensures
        dedup_all(pool, keys, vertices, sets) is None,
    decreases sets.len() - i,
{
    if i < sets.len() {
        assert(sets.take(i + 1).drop_last() == sets.take(i));
        lemma_dedup_all_stays_none(pool, keys, vertices, sets, i + 1);
    } else {
        assert(sets.take(i) == sets);
    }
}

/// The triangles of the fan over the first `m` corner indices, as index
/// triples one after another: `(i0, i1, i2), (i0, i2, i3), ...`.
pub open spec fn fan_prefix(ids: Seq<u16>, m: int) -> Seq<u16>
    decreases m,
{
    if m <= 2 {
        Seq::empty()
    } else {
        fan_prefix(ids, m - 1) + seq![ids[0], ids[m - 2], ids[m - 1]]
    }
}

/// The fan triangulation of a polygon given by its corner indices.
pub open spec fn fan(ids: Seq<u16>) -> Seq<u16> {
    fan_prefix(ids, ids.len() as int)
}

/// A polygon of `n >= 3` corners gives `n - 2` triangles, triangle `t` being
/// `(ids[0], ids[t + 1], ids[t + 2])`; so the first corner is in every one.
pub proof fn lemma_fan(ids: Seq<u16>)
    requires
        ids.len() >= 3,
    ensures
        fan(ids).len() == 3 * (ids.len() - 2),
        forall|t: int| 0 <= t < ids.len() - 2 ==> {
            &&& #[trigger] fan(ids)[3 * t] == ids[0]
            &&& fan(ids)[3 * t + 1] == ids[t + 1]
            &&& fan(ids)[3 * t + 2] == ids[t + 2]
        },
{
    lemma_fan_prefix(ids, ids.len() as int);
}

proof fn lemma_fan_prefix(ids: Seq<u16>, m: int)
    requires
        2 <= m <= ids.len(),
    ensures
        fan_prefix(ids, m).len() == 3 * (m - 2),
        forall|t: int| 0 <= t < m - 2 ==> {
            &&& #[trigger] fan_prefix(ids, m)[3 * t] == ids[0]
            &&& fan_prefix(ids, m)[3 * t + 1] == ids[t + 1]
            &&& fan_prefix(ids, m)[3 * t + 2] == ids[t + 2]
        },
    decreases m,
{
    if m > 2 {
        lemma_fan_prefix(ids, m - 1);
        let prev = fan_prefix(ids, m - 1);
        assert forall|t: int| 0 <= t < m - 2 implies {
            &&& #[trigger] fan_prefix(ids, m)[3 * t] == ids[0]
            &&& fan_prefix(ids, m)[3 * t + 1] == ids[t + 1]
            &&& fan_prefix(ids, m)[3 * t + 2] == ids[t + 2]
        } by {
            if t < m - 3 {
                assert(prev[3 * t] == ids[0]);
            }
        }
    }
}

/// The fan triangles of a polygon with `n` corners, as positions in its
/// corner list: `(0, 1, 2), (0, 2, 3), ...`; none for fewer than three corners.
pub fn fan_corners(n: usize) -> (r: Vec<(usize, usize, usize)>)
    ensures
        r@.len() == if n >= 2 { n - 2 } else { 0 },
        forall|t: int| 0 <= t < r@.len() ==> #[trigger] r@[t] == (0usize, (t + 1) as usize, (t + 2) as usize),
{
    let mut r: Vec<(usize, usize, usize)> = Vec::new();
    let mut i: usize = 2;
    while i < n
        invariant
            2 <= i,
            i <= n || n < 2,
            n < 2 ==> i == 2,
            r@.len() == i - 2,
            forall|t: int| 0 <= t < r@.len() ==> #[trigger] r@[t] == (0usize, (t + 1) as usize, (t + 2) as usize),
        decreases n - i,
    {
        r.push((0, i - 1, i));
        i += 1;
    }
    r
}

/// Turns declared attributes and polygon faces into mesh objects and their
/// collision sets.
pub struct ModelFactory {
    pub raw_model_data: RawModelData,
    pub models: Vec<Model>,
    pub collision_data: Vec<CollisionData>,
}

impl ModelFactory {
    /// A factory with no attributes and no objects.
    pub fn new() -> (r: ModelFactory)
        ensures
            r.raw_model_data.positions().len() == 0,
            r.raw_model_data.normals().len() == 0,
            r.raw_model_data.tex_coords().len() == 0,
            r.models@.len() == 0,
            r.collision_data@.len() == 0,
    {
        ModelFactory { raw_model_data: RawModelData::new(), models: Vec::new(), collision_data: Vec::new() }
    }

    /// The vertex a corner stands for; `MalformedInput` where it refers to an
    /// attribute that was not declared.
    pub fn vertex_from_indices(&self, indices: &IndexSet) -> (r: Result<Vertex, ConvertError>)
        ensures
            match r {
                Ok(v) => resolves(self.raw_model_data, *indices) && v == resolve(self.raw_model_data, *indices),
                Err(e) => !resolves(self.raw_model_data, *indices) && e == ConvertError::MalformedInput,
            },
    {
        let position = match self.raw_model_data.get_raw_position(indices.position_index) {
            Some(p) => p,
            None => return Err(ConvertError::MalformedInput),
        };
        let normal = match self.raw_model_data.get_raw_normal(indices.normal_index) {
            Some(n) => n,
            None => return Err(ConvertError::MalformedInput),
        };
        let tex_coord = match self.raw_model_data.get_raw_tex_coord(indices.tex_coord_index) {
            Some(t) => t,
            None => return Err(ConvertError::MalformedInput),
        };
        Ok(Vertex::from_components(&position, &normal, &tex_coord))
    }

    /// The vertices the corners of a polygon stand for, in order;
    /// `MalformedInput` where one of them does not resolve.
    pub fn resolve_polygon(&self, index_sets: &Vec<IndexSet>) -> (r: Result<Vec<Vertex>, ConvertError>)
        ensures
            match r {
                Ok(vs) => (forall|i: int| 0 <= i < index_sets@.len() ==> resolves(self.raw_model_data, #[trigger] index_sets@[i]))
                    && vs@ == index_sets@.map_values(|s: IndexSet| resolve(self.raw_model_data, s)),
                Err(e) => (exists|i: int| 0 <= i < index_sets@.len() && !resolves(self.raw_model_data, #[trigger] index_sets@[i]))
                    && e == ConvertError::MalformedInput,
            },
    {
        let mut vs: Vec<Vertex> = Vec::new();
        let mut i: usize = 0;
        while i < index_sets.len()
            invariant
                i <= index_sets@.len(),
                forall|j: int| 0 <= j < i ==> resolves(self.raw_model_data, #[trigger] index_sets@[j]),
                vs@ == index_sets@.take(i as int).map_values(|s: IndexSet| resolve(self.raw_model_data, s)),
            decreases index_sets@.len() - i,
        {
            match self.vertex_from_indices(&index_sets[i]) {
                Ok(v) => {
                    vs.push(v);
                    assert(index_sets@.take(i as int + 1).map_values(|s: IndexSet| resolve(self.raw_model_data, s))
                        =~= index_sets@.take(i as int).map_values(|s: IndexSet| resolve(self.raw_model_data, s)).push(v));
                },
                Err(e) => {
                    assert(!resolves(self.raw_model_data, index_sets@[i as int]));
                    return Err(e);
                },
            }
            i += 1;
        }
        assert(index_sets@.take(i as int) == index_sets@);
        Ok(vs)
    }

    /// Adds one polygon face to `model`: each corner is deduplicated in order
    /// (see [`dedup_all`]) and the fan of their indices is appended as
    /// triangles. `MalformedInput` where a corner does not resolve;
    /// `CapacityExceeded` where the vertices or the triangles would not fit in
    /// the 16-bit index space. After an error the object is to be dropped.
    pub fn add_faces_for_index_sets(&self, index_sets: &Vec<IndexSet>, model: &mut Model) -> (r: Result<(), ConvertError>)
        requires
            old(model).wf(),
            index_sets@.len() >= 3,
        ensures
            final(model).wf(),
            final(model).name() == old(model).name(),
            (r == Err::<(), ConvertError>(ConvertError::MalformedInput)) <==> exists|i: int|
                0 <= i < index_sets@.len() && !resolves(self.raw_model_data, #[trigger] index_sets@[i]),
            (forall|i: int| 0 <= i < index_sets@.len() ==> resolves(self.raw_model_data, #[trigger] index_sets@[i]))
                ==> match dedup_all(self.raw_model_data, old(model).key_map(), old(model).interleaved_vertices@, index_sets@) {
                None => r == Err::<(), ConvertError>(ConvertError::CapacityExceeded),
                Some((ids, keys, vertices)) => if old(model).face_indices@.len() + 3 * (index_sets@.len() - 2) > 3 * INDEX_SPACE {
                    r == Err::<(), ConvertError>(ConvertError::CapacityExceeded)
                } else {
                    &&& r is Ok
                    &&& final(model).key_map() == keys
                    &&& final(model).interleaved_vertices@ == vertices
                    &&& final(model).face_indices@ == old(model).face_indices@ + fan(ids)
                },
            },
    {
        let resolved = self.resolve_polygon(index_sets);
        let vertices = match resolved {
            Ok(vs) => vs,
            Err(e) => return Err(e),
        };
        let n = index_sets.len();
        let ghost pool = self.raw_model_data;
        let ghost sets = index_sets@;
        let ghost k0 = model.key_map();
        let ghost v0 = model.interleaved_vertices@;
        let face_room = n as u64 - 2 <= INDEX_SPACE - (model.face_indices.len() / 3) as u64;
        assert(face_room == (old(model).face_indices@.len() + 3 * (n - 2) <= 3 * INDEX_SPACE));
        let mut ids: Vec<u16> = Vec::new();
        let mut i: usize = 0;
        while i < n
            invariant
                n == sets.len(),
                sets == index_sets@,
                pool == self.raw_model_data,
                i <= n,
                model.wf(),
                model.name() == old(model).name(),
                model.face_indices@ == old(model).face_indices@,
                vertices@ == sets.map_values(|s: IndexSet| resolve(pool, s)),
                forall|j: int| 0 <= j < n ==> resolves(pool, #[trigger] sets[j]),
                k0 == old(model).key_map(),
                v0 == old(model).interleaved_vertices@,
                ids@.len() == i,
                dedup_all(pool, k0, v0, sets.take(i as int)) == Some((ids@, model.key_map(), model.interleaved_vertices@)),
            decreases n - i,
        {
            let s = index_sets[i];
            assert(sets.take(i as int + 1).drop_last() == sets.take(i as int));
            assert(sets.take(i as int + 1).last() == s);
            assert(vertices@[i as int] == resolve(pool, s));
            match model.get_index(s.position_index as u64, s.normal_index as u64, s.tex_coord_index as u64, vertices[i]) {
                Ok(id) => {
                    ids.push(id);
                },
                Err(e) => {
                    proof {
                        assert(dedup_all(pool, k0, v0, sets.take(i as int + 1)) is None);
                        lemma_dedup_all_stays_none(pool, k0, v0, sets, i as int + 1);
                    }
                    return Err(e);
                },
            }
            i += 1;
        }
        assert(sets.take(n as int) == sets);
        if !face_room {
            return Err(ConvertError::CapacityExceeded);
        }
        let ghost faces0 = model.face_indices@;
        let mut m: usize = 2;
        while m < n
            invariant
                2 <= m <= n,
                ids@.len() == n,
                k0 == old(model).key_map(),
                v0 == old(model).interleaved_vertices@,
                model.wf(),
                model.name() == old(model).name(),
                dedup_all(pool, k0, v0, sets) == Some((ids@, model.key_map(), model.interleaved_vertices@)),
                faces0.len() + 3 * (n - 2) <= 3 * INDEX_SPACE,
                model.face_indices@ == faces0 + fan_prefix(ids@, m as int),
            decreases n - m,
        {
            proof {
                lemma_fan_prefix(ids@, m as int);
            }
            let r = model.add_face([ids[0], ids[m - 1], ids[m]]);
            assert(r is Ok);
            assert(model.face_indices@ =~= faces0 + fan_prefix(ids@, m as int + 1));
            m += 1;
        }
        Ok(())
    }

    /// Closes a mesh object: removes the repeated walls of its collision set
    /// (see [`CollisionData::remove_wall_duplicates`]), sets its extents, and
    /// stores the object and its collision set.
    pub fn finish_object(&mut self, model: Model, collision_data: CollisionData, duplicates: &Vec<Vec<bool>>)
        requires
            duplicates@.len() == collision_data.walls@.len(),
            forall|i: int| 0 <= i < duplicates@.len() ==> (#[trigger] duplicates@[i])@.len() == collision_data.walls@.len(),
        ensures
            final(self).raw_model_data == old(self).raw_model_data,
            final(self).models@ == old(self).models@.push(model),
            final(self).collision_data@.len() == old(self).collision_data@.len() + 1,
            final(self).collision_data@.drop_last() == old(self).collision_data@,
            ({
                let cd = final(self).collision_data@.last();
                let walls = without_repeats(collision_data.walls@, duplicates@);
                let pts = extent_points(collision_data.traction_surfaces@, collision_data.sliding_surfaces@, walls);
                let xs = pts.map_values(|p: Vec3| p.x);
                let ys = pts.map_values(|p: Vec3| p.y);
                let zs = pts.map_values(|p: Vec3| p.z);
                &&& cd.model_name == collision_data.model_name
                &&& cd.walls@ == walls
                &&& cd.traction_surfaces@ == collision_data.traction_surfaces@
                &&& cd.sliding_surfaces@ == collision_data.sliding_surfaces@
                &&& cd.extent_x@ == seq![running_min(0, xs), running_max(0, xs)]
                &&& cd.extent_y@ == seq![running_min(0, ys), running_max(0, ys)]
                &&& cd.extent_z@ == seq![running_min(0, zs), running_max(0, zs)]
            }),
    {
        let mut cd = collision_data;
        cd.remove_wall_duplicates(duplicates);
        cd.find_extents();
        self.models.push(model);
        self.collision_data.push(cd);
        assert(self.collision_data@.drop_last() =~= old(self).collision_data@);
    }
}

} // verus!