use vstd::prelude::*;
use crate::error::ConvertError;
use crate::geometry::{
    Vec3, vec3_at, vec3_bytes, holds_at, lemma_held_part, lemma_held_in_list, lemma_holds_back,
    lemma_holds_front, lemma_holds_within, lemma_u32_held, lemma_vec3_held, push_vec3, read_vec3,
};
use crate::wire::{concat_map, lemma_concat_map_len, lemma_concat_map_push, push_u32, read_u32, u32_at, u32_bytes};
use crate::scalar::{
    order_key, less_than, running_min, running_max, min_value, max_value, index_of_max, lemma_running_min_bounds,
    lemma_running_max_bounds,
};

verus! {

/// Bit pattern of -0.0873 rad (about -5 degrees), the lower bound of wall elevations.
pub const WALL_NORMAL_ELEVATION_MIN: u32 = 0xbdb2_ca58;
/// Bit pattern of 0.0873 rad (about 5 degrees), the upper bound of wall elevations.
pub const WALL_NORMAL_ELEVATION_MAX: u32 = 0x3db2_ca58;
/// Bit pattern of -0.6981 rad (about -40 degrees), the lower bound of sliding elevations.
pub const SLIDE_NORMAL_ELEVATION_MIN: u32 = 0xbf32_b6ae;
/// Bit pattern of 0.6981 rad (about 40 degrees), the upper bound of sliding elevations.
pub const SLIDE_NORMAL_ELEVATION_MAX: u32 = 0x3f32_b6ae;

/// A triangle of the collision set, with the average of its corners' normals.
#[derive(Clone, Copy, Debug, PartialEq, Eq, Structural)]
pub struct Surface {
    pub point_0: Vec3,
    pub point_1: Vec3,
    pub point_2: Vec3,
    pub normal: Vec3,
}

/// A rectangle standing upright, given by two opposite corners, with its
/// horizontal outward normal.
#[derive(Clone, Copy, Debug, PartialEq, Eq, Structural)]
pub struct Wall {
    pub bottom_left: Vec3,
    pub top_right: Vec3,
    pub normal: Vec3,
}

/// What a collision triangle becomes, by how far its normal rises from the
/// horizontal.
#[derive(Clone, Copy, Debug, PartialEq, Eq, Structural)]
pub enum SurfaceKind {
    Wall,
    Slide,
    Traction,
}

/// The kind of a triangle whose normal has elevation `elevation` (radians, as
/// a bit pattern): a wall strictly inside the wall range, else a sliding
/// surface strictly inside the sliding range, else a traction surface.
pub open spec fn kind_of(elevation: u32) -> SurfaceKind {
    if order_key(WALL_NORMAL_ELEVATION_MIN) < order_key(elevation) && order_key(elevation) < order_key(
        WALL_NORMAL_ELEVATION_MAX,
    ) {
        SurfaceKind::Wall
    } else if order_key(SLIDE_NORMAL_ELEVATION_MIN) < order_key(elevation) && order_key(elevation)
        < order_key(SLIDE_NORMAL_ELEVATION_MAX) {
        SurfaceKind::Slide
    } else {
        SurfaceKind::Traction
    }
}

/// Classifies a triangle by the elevation of its normal; see [`kind_of`].
pub fn classify_elevation(elevation: u32) -> (r: SurfaceKind)
    ensures
        r == kind_of(elevation),
{
    if less_than(WALL_NORMAL_ELEVATION_MIN, elevation) && less_than(elevation, WALL_NORMAL_ELEVATION_MAX) {
        SurfaceKind::Wall
    } else if less_than(SLIDE_NORMAL_ELEVATION_MIN, elevation) && less_than(elevation, SLIDE_NORMAL_ELEVATION_MAX) {
        SurfaceKind::Slide
    } else {
        SurfaceKind::Traction
    }
}

/// An elevation exactly at the upper wall bound is not a wall but a sliding surface.
pub proof fn lemma_wall_bound_is_slide()
    ensures
        kind_of(WALL_NORMAL_ELEVATION_MAX) == SurfaceKind::Slide,
        kind_of(WALL_NORMAL_ELEVATION_MIN) == SurfaceKind::Slide,
{
}

/// One fan triangle of a polygon, ready to be filed: the triangle, the
/// elevation of its normal, and the wall that stands for it if it is one.
#[derive(Clone, Copy, Debug, PartialEq, Eq, Structural)]
pub struct Candidate {
    pub surface: Surface,
    pub elevation: u32,
    pub wall: Wall,
}

/// A polygon of exactly two fan triangles, both in the wall range, becomes
/// one wall.
pub open spec fn merges_quad(c: Seq<Candidate>) -> bool {
    c.len() == 2 && kind_of(c[0].elevation) == SurfaceKind::Wall && kind_of(c[1].elevation) == SurfaceKind::Wall
}

/// The walls of the candidates in the wall range, in order.
pub open spec fn walls_of(c: Seq<Candidate>) -> Seq<Wall>
    decreases c.len(),
{
    if c.len() == 0 {
        Seq::empty()
    } else if kind_of(c.last().elevation) == SurfaceKind::Wall {
        walls_of(c.drop_last()).push(c.last().wall)
    } else {
        walls_of(c.drop_last())
    }
}

/// The surfaces of the candidates of kind `k`, in order.
pub open spec fn surfaces_of(c: Seq<Candidate>, k: SurfaceKind) -> Seq<Surface>
    decreases c.len(),
{
    if c.len() == 0 {
        Seq::empty()
    } else if kind_of(c.last().elevation) == k {
        surfaces_of(c.drop_last(), k).push(c.last().surface)
    } else {
        surfaces_of(c.drop_last(), k)
    }
}

/// Where every candidate is in the wall range, each gives its own wall.
pub proof fn lemma_all_walls_kept(c: Seq<Candidate>)
    requires
        forall|i: int| 0 <= i < c.len() ==> kind_of(#[trigger] c[i].elevation) == SurfaceKind::Wall,
    ensures
        walls_of(c) == c.map_values(|x: Candidate| x.wall),
        surfaces_of(c, SurfaceKind::Slide).len() == 0,
        surfaces_of(c, SurfaceKind::Traction).len() == 0,
    decreases c.len(),
{
    if c.len() > 0 {
        assert(kind_of(c[c.len() - 1].elevation) == SurfaceKind::Wall);
        lemma_all_walls_kept(c.drop_last());
        assert(c.map_values(|x: Candidate| x.wall) =~= c.drop_last().map_values(|x: Candidate| x.wall).push(
            c.last().wall,
        ));
    }
}

/// A quadrilateral whose two fan triangles are both in the wall range gives
/// exactly one wall, the merged one; a polygon of three or more fan triangles
/// all in the wall range gives one wall per triangle and nothing else.
pub proof fn lemma_quad_merge(c: Seq<Candidate>)
    requires
        forall|i: int| 0 <= i < c.len() ==> kind_of(#[trigger] c[i].elevation) == SurfaceKind::Wall,
    ensures
        c.len() == 2 ==> merges_quad(c),
        c.len() != 2 ==> !merges_quad(c) && walls_of(c).len() == c.len(),
{
    lemma_all_walls_kept(c);
    if c.len() == 2 {
        assert(kind_of(c[0].elevation) == SurfaceKind::Wall);
        assert(kind_of(c[1].elevation) == SurfaceKind::Wall);
    }
}

/// The four corners of a quadrilateral split into the fan triangles `first`
/// and `second`: the first two corners of `first`, then the last two of
/// `second`.
pub fn quad_corners(first: &Surface, second: &Surface) -> (r: Vec<Vec3>)
    ensures
        r@ == seq![first.point_0, first.point_1, second.point_1, second.point_2],
{
    let mut r: Vec<Vec3> = Vec::new();
    r.push(first.point_0);
    r.push(first.point_1);
    r.push(second.point_1);
    r.push(second.point_2);
    assert(r@ =~= seq![first.point_0, first.point_1, second.point_1, second.point_2]);
    r
}

/// Bottom-left and top-right corners of the wall standing for `points`:
/// the point furthest along the left direction (`left_dots[i]` is point `i`'s
/// dot product with it; the first of equals wins), lowered to the lowest
/// height among the points, and the point furthest along the right direction,
/// raised to the highest height.
pub open spec fn wall_corners_spec(points: Seq<Vec3>, left: int, right: int) -> (Vec3, Vec3) {
    let heights = points.map_values(|p: Vec3| p.y);
    (
        Vec3 { y: running_min(heights[0], heights.drop_first()), ..points[left] },
        Vec3 { y: running_max(heights[0], heights.drop_first()), ..points[right] },
    )
}

/// The first index of a greatest element, by float order.
pub open spec fn is_first_max(values: Seq<u32>, r: int) -> bool {
    &&& 0 <= r < values.len()
    &&& forall|j: int| 0 <= j < values.len() ==> order_key(#[trigger] values[j]) <= order_key(values[r])
    &&& forall|j: int| 0 <= j < r ==> order_key(#[trigger] values[j]) < order_key(values[r])
}

/// Chooses the corners of a wall from its points and their dot products with
/// the left and right directions; see [`wall_corners_spec`].
pub fn wall_corners(points: &[Vec3], left_dots: &[u32], right_dots: &[u32]) -> (r: (Vec3, Vec3))
    requires
        points@.len() > 0,
        left_dots@.len() == points@.len(),
        right_dots@.len() == points@.len(),
    ensures
        exists|left: int, right: int|
            is_first_max(left_dots@, left) && is_first_max(right_dots@, right) && r == wall_corners_spec(
                points@,
                left,
                right,
            ),
{
    let left = index_of_max(left_dots);
    let right = index_of_max(right_dots);
    let mut heights: Vec<u32> = Vec::new();
    let mut i: usize = 1;
    while i < points.len()
        invariant
            1 <= i <= points@.len(),
            heights@ == points@.map_values(|p: Vec3| p.y).subrange(1, i as int),
        decreases points@.len() - i,
    {
        heights.push(points[i].y);
        assert(points@.map_values(|p: Vec3| p.y).subrange(1, i as int + 1) =~= points@.map_values(|p: Vec3| p.y).subrange(1, i as int).push(points@[i as int].y));
        i += 1;
    }
    assert(heights@ =~= points@.map_values(|p: Vec3| p.y).drop_first());
    let low = min_value(points[0].y, heights.as_slice());
    let high = max_value(points[0].y, heights.as_slice());
    let bottom_left = Vec3 { y: low, ..points[left] };
    let top_right = Vec3 { y: high, ..points[right] };
    assert(is_first_max(left_dots@, left as int));
    assert(is_first_max(right_dots@, right as int));
    assert(points@.map_values(|p: Vec3| p.y)[0] == points@[0].y);
    assert((bottom_left, top_right) == wall_corners_spec(points@, left as int, right as int));
    (bottom_left, top_right)
}


/// The collision set of one mesh object.
pub struct CollisionData {
    pub model_name: String,
    pub extent_x: [u32; 2],
    pub extent_y: [u32; 2],
    pub extent_z: [u32; 2],
    pub traction_surfaces: Vec<Surface>,
    pub sliding_surfaces: Vec<Surface>,
    pub walls: Vec<Wall>,
}

/// The corners of the surfaces, three per surface, in order.
pub open spec fn surface_points(s: Seq<Surface>) -> Seq<Vec3>
    decreases s.len(),
{
    if s.len() == 0 {
        Seq::empty()
    } else {
        surface_points(s.drop_last()) + seq![s.last().point_0, s.last().point_1, s.last().point_2]
    }
}

/// The points the extents are taken over: every corner of the traction and
/// sliding surfaces, and the bottom-left corner of each wall (its top-right
/// corner is not among them).
pub open spec fn extent_points(traction: Seq<Surface>, sliding: Seq<Surface>, walls: Seq<Wall>) -> Seq<Vec3> {
    surface_points(traction) + surface_points(sliding) + walls.map_values(|w: Wall| w.bottom_left)
}

/// Wall `j` repeats an earlier one: `duplicates[i][j]` holds for some `i < j`.
pub open spec fn repeats_earlier(duplicates: Seq<Vec<bool>>, j: int) -> bool {
    exists|i: int| 0 <= i < j && (#[trigger] duplicates[i])@[j]
}

/// The walls that repeat no earlier wall, in order.
pub open spec fn without_repeats(walls: Seq<Wall>, duplicates: Seq<Vec<bool>>) -> Seq<Wall>
    decreases walls.len(),
{
    if walls.len() == 0 {
        Seq::empty()
    } else if repeats_earlier(duplicates, walls.len() - 1) {
        without_repeats(walls.drop_last(), duplicates)
    } else {
        without_repeats(walls.drop_last(), duplicates).push(walls.last())
    }
}

/// Of two walls that are duplicates, only the earlier stays.
pub proof fn lemma_duplicate_pair_collapses(a: Wall, b: Wall, duplicates: Seq<Vec<bool>>)
    requires
        duplicates.len() == 2,
        duplicates[0]@.len() == 2,
        duplicates[0]@[1],
    ensures
        without_repeats(seq![a, b], duplicates) == seq![a],
{
    let w = seq![a, b];
    assert(repeats_earlier(duplicates, 1));
    assert(!repeats_earlier(duplicates, 0));
    assert(w.drop_last() == seq![a]);
    assert(seq![a].drop_last() == Seq::<Wall>::empty());
    assert(without_repeats(Seq::<Wall>::empty(), duplicates) == Seq::<Wall>::empty());
    assert(seq![a].last() == a);
    assert(without_repeats(seq![a], duplicates) == Seq::<Wall>::empty().push(a));
    assert(Seq::<Wall>::empty().push(a) == seq![a]);
}

impl CollisionData {
    /// An empty collision set named `model_name`, all extents zero.
    pub fn new(model_name: String) -> (r: CollisionData)
        ensures
            r.model_name == model_name,
            r.extent_x@ == seq![0u32, 0u32],
            r.extent_y@ == seq![0u32, 0u32],
            r.extent_z@ == seq![0u32, 0u32],
            r.traction_surfaces@ == Seq::<Surface>::empty(),
            r.sliding_surfaces@ == Seq::<Surface>::empty(),
            r.walls@ == Seq::<Wall>::empty(),
    {
        let r = CollisionData {
            model_name: model_name,
            extent_x: [0, 0],
            extent_y: [0, 0],
            extent_z: [0, 0],
            traction_surfaces: Vec::new(),
            sliding_surfaces: Vec::new(),
            walls: Vec::new(),
        };
        assert(r.extent_x@ =~= seq![0u32, 0u32]);
        assert(r.extent_y@ =~= seq![0u32, 0u32]);
        assert(r.extent_z@ =~= seq![0u32, 0u32]);
        r
    }

    /// The name of the object this set belongs to.
    pub fn get_model_name(&self) -> (r: &String)
        ensures
            *r == self.model_name,
    {
        &self.model_name
    }

    /// Files the fan triangles of one polygon. Where they merge into a quad
    /// (see [`merges_quad`]) `quad_wall` alone is added; otherwise each
    /// triangle goes, in order, to the walls (as its wall), the sliding
    /// surfaces or the traction surfaces, by the kind of its elevation.
    pub fn add_polygon(&mut self, candidates: &Vec<Candidate>, quad_wall: Option<Wall>)
        requires
            merges_quad(candidates@) ==> quad_wall is Some,
        ensures
            final(self).model_name == old(self).model_name,
            final(self).extent_x == old(self).extent_x,
            final(self).extent_y == old(self).extent_y,
            final(self).extent_z == old(self).extent_z,
            merges_quad(candidates@) ==> {
                &&& final(self).walls@ == old(self).walls@.push(quad_wall->Some_0)
                &&& final(self).sliding_surfaces@ == old(self).sliding_surfaces@
                &&& final(self).traction_surfaces@ == old(self).traction_surfaces@
            },
            !merges_quad(candidates@) ==> {
                &&& final(self).walls@ == old(self).walls@ + walls_of(candidates@)
                &&& final(self).sliding_surfaces@ == old(self).sliding_surfaces@ + surfaces_of(
                    candidates@,
                    SurfaceKind::Slide,
                )
                &&& final(self).traction_surfaces@ == old(self).traction_surfaces@ + surfaces_of(
                    candidates@,
                    SurfaceKind::Traction,
                )
            },
    {
        if candidates.len() == 2 {
            let k0 = classify_elevation(candidates[0].elevation);
            let k1 = classify_elevation(candidates[1].elevation);
            if k0 == SurfaceKind::Wall && k1 == SurfaceKind::Wall {
                match quad_wall {
                    Some(w) => self.walls.push(w),
                    None => {},
                }
                return;
            }
        }
        let mut i: usize = 0;
        while i < candidates.len()
            invariant
                i <= candidates@.len(),
                self.model_name == old(self).model_name,
                self.extent_x == old(self).extent_x,
                self.extent_y == old(self).extent_y,
                self.extent_z == old(self).extent_z,
                self.walls@ == old(self).walls@ + walls_of(candidates@.take(i as int)),
                self.sliding_surfaces@ == old(self).sliding_surfaces@ + surfaces_of(
                    candidates@.take(i as int),
                    SurfaceKind::Slide,
                ),
                self.traction_surfaces@ == old(self).traction_surfaces@ + surfaces_of(
                    candidates@.take(i as int),
                    SurfaceKind::Traction,
                ),
            decreases candidates@.len() - i,
        {
            let c = &candidates[i];
            let ghost t = candidates@.take(i as int + 1);
            assert(t.drop_last() == candidates@.take(i as int));
            assert(t.last() == candidates@[i as int]);
            match classify_elevation(c.elevation) {
                SurfaceKind::Wall => {
                    self.walls.push(c.wall);
                    assert(self.walls@ =~= old(self).walls@ + walls_of(t));
                },
                SurfaceKind::Slide => {
                    self.sliding_surfaces.push(c.surface);
                    assert(self.sliding_surfaces@ =~= old(self).sliding_surfaces@ + surfaces_of(t, SurfaceKind::Slide));
                },
                SurfaceKind::Traction => {
                    self.traction_surfaces.push(c.surface);
                    assert(self.traction_surfaces@ =~= old(self).traction_surfaces@ + surfaces_of(t, SurfaceKind::Traction));
                },
            }
            i += 1;
        }
        assert(candidates@.take(i as int) == candidates@);
    }

    /// Removes every wall that repeats an earlier one; `duplicates[i][j]`, for
    /// `i < j`, says whether wall `j` lies within tolerance of wall `i`. The
    /// walls left are [`without_repeats`], in their order.
    pub fn remove_wall_duplicates(&mut self, duplicates: &Vec<Vec<bool>>)
        requires
            duplicates@.len() == old(self).walls@.len(),
            forall|i: int| 0 <= i < duplicates@.len() ==> (#[trigger] duplicates@[i])@.len() == old(self).walls@.len(),
        ensures
            final(self).walls@ == without_repeats(old(self).walls@, duplicates@),
            final(self).model_name == old(self).model_name,
            final(self).extent_x == old(self).extent_x,
            final(self).extent_y == old(self).extent_y,
            final(self).extent_z == old(self).extent_z,
            final(self).traction_surfaces@ == old(self).traction_surfaces@,
            final(self).sliding_surfaces@ == old(self).sliding_surfaces@,
    {
        let n = self.walls.len();
        let mut kept: Vec<Wall> = Vec::new();
        let mut j: usize = 0;
        while j < n
            invariant
                n == self.walls@.len(),
                self.walls@ == old(self).walls@,
                j <= n,
                kept@ == without_repeats(self.walls@.take(j as int), duplicates@),
                duplicates@.len() == n,
                forall|i: int| 0 <= i < duplicates@.len() ==> (#[trigger] duplicates@[i])@.len() == n,
            decreases n - j,
        {
            let mut repeated = false;
            let mut i: usize = 0;
            while i < j
                invariant
                    i <= j,
                    j < n,
                    duplicates@.len() == n,
                    forall|k: int| 0 <= k < duplicates@.len() ==> (#[trigger] duplicates@[k])@.len() == n,
                    repeated == exists|k: int| 0 <= k < i && (#[trigger] duplicates@[k])@[j as int],
                decreases j - i,
            {
                if duplicates[i][j] {
                    repeated = true;
                }
                i += 1;
            }
            let ghost t = self.walls@.take(j as int + 1);
            assert(t.drop_last() == self.walls@.take(j as int));
            assert(t.last() == self.walls@[j as int]);
            if !repeated {
                kept.push(self.walls[j]);
            }
            j += 1;
        }
        assert(self.walls@.take(n as int) == self.walls@);
        self.walls = kept;
    }

    /// Sets the extents: per axis, the running minimum and maximum, both
    /// seeded at zero, over [`extent_points`].
    pub fn find_extents(&mut self)
        ensures
            ({
                let pts = extent_points(old(self).traction_surfaces@, old(self).sliding_surfaces@, old(self).walls@);
                let xs = pts.map_values(|p: Vec3| p.x);
                let ys = pts.map_values(|p: Vec3| p.y);
                let zs = pts.map_values(|p: Vec3| p.z);
                &&& final(self).extent_x@ == seq![running_min(0, xs), running_max(0, xs)]
                &&& final(self).extent_y@ == seq![running_min(0, ys), running_max(0, ys)]
                &&& final(self).extent_z@ == seq![running_min(0, zs), running_max(0, zs)]
            }),
            ({
                let pts = extent_points(old(self).traction_surfaces@, old(self).sliding_surfaces@, old(self).walls@);
                &&& order_key(final(self).extent_x[0]) <= 0 <= order_key(final(self).extent_x[1])
                &&& order_key(final(self).extent_y[0]) <= 0 <= order_key(final(self).extent_y[1])
                &&& order_key(final(self).extent_z[0]) <= 0 <= order_key(final(self).extent_z[1])
                &&& forall|i: int| 0 <= i < pts.len() ==> {
                    &&& order_key(final(self).extent_x[0]) <= order_key(#[trigger] pts[i].x) <= order_key(final(self).extent_x[1])
                    &&& order_key(final(self).extent_y[0]) <= order_key(pts[i].y) <= order_key(final(self).extent_y[1])
                    &&& order_key(final(self).extent_z[0]) <= order_key(pts[i].z) <= order_key(final(self).extent_z[1])
                }
            }),
            final(self).model_name == old(self).model_name,
            final(self).traction_surfaces@ == old(self).traction_surfaces@,
            final(self).sliding_surfaces@ == old(self).sliding_surfaces@,
            final(self).walls@ == old(self).walls@,
    {
        let mut pts: Vec<Vec3> = Vec::new();
        append_surface_points(&mut pts, &self.traction_surfaces);
        append_surface_points(&mut pts, &self.sliding_surfaces);
        let mut i: usize = 0;
        let ghost head = pts@;
        while i < self.walls.len()
            invariant
                i <= self.walls@.len(),
                pts@ == head + self.walls@.take(i as int).map_values(|w: Wall| w.bottom_left),
            decreases self.walls@.len() - i,
        {
            pts.push(self.walls[i].bottom_left);
            assert(self.walls@.take(i as int + 1).map_values(|w: Wall| w.bottom_left) =~= self.walls@.take(
                i as int,
            ).map_values(|w: Wall| w.bottom_left).push(self.walls@[i as int].bottom_left));
            i += 1;
        }
        assert(self.walls@.take(i as int) == self.walls@);
        assert(pts@ =~= extent_points(self.traction_surfaces@, self.sliding_surfaces@, self.walls@));
        let mut xs: Vec<u32> = Vec::new();
        let mut ys: Vec<u32> = Vec::new();
        let mut zs: Vec<u32> = Vec::new();
        let mut k: usize = 0;
        while k < pts.len()
            invariant
                k <= pts@.len(),
                xs@ == pts@.take(k as int).map_values(|p: Vec3| p.x),
                ys@ == pts@.take(k as int).map_values(|p: Vec3| p.y),
                zs@ == pts@.take(k as int).map_values(|p: Vec3| p.z),
            decreases pts@.len() - k,
        {
            xs.push(pts[k].x);
            ys.push(pts[k].y);
            zs.push(pts[k].z);
            assert(pts@.take(k as int + 1) == pts@.take(k as int).push(pts@[k as int]));
            assert(xs@ =~= pts@.take(k as int + 1).map_values(|p: Vec3| p.x));
            assert(ys@ =~= pts@.take(k as int + 1).map_values(|p: Vec3| p.y));
            assert(zs@ =~= pts@.take(k as int + 1).map_values(|p: Vec3| p.z));
            k += 1;
        }
        assert(pts@.take(k as int) == pts@);
        self.extent_x = [min_value(0, xs.as_slice()), max_value(0, xs.as_slice())];
        self.extent_y = [min_value(0, ys.as_slice()), max_value(0, ys.as_slice())];
        self.extent_z = [min_value(0, zs.as_slice()), max_value(0, zs.as_slice())];
        assert(self.extent_x@ =~= seq![self.extent_x[0], self.extent_x[1]]);
        assert(self.extent_y@ =~= seq![self.extent_y[0], self.extent_y[1]]);
        assert(self.extent_z@ =~= seq![self.extent_z[0], self.extent_z[1]]);
        proof {
            lemma_running_min_bounds(0, xs@);
            lemma_running_max_bounds(0, xs@);
            lemma_running_min_bounds(0, ys@);
            lemma_running_max_bounds(0, ys@);
            lemma_running_min_bounds(0, zs@);
            lemma_running_max_bounds(0, zs@);
            assert forall|i: int| 0 <= i < pts@.len() implies {
                &&& order_key(self.extent_x[0]) <= order_key(#[trigger] pts@[i].x) <= order_key(self.extent_x[1])
                &&& order_key(self.extent_y[0]) <= order_key(pts@[i].y) <= order_key(self.extent_y[1])
                &&& order_key(self.extent_z[0]) <= order_key(pts@[i].z) <= order_key(self.extent_z[1])
            } by {
                assert(xs@[i] == pts@[i].x);
                assert(ys@[i] == pts@[i].y);
                assert(zs@[i] == pts@[i].z);
            }
        }
    }
}

/// Appends the corners of `surfaces` to `pts`, three per surface.
fn append_surface_points(pts: &mut Vec<Vec3>, surfaces: &Vec<Surface>)
    ensures
        final(pts)@ == old(pts)@ + surface_points(surfaces@),
{
    let mut i: usize = 0;
    while i < surfaces.len()
        invariant
            i <= surfaces@.len(),
            pts@ == old(pts)@ + surface_points(surfaces@.take(i as int)),
        decreases surfaces@.len() - i,
    {
        let s = surfaces[i];
        pts.push(s.point_0);
        pts.push(s.point_1);
        pts.push(s.point_2);
        let ghost t = surfaces@.take(i as int + 1);
        assert(t.drop_last() == surfaces@.take(i as int));
        assert(pts@ =~= old(pts)@ + surface_points(t));
        i += 1;
    }
    assert(surfaces@.take(i as int) == surfaces@);
}


/// The 48 bytes of a surface: its three corners, then its normal.
pub open spec fn surface_bytes(s: Surface) -> Seq<u8> {
    vec3_bytes(s.point_0) + vec3_bytes(s.point_1) + vec3_bytes(s.point_2) + vec3_bytes(s.normal)
}

/// The 36 bytes of a wall: bottom-left corner, top-right corner, normal.
pub open spec fn wall_bytes(w: Wall) -> Seq<u8> {
    vec3_bytes(w.bottom_left) + vec3_bytes(w.top_right) + vec3_bytes(w.normal)
}

/// The surface stored at `b[i..i + 48]`.
pub open spec fn surface_at(b: Seq<u8>, i: int) -> Surface {
    Surface { point_0: vec3_at(b, i), point_1: vec3_at(b, i + 12), point_2: vec3_at(b, i + 24), normal: vec3_at(b, i + 36) }
}

/// The wall stored at `b[i..i + 36]`.
pub open spec fn wall_at(b: Seq<u8>, i: int) -> Wall {
    Wall { bottom_left: vec3_at(b, i), top_right: vec3_at(b, i + 12), normal: vec3_at(b, i + 24) }
}

/// The bytes of a list of surfaces, one after another.
pub open spec fn surfaces_bytes(s: Seq<Surface>) -> Seq<u8> {
    concat_map(s, |x: Surface| surface_bytes(x))
}

/// The bytes of a list of walls, one after another.
pub open spec fn walls_bytes(w: Seq<Wall>) -> Seq<u8> {
    concat_map(w, |x: Wall| wall_bytes(x))
}

/// The six extents in file order: x min, x max, y min, y max, z min, z max.
pub open spec fn extents_of(cd: CollisionData) -> Seq<u32> {
    cd.extent_x@ + cd.extent_y@ + cd.extent_z@
}

/// The 28 bytes that open a collision file: the version, then the six extents.
pub open spec fn header_bytes(version: u32, e: Seq<u32>) -> Seq<u8> {
    u32_bytes(version) + u32_bytes(e[0]) + u32_bytes(e[1]) + u32_bytes(e[2]) + u32_bytes(e[3]) + u32_bytes(e[4])
        + u32_bytes(e[5])
}

/// A list of surfaces after its count.
pub open spec fn counted_surfaces(t: Seq<Surface>) -> Seq<u8> {
    u32_bytes(t.len() as u32) + surfaces_bytes(t)
}

/// A list of walls after its count.
pub open spec fn counted_walls(w: Seq<Wall>) -> Seq<u8> {
    u32_bytes(w.len() as u32) + walls_bytes(w)
}

/// The collision layout: version, six extents, then the traction surfaces,
/// the sliding surfaces and the walls, each list after its count; every
/// number least significant byte first.
pub open spec fn collision_bytes(version: u32, e: Seq<u32>, t: Seq<Surface>, s: Seq<Surface>, w: Seq<Wall>) -> Seq<u8> {
    header_bytes(version, e) + (counted_surfaces(t) + (counted_surfaces(s) + counted_walls(w)))
}

/// What a collision file holds, read by its layout: the six extents, the
/// traction surfaces, the sliding surfaces and the walls. `VersionMismatch`
/// where the version field is not `version`, `MalformedInput` where the
/// length does not match the counts exactly.
pub open spec fn decode_collisions(b: Seq<u8>, version: u32) -> Result<(Seq<u32>, Seq<Surface>, Seq<Surface>, Seq<Wall>), ConvertError> {
    if b.len() < 4 {
        Err(ConvertError::MalformedInput)
    } else if u32_at(b, 0) != version {
        Err(ConvertError::VersionMismatch)
    } else if b.len() < 32 {
        Err(ConvertError::MalformedInput)
    } else {
        let nt = u32_at(b, 28) as int;
        let o2 = 32 + 48 * nt;
        if b.len() < o2 + 4 {
            Err(ConvertError::MalformedInput)
        } else {
            let ns = u32_at(b, o2) as int;
            let o3 = o2 + 4 + 48 * ns;
            if b.len() < o3 + 4 {
                Err(ConvertError::MalformedInput)
            } else {
                let nw = u32_at(b, o3) as int;
                if b.len() != o3 + 4 + 36 * nw {
                    Err(ConvertError::MalformedInput)
                } else {
                    Ok(
                        (
                            Seq::new(6, |k: int| u32_at(b, 4 + 4 * k)),
                            Seq::new(nt as nat, |k: int| surface_at(b, 32 + 48 * k)),
                            Seq::new(ns as nat, |k: int| surface_at(b, o2 + 4 + 48 * k)),
                            Seq::new(nw as nat, |k: int| wall_at(b, o3 + 4 + 36 * k)),
                        ),
                    )
                }
            }
        }
    }
}

/// A file whose fields read as the given values decodes to them.
proof fn lemma_decode_collisions_from(b: Seq<u8>, version: u32, e: Seq<u32>, t: Seq<Surface>, s: Seq<Surface>, w: Seq<Wall>)
    requires
        u32_at(b, 0) == version,
        u32_at(b, 28) == t.len(),
        u32_at(b, 32 + 48 * (t.len() as int)) == s.len(),
        u32_at(b, 32 + 48 * (t.len() as int) + 4 + 48 * (s.len() as int)) == w.len(),
        b.len() == 32 + 48 * (t.len() as int) + 4 + 48 * (s.len() as int) + 4 + 36 * (w.len() as int),
        Seq::new(6, |k: int| u32_at(b, 4 + 4 * k)) == e,
        Seq::new(t.len(), |k: int| surface_at(b, 32 + 48 * k)) == t,
        Seq::new(s.len(), |k: int| surface_at(b, 32 + 48 * (t.len() as int) + 4 + 48 * k)) == s,
        Seq::new(w.len(), |k: int| wall_at(b, 32 + 48 * (t.len() as int) + 4 + 48 * (s.len() as int) + 4 + 36 * k)) == w,
    ensures
        decode_collisions(b, version) == Ok::<(Seq<u32>, Seq<Surface>, Seq<Surface>, Seq<Wall>), ConvertError>(
            (e, t, s, w),
        ),
{
}

/// The version and the extents are read back from the front of a file.
proof fn lemma_header_held(b: Seq<u8>, version: u32, e: Seq<u32>)
    requires
        e.len() == 6,
        holds_at(b, 0, header_bytes(version, e)),
    ensures
        u32_at(b, 0) == version,
        forall|k: int| 0 <= k < 6 ==> u32_at(b, 4 + 4 * k) == e[k],
{
    let h = header_bytes(version, e);
    reveal(holds_at);
    assert forall|k: int| 0 <= k < 6 implies u32_at(b, 4 + 4 * k) == e[k] by {
        assert(holds_at(h, 4 + 4 * k, u32_bytes(e[k])));
        lemma_holds_within(b, 0, h, 4 + 4 * k, u32_bytes(e[k]));
        lemma_u32_held(b, 4 + 4 * k, e[k]);
    }
    assert(holds_at(h, 0, u32_bytes(version)));
    lemma_holds_within(b, 0, h, 0, u32_bytes(version));
    lemma_u32_held(b, 0, version);
}

/// Surfaces are read back from wherever their bytes stand.
proof fn lemma_surfaces_decoded(b: Seq<u8>, off: int, t: Seq<Surface>)
    requires
        holds_at(b, off, surfaces_bytes(t)),
    ensures
        Seq::new(t.len(), |k: int| surface_at(b, off + 48 * k)) == t,
{
    let sf = |x: Surface| surface_bytes(x);
    let d = Seq::new(t.len(), |k: int| surface_at(b, off + 48 * k));
    assert forall|k: int| 0 <= k < t.len() implies d[k] == t[k] by {
        lemma_held_in_list(b, off, t, sf, 48, k);
        lemma_surface_held(b, off + k * 48, t[k]);
        assert(off + k * 48 == off + 48 * k);
    }
    assert(d =~= t);
}

/// Walls are read back from wherever their bytes stand.
proof fn lemma_walls_decoded(b: Seq<u8>, off: int, w: Seq<Wall>)
    requires
        holds_at(b, off, walls_bytes(w)),
    ensures
        Seq::new(w.len(), |k: int| wall_at(b, off + 36 * k)) == w,
{
    let wf = |x: Wall| wall_bytes(x);
    let d = Seq::new(w.len(), |k: int| wall_at(b, off + 36 * k));
    assert forall|k: int| 0 <= k < w.len() implies d[k] == w[k] by {
        lemma_held_in_list(b, off, w, wf, 36, k);
        lemma_wall_held(b, off + k * 36, w[k]);
        assert(off + k * 36 == off + 36 * k);
    }
    assert(d =~= w);
}

/// A surface is read back from wherever its bytes stand.
proof fn lemma_surface_held(b: Seq<u8>, off: int, s: Surface)
    requires
        holds_at(b, off, surface_bytes(s)),
    ensures
        surface_at(b, off) == s,
{
    let e = surface_bytes(s);
    lemma_held_part(b, off, e, 0, 12);
    lemma_held_part(b, off, e, 12, 12);
    lemma_held_part(b, off, e, 24, 12);
    lemma_held_part(b, off, e, 36, 12);
    assert(e.subrange(0, 12) =~= vec3_bytes(s.point_0));
    assert(e.subrange(12, 24) =~= vec3_bytes(s.point_1));
    assert(e.subrange(24, 36) =~= vec3_bytes(s.point_2));
    assert(e.subrange(36, 48) =~= vec3_bytes(s.normal));
    lemma_vec3_held(b, off, s.point_0);
    lemma_vec3_held(b, off + 12, s.point_1);
    lemma_vec3_held(b, off + 24, s.point_2);
    lemma_vec3_held(b, off + 36, s.normal);
}

/// A wall is read back from wherever its bytes stand.
proof fn lemma_wall_held(b: Seq<u8>, off: int, w: Wall)
    requires
        holds_at(b, off, wall_bytes(w)),
    ensures
        wall_at(b, off) == w,
{
    let e = wall_bytes(w);
    lemma_held_part(b, off, e, 0, 12);
    lemma_held_part(b, off, e, 12, 12);
    lemma_held_part(b, off, e, 24, 12);
    assert(e.subrange(0, 12) =~= vec3_bytes(w.bottom_left));
    assert(e.subrange(12, 24) =~= vec3_bytes(w.top_right));
    assert(e.subrange(24, 36) =~= vec3_bytes(w.normal));
    lemma_vec3_held(b, off, w.bottom_left);
    lemma_vec3_held(b, off + 12, w.top_right);
    lemma_vec3_held(b, off + 24, w.normal);
}

/// Decoding what was encoded gives back the same extents, surfaces and walls,
/// for a version and lists whose lengths fit in 32 bits.
pub proof fn lemma_collision_round_trip(version: u32, e: Seq<u32>, t: Seq<Surface>, s: Seq<Surface>, w: Seq<Wall>)
    requires
        e.len() == 6,
        t.len() <= u32::MAX,
        s.len() <= u32::MAX,
        w.len() <= u32::MAX,
    ensures
        decode_collisions(collision_bytes(version, e, t, s, w), version) == Ok::<
            (Seq<u32>, Seq<Surface>, Seq<Surface>, Seq<Wall>),
            ConvertError,
        >((e, t, s, w)),
{
    let b = collision_bytes(version, e, t, s, w);
    lemma_collision_layout(version, e, t, s, w);
    let o2: int = 32 + 48 * (t.len() as int);
    let o3: int = o2 + 4 + 48 * (s.len() as int);
    lemma_u32_held(b, 28, t.len() as u32);
    lemma_u32_held(b, o2, s.len() as u32);
    lemma_u32_held(b, o3, w.len() as u32);
    lemma_header_held(b, version, e);
    let de = Seq::new(6, |k: int| u32_at(b, 4 + 4 * k));
    lemma_surfaces_decoded(b, 32, t);
    lemma_surfaces_decoded(b, o2 + 4, s);
    lemma_walls_decoded(b, o3 + 4, w);
    assert(de =~= e);
    lemma_decode_collisions_from(b, version, e, t, s, w);
}

/// Where each part of a collision file stands.
proof fn lemma_collision_layout(version: u32, e: Seq<u32>, t: Seq<Surface>, s: Seq<Surface>, w: Seq<Wall>)
    requires
        e.len() == 6,
    ensures
        ({
            let b = collision_bytes(version, e, t, s, w);
            let o2: int = 32 + 48 * (t.len() as int);
            let o3: int = o2 + 4 + 48 * (s.len() as int);
            &&& b.len() == o3 + 4 + 36 * (w.len() as int)
            &&& holds_at(b, 0, header_bytes(version, e))
            &&& holds_at(b, 28, u32_bytes(t.len() as u32))
            &&& holds_at(b, 32, surfaces_bytes(t))
            &&& holds_at(b, o2, u32_bytes(s.len() as u32))
            &&& holds_at(b, o2 + 4, surfaces_bytes(s))
            &&& holds_at(b, o3, u32_bytes(w.len() as u32))
            &&& holds_at(b, o3 + 4, walls_bytes(w))
        }),
{
    let b = collision_bytes(version, e, t, s, w);
    let sf = |x: Surface| surface_bytes(x);
    let wf = |x: Wall| wall_bytes(x);
    lemma_concat_map_len(t, sf, 48);
    lemma_concat_map_len(s, sf, 48);
    lemma_concat_map_len(w, wf, 36);
    let h = header_bytes(version, e);
    let ct = counted_surfaces(t);
    let cs = counted_surfaces(s);
    let cw = counted_walls(w);
    let r1 = ct + (cs + cw);
    let r2 = cs + cw;
    let o2: int = 32 + 48 * (t.len() as int);
    let o3: int = o2 + 4 + 48 * (s.len() as int);
    assert(h.len() == 28);
    lemma_holds_front(h, r1);
    lemma_holds_back(h, r1);
    lemma_holds_front(ct, r2);
    lemma_holds_back(ct, r2);
    lemma_holds_within(b, 28, r1, 0, ct);
    lemma_holds_within(b, 28, r1, ct.len() as int, r2);
    lemma_holds_front(cs, cw);
    lemma_holds_back(cs, cw);
    lemma_holds_within(b, o2, r2, 0, cs);
    lemma_holds_within(b, o2, r2, cs.len() as int, cw);
    lemma_holds_front(u32_bytes(t.len() as u32), surfaces_bytes(t));
    lemma_holds_back(u32_bytes(t.len() as u32), surfaces_bytes(t));
    lemma_holds_within(b, 28, ct, 0, u32_bytes(t.len() as u32));
    lemma_holds_within(b, 28, ct, 4, surfaces_bytes(t));
    lemma_holds_front(u32_bytes(s.len() as u32), surfaces_bytes(s));
    lemma_holds_back(u32_bytes(s.len() as u32), surfaces_bytes(s));
    lemma_holds_within(b, o2, cs, 0, u32_bytes(s.len() as u32));
    lemma_holds_within(b, o2, cs, 4, surfaces_bytes(s));
    lemma_holds_front(u32_bytes(w.len() as u32), walls_bytes(w));
    lemma_holds_back(u32_bytes(w.len() as u32), walls_bytes(w));
    lemma_holds_within(b, o3, cw, 0, u32_bytes(w.len() as u32));
    lemma_holds_within(b, o3, cw, 4, walls_bytes(w));
}

/// Appends the count of `surfaces`, then their bytes.
fn push_surfaces(out: &mut Vec<u8>, surfaces: &Vec<Surface>)
    requires
        surfaces@.len() <= u32::MAX,
    ensures
        final(out)@ == old(out)@ + counted_surfaces(surfaces@),
{
    push_u32(out, surfaces.len() as u32);
    let ghost head = out@;
    let mut i: usize = 0;
    while i < surfaces.len()
        invariant
            i <= surfaces@.len(),
            out@ == head + surfaces_bytes(surfaces@.take(i as int)),
        decreases surfaces@.len() - i,
    {
        let x = &surfaces[i];
        push_vec3(out, &x.point_0);
        push_vec3(out, &x.point_1);
        push_vec3(out, &x.point_2);
        push_vec3(out, &x.normal);
        proof {
            let v = surfaces@;
            assert(v.take(i as int + 1) == v.take(i as int).push(v[i as int]));
            lemma_concat_map_push(v.take(i as int), |x: Surface| surface_bytes(x), v[i as int]);
        }
        assert(out@ =~= head + surfaces_bytes(surfaces@.take(i as int + 1)));
        i += 1;
    }
    assert(surfaces@.take(i as int) == surfaces@);
    assert(out@ =~= old(out)@ + counted_surfaces(surfaces@));
}

/// Appends the count of `walls`, then their bytes.
fn push_walls(out: &mut Vec<u8>, walls: &Vec<Wall>)
    requires
        walls@.len() <= u32::MAX,
    ensures
        final(out)@ == old(out)@ + counted_walls(walls@),
{
    push_u32(out, walls.len() as u32);
    let ghost head = out@;
    let mut i: usize = 0;
    while i < walls.len()
        invariant
            i <= walls@.len(),
            out@ == head + walls_bytes(walls@.take(i as int)),
        decreases walls@.len() - i,
    {
        let x = &walls[i];
        push_vec3(out, &x.bottom_left);
        push_vec3(out, &x.top_right);
        push_vec3(out, &x.normal);
        proof {
            let v = walls@;
            assert(v.take(i as int + 1) == v.take(i as int).push(v[i as int]));
            lemma_concat_map_push(v.take(i as int), |x: Wall| wall_bytes(x), v[i as int]);
        }
        assert(out@ =~= head + walls_bytes(walls@.take(i as int + 1)));
        i += 1;
    }
    assert(walls@.take(i as int) == walls@);
    assert(out@ =~= old(out)@ + counted_walls(walls@));
}

/// The surface at `b[i..i + 48]`.
fn read_surface(b: &[u8], i: usize) -> (r: Surface)
    requires
        i + 48 <= b.len(),
    ensures
        r == surface_at(b@, i as int),
{
    Surface { point_0: read_vec3(b, i), point_1: read_vec3(b, i + 12), point_2: read_vec3(b, i + 24), normal: read_vec3(b, i + 36) }
}

/// The wall at `b[i..i + 36]`.
fn read_wall(b: &[u8], i: usize) -> (r: Wall)
    requires
        i + 36 <= b.len(),
    ensures
        r == wall_at(b@, i as int),
{
    Wall { bottom_left: read_vec3(b, i), top_right: read_vec3(b, i + 12), normal: read_vec3(b, i + 24) }
}

/// The `n` surfaces stored one after another from `b[start..]`.
fn read_surfaces(b: &[u8], start: usize, n: usize) -> (r: Vec<Surface>)
    requires
        start + 48 * n <= b.len(),
    ensures
        r@ == Seq::new(n as nat, |k: int| surface_at(b@, start + 48 * k)),
{
    let mut v: Vec<Surface> = Vec::new();
    let mut k: usize = 0;
    while k < n
        invariant
            k <= n,
            start + 48 * n <= b.len(),
            v@.len() == k,
            forall|j: int| 0 <= j < k ==> v@[j] == surface_at(b@, start + 48 * j),
        decreases n - k,
    {
        v.push(read_surface(b, start + 48 * k));
        k += 1;
    }
    assert(v@ =~= Seq::new(n as nat, |k: int| surface_at(b@, start + 48 * k)));
    v
}

impl CollisionData {
    /// Appends to `out` the contents of this object's collision file, laid
    /// out as [`collision_bytes`] says.
    pub fn write_data_to_file(&self, out: &mut Vec<u8>, version: u32)
        requires
            self.traction_surfaces@.len() <= u32::MAX,
            self.sliding_surfaces@.len() <= u32::MAX,
            self.walls@.len() <= u32::MAX,
        ensures
            final(out)@ == old(out)@ + collision_bytes(
                version,
                extents_of(*self),
                self.traction_surfaces@,
                self.sliding_surfaces@,
                self.walls@,
            ),
    {
        let ghost start = out@;
        push_u32(out, version);
        push_u32(out, self.extent_x[0]);
        push_u32(out, self.extent_x[1]);
        push_u32(out, self.extent_y[0]);
        push_u32(out, self.extent_y[1]);
        push_u32(out, self.extent_z[0]);
        push_u32(out, self.extent_z[1]);
        let ghost e = extents_of(*self);
        assert(e[0] == self.extent_x[0] && e[1] == self.extent_x[1] && e[2] == self.extent_y[0]);
        assert(e[3] == self.extent_y[1] && e[4] == self.extent_z[0] && e[5] == self.extent_z[1]);
        assert(out@ =~= start + header_bytes(version, e));
        push_surfaces(out, &self.traction_surfaces);
        push_surfaces(out, &self.sliding_surfaces);
        push_walls(out, &self.walls);
        assert(out@ =~= start + collision_bytes(version, e, self.traction_surfaces@, self.sliding_surfaces@, self.walls@));
    }

    /// Reads a collision file back: the set named "", holding what
    /// [`decode_collisions`] finds in `bytes`, or the error it gives.
    pub fn from_bytes(bytes: &[u8], version: u32) -> (r: Result<CollisionData, ConvertError>)
        ensures
            match r {
                Ok(cd) => decode_collisions(bytes@, version) == Ok::<
                    (Seq<u32>, Seq<Surface>, Seq<Surface>, Seq<Wall>),
                    ConvertError,
                >((extents_of(cd), cd.traction_surfaces@, cd.sliding_surfaces@, cd.walls@))
                    && cd.model_name@ == Seq::<char>::empty(),
                Err(e) => decode_collisions(bytes@, version) == Err::<
                    (Seq<u32>, Seq<Surface>, Seq<Surface>, Seq<Wall>),
                    ConvertError,
                >(e),
            },
    {
        let len = bytes.len();
        if len < 4 {
            return Err(ConvertError::MalformedInput);
        }
        if read_u32(bytes, 0) != version {
            return Err(ConvertError::VersionMismatch);
        }
        if len < 32 {
            return Err(ConvertError::MalformedInput);
        }
        let nt = read_u32(bytes, 28);
        let o2: u64 = 32 + 48 * (nt as u64);
        if (len as u64) < o2 + 4 {
            return Err(ConvertError::MalformedInput);
        }
        let ns = read_u32(bytes, o2 as usize);
        let o3: u64 = o2 + 4 + 48 * (ns as u64);
        if (len as u64) < o3 + 4 {
            return Err(ConvertError::MalformedInput);
        }
        let nw = read_u32(bytes, o3 as usize);
        if len as u64 != o3 + 4 + 36 * (nw as u64) {
            return Err(ConvertError::MalformedInput);
        }
        let ex = [read_u32(bytes, 4), read_u32(bytes, 8)];
        let ey = [read_u32(bytes, 12), read_u32(bytes, 16)];
        let ez = [read_u32(bytes, 20), read_u32(bytes, 24)];
        let traction = read_surfaces(bytes, 32, nt as usize);
        let sliding = read_surfaces(bytes, o2 as usize + 4, ns as usize);
        let mut walls: Vec<Wall> = Vec::new();
        let w0 = o3 as usize + 4;
        let mut k: usize = 0;
        while k < nw as usize
            invariant
                k <= nw,
                w0 + 36 * (nw as int) == len,
                len == bytes@.len(),
                walls@.len() == k,
                forall|j: int| 0 <= j < k ==> walls@[j] == wall_at(bytes@, w0 + 36 * j),
            decreases nw - k,
        {
            walls.push(read_wall(bytes, w0 + 36 * k));
            k += 1;
        }
        let cd = CollisionData {
            model_name: String::new(),
            extent_x: ex,
            extent_y: ey,
            extent_z: ez,
            traction_surfaces: traction,
            sliding_surfaces: sliding,
            walls: walls,
        };
        let ghost b = bytes@;
        assert(extents_of(cd) =~= Seq::new(6, |k: int| u32_at(b, 4 + 4 * k)));
        assert(walls@ =~= Seq::new(nw as nat, |j: int| wall_at(b, w0 + 36 * j)));
        Ok(cd)
    }
}

} // verus!
