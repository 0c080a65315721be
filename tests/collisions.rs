use wavefront_converter::collisiondata::{
    classify_elevation, wall_corners, Candidate, CollisionData, Surface, SurfaceKind, Wall,
    WALL_NORMAL_ELEVATION_MAX, WALL_NORMAL_ELEVATION_MIN,
};
use wavefront_converter::error::ConvertError;
use wavefront_converter::geometry::Vec3;
use wavefront_converter::modelfactory::FILE_VERSION_NUMBER;

fn v3(x: f32, y: f32, z: f32) -> Vec3 {
    Vec3 { x: x.to_bits(), y: y.to_bits(), z: z.to_bits() }
}

fn surface(a: Vec3, b: Vec3, c: Vec3) -> Surface {
    Surface { point_0: a, point_1: b, point_2: c, normal: v3(0.0, 1.0, 0.0) }
}

fn wall(bl: Vec3, tr: Vec3) -> Wall {
    Wall { bottom_left: bl, top_right: tr, normal: v3(0.0, 0.0, 1.0) }
}

fn candidate(elevation: f32, marker: f32) -> Candidate {
    let s = surface(v3(marker, 0.0, 0.0), v3(marker, 1.0, 0.0), v3(marker, 1.0, 1.0));
    Candidate { surface: s, elevation: elevation.to_bits(), wall: wall(v3(marker, 0.0, 0.0), v3(marker, 1.0, 1.0)) }
}

#[test]
fn elevation_on_wall_bound_is_sliding() {
    assert_eq!(WALL_NORMAL_ELEVATION_MAX, 0.0873f32.to_bits());
    assert_eq!(WALL_NORMAL_ELEVATION_MIN, (-0.0873f32).to_bits());
    assert_eq!(classify_elevation(0.0873f32.to_bits()), SurfaceKind::Slide);
    assert_eq!(classify_elevation((-0.0873f32).to_bits()), SurfaceKind::Slide);
    assert_eq!(classify_elevation(0.0872f32.to_bits()), SurfaceKind::Wall);
    assert_eq!(classify_elevation(0.0f32.to_bits()), SurfaceKind::Wall);
    assert_eq!(classify_elevation((-0.0f32).to_bits()), SurfaceKind::Wall);
}

#[test]
fn elevations_fall_into_slide_and_traction_ranges() {
    assert_eq!(classify_elevation(0.5f32.to_bits()), SurfaceKind::Slide);
    assert_eq!(classify_elevation((-0.6f32).to_bits()), SurfaceKind::Slide);
    assert_eq!(classify_elevation(0.6981f32.to_bits()), SurfaceKind::Traction);
    assert_eq!(classify_elevation(1.5707964f32.to_bits()), SurfaceKind::Traction);
    assert_eq!(classify_elevation((-1.5707964f32).to_bits()), SurfaceKind::Traction);
}

#[test]
fn quad_of_two_wall_triangles_gives_one_wall() {
    let mut cd = CollisionData::new(String::from("room"));
    let merged = wall(v3(-1.0, 0.0, 0.0), v3(1.0, 2.0, 0.0));
    cd.add_polygon(&vec![candidate(0.0, 1.0), candidate(0.01, 2.0)], Some(merged));
    assert_eq!(cd.walls, vec![merged]);
    assert!(cd.sliding_surfaces.is_empty());
    assert!(cd.traction_surfaces.is_empty());
}

#[test]
fn pentagon_of_wall_triangles_gives_three_walls() {
    let mut cd = CollisionData::new(String::from("room"));
    let cs = vec![candidate(0.0, 1.0), candidate(0.02, 2.0), candidate(-0.03, 3.0)];
    cd.add_polygon(&cs, None);
    assert_eq!(cd.walls, vec![cs[0].wall, cs[1].wall, cs[2].wall]);
}

#[test]
fn quad_with_one_non_wall_triangle_is_not_merged() {
    let mut cd = CollisionData::new(String::from("room"));
    let cs = vec![candidate(0.0, 1.0), candidate(1.2, 2.0)];
    cd.add_polygon(&cs, Some(wall(v3(9.0, 9.0, 9.0), v3(9.0, 9.0, 9.0))));
    assert_eq!(cd.walls, vec![cs[0].wall]);
    assert_eq!(cd.traction_surfaces, vec![cs[1].surface]);
    assert!(cd.sliding_surfaces.is_empty());
}

#[test]
fn triangles_are_filed_by_kind_in_order() {
    let mut cd = CollisionData::new(String::from("room"));
    let cs = vec![candidate(0.3, 1.0), candidate(1.5, 2.0), candidate(-0.3, 3.0), candidate(0.0, 4.0)];
    cd.add_polygon(&cs, None);
    assert_eq!(cd.sliding_surfaces, vec![cs[0].surface, cs[2].surface]);
    assert_eq!(cd.traction_surfaces, vec![cs[1].surface]);
    assert_eq!(cd.walls, vec![cs[3].wall]);
}

#[test]
fn duplicate_walls_collapse_to_the_earlier() {
    let mut cd = CollisionData::new(String::from("room"));
    let a = wall(v3(0.0, 0.0, 0.0), v3(1.0, 2.0, 0.0));
    let b = wall(v3(0.005, 0.0, 0.0), v3(1.0, 2.005, 0.0));
    let c = wall(v3(1.0, 2.0, 0.0), v3(0.0, 0.0, 0.0));
    cd.walls = vec![a, b, c];
    let duplicates = vec![vec![false, true, false], vec![false, false, false], vec![false, false, false]];
    cd.remove_wall_duplicates(&duplicates);
    assert_eq!(cd.walls, vec![a, c]);
}

#[test]
fn a_wall_repeating_any_earlier_one_is_removed() {
    let mut cd = CollisionData::new(String::from("room"));
    let a = wall(v3(0.0, 0.0, 0.0), v3(1.0, 2.0, 0.0));
    let b = wall(v3(5.0, 0.0, 0.0), v3(6.0, 2.0, 0.0));
    cd.walls = vec![a, b, a, b];
    let duplicates = vec![
        vec![false, false, true, false],
        vec![false, false, false, true],
        vec![false, false, false, false],
        vec![false, false, false, false],
    ];
    cd.remove_wall_duplicates(&duplicates);
    assert_eq!(cd.walls, vec![a, b]);
}

#[test]
fn extents_are_seeded_at_zero_and_skip_wall_tops() {
    let mut cd = CollisionData::new(String::from("room"));
    cd.traction_surfaces = vec![surface(v3(1.0, 1.0, 1.0), v3(2.0, 3.0, 4.0), v3(1.5, 1.5, 1.5))];
    cd.sliding_surfaces = vec![surface(v3(-3.0, 1.0, 2.0), v3(1.0, 1.0, 1.0), v3(1.0, 1.0, 1.0))];
    cd.walls = vec![wall(v3(5.25, 0.5, -5.0), v3(100.0, 100.0, 100.0))];
    cd.find_extents();
    assert_eq!(cd.extent_x, [(-3.0f32).to_bits(), 5.25f32.to_bits()]);
    assert_eq!(cd.extent_y, [0.0f32.to_bits(), 3.0f32.to_bits()]);
    assert_eq!(cd.extent_z, [(-5.0f32).to_bits(), 4.0f32.to_bits()]);
}

#[test]
fn empty_collision_set_has_zero_extents() {
    let mut cd = CollisionData::new(String::from("empty"));
    cd.find_extents();
    assert_eq!(cd.extent_x, [0, 0]);
    assert_eq!(cd.extent_y, [0, 0]);
    assert_eq!(cd.extent_z, [0, 0]);
    assert_eq!(cd.get_model_name(), "empty");
}

#[test]
fn wall_corners_take_support_points_and_height_range() {
    let points = [v3(0.0, 0.0, 0.0), v3(2.0, 0.0, 0.0), v3(2.0, 3.0, 0.0), v3(0.0, 3.0, 0.0)];
    let left = [0.0f32.to_bits(), (-2.0f32).to_bits(), (-2.0f32).to_bits(), 0.0f32.to_bits()];
    let right = [0.0f32.to_bits(), 2.0f32.to_bits(), 2.0f32.to_bits(), 0.0f32.to_bits()];
    let (bottom_left, top_right) = wall_corners(&points, &left, &right);
    assert_eq!(bottom_left, v3(0.0, 0.0, 0.0));
    assert_eq!(top_right, v3(2.0, 3.0, 0.0));
}

#[test]
fn wall_corners_on_a_triangle() {
    let points = [v3(1.0, 4.0, 1.0), v3(-1.0, 1.0, 1.0), v3(3.0, -2.0, 1.0)];
    let left = [1.0f32.to_bits(), 5.0f32.to_bits(), (-1.0f32).to_bits()];
    let right = [(-1.0f32).to_bits(), (-5.0f32).to_bits(), 1.0f32.to_bits()];
    let (bottom_left, top_right) = wall_corners(&points, &left, &right);
    assert_eq!(bottom_left, v3(-1.0, -2.0, 1.0));
    assert_eq!(top_right, v3(3.0, 4.0, 1.0));
}

fn sample_collisions() -> CollisionData {
    let mut cd = CollisionData::new(String::from("room"));
    cd.traction_surfaces = vec![surface(v3(1.0, 0.0, 1.0), v3(2.0, 0.0, 4.0), v3(1.5, 0.0, -1.5))];
    cd.sliding_surfaces = vec![
        surface(v3(-3.0, 1.0, 2.0), v3(1.0, 1.0, 1.0), v3(1.0, 2.0, 1.0)),
        surface(v3(0.0, 1.0, 2.0), v3(1.0, 1.0, 1.0), v3(1.0, 2.0, 1.0)),
    ];
    cd.walls = vec![wall(v3(5.25, 0.0, -5.0), v3(6.0, 4.0, -5.0))];
    cd.find_extents();
    cd
}

#[test]
fn collision_round_trip_keeps_every_field() {
    let cd = sample_collisions();
    let mut bytes = vec![];
    cd.write_data_to_file(&mut bytes, FILE_VERSION_NUMBER);
    assert_eq!(bytes.len(), 4 + 24 + 4 + 48 + 4 + 96 + 4 + 36);
    let back = CollisionData::from_bytes(&bytes, FILE_VERSION_NUMBER).unwrap();
    assert_eq!(back.extent_x, cd.extent_x);
    assert_eq!(back.extent_y, cd.extent_y);
    assert_eq!(back.extent_z, cd.extent_z);
    assert_eq!(back.traction_surfaces, cd.traction_surfaces);
    assert_eq!(back.sliding_surfaces, cd.sliding_surfaces);
    assert_eq!(back.walls, cd.walls);
    assert_eq!(back.get_model_name(), "");
}

#[test]
fn collision_encoding_has_exact_layout() {
    let cd = sample_collisions();
    let mut bytes = vec![];
    cd.write_data_to_file(&mut bytes, 3);
    assert_eq!(&bytes[0..4], &3u32.to_le_bytes());
    assert_eq!(&bytes[4..8], &(-3.0f32).to_le_bytes());
    assert_eq!(&bytes[8..12], &5.25f32.to_le_bytes());
    assert_eq!(&bytes[28..32], &1u32.to_le_bytes());
    assert_eq!(&bytes[80..84], &2u32.to_le_bytes());
    assert_eq!(&bytes[180..184], &1u32.to_le_bytes());
    assert_eq!(&bytes[184..188], &5.25f32.to_le_bytes());
}

#[test]
fn collision_decode_rejects_other_version_and_bad_length() {
    let cd = sample_collisions();
    let mut bytes = vec![];
    cd.write_data_to_file(&mut bytes, FILE_VERSION_NUMBER);
    assert_eq!(CollisionData::from_bytes(&bytes, 2).err(), Some(ConvertError::VersionMismatch));
    assert_eq!(
        CollisionData::from_bytes(&bytes[..bytes.len() - 4], FILE_VERSION_NUMBER).err(),
        Some(ConvertError::MalformedInput)
    );
    assert_eq!(CollisionData::from_bytes(&bytes[..20], FILE_VERSION_NUMBER).err(), Some(ConvertError::MalformedInput));
}

#[test]
fn quad_corners_walk_around_the_quadrilateral() {
    let (a, b, c, d) = (v3(0.0, 0.0, 0.0), v3(1.0, 0.0, 0.0), v3(1.0, 1.0, 0.0), v3(0.0, 1.0, 0.0));
    let first = surface(a, b, c);
    let second = surface(a, c, d);
    assert_eq!(wavefront_converter::collisiondata::quad_corners(&first, &second), vec![a, b, c, d]);
}
