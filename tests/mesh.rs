use wavefront_converter::error::ConvertError;
use wavefront_converter::geometry::{Vec2, Vec3};
use wavefront_converter::model::{Model, Vertex};
use wavefront_converter::modelfactory::{fan_corners, IndexSet, ModelFactory, FILE_VERSION_NUMBER};
use wavefront_converter::scalar::{index_of_max, less_than, max_value, min_value};

fn v3(x: f32, y: f32, z: f32) -> Vec3 {
    Vec3 { x: x.to_bits(), y: y.to_bits(), z: z.to_bits() }
}

fn v2(s: f32, t: f32) -> Vec2 {
    Vec2 { s: s.to_bits(), t: t.to_bits() }
}

fn vertex(p: [f32; 3], n: [f32; 3], t: [f32; 2]) -> Vertex {
    Vertex::from_components(&v3(p[0], p[1], p[2]), &v3(n[0], n[1], n[2]), &v2(t[0], t[1]))
}

fn expected_vertex_data() -> Vec<Vertex> {
    vec![
        vertex([1.0, 2.0, -1.0], [0.0, 1.0, 0.0], [0.625, 0.5]),
        vertex([-1.0, 2.0, -1.0], [0.0, 1.0, 0.0], [0.875, 0.5]),
        vertex([-1.0, 2.0, 1.0], [0.0, 1.0, 0.0], [0.875, 0.75]),
        vertex([1.0, 2.0, 1.0], [0.0, 1.0, 0.0], [0.625, 0.75]),
        vertex([1.0, 0.0, 1.0], [0.0, 0.0, 1.0], [0.375, 0.75]),
        vertex([1.0, 2.0, 1.0], [0.0, 0.0, 1.0], [0.625, 0.75]),
        vertex([-1.0, 2.0, 1.0], [0.0, 0.0, 1.0], [0.625, 1.0]),
        vertex([-1.0, 0.0, 1.0], [0.0, 0.0, 1.0], [0.375, 1.0]),
        vertex([-1.0, 0.0, 1.0], [-1.0, 0.0, 0.0], [0.375, 0.0]),
        vertex([-1.0, 2.0, 1.0], [-1.0, 0.0, 0.0], [0.625, 0.0]),
        vertex([-1.0, 2.0, -1.0], [-1.0, 0.0, 0.0], [0.625, 0.25]),
        vertex([-1.0, 0.0, -1.0], [-1.0, 0.0, 0.0], [0.375, 0.25]),
        vertex([-1.0, 0.0, -1.0], [0.0, -1.0, 0.0], [0.125, 0.5]),
        vertex([1.0, 0.0, -1.0], [0.0, -1.0, 0.0], [0.375, 0.5]),
        vertex([1.0, 0.0, 1.0], [0.0, -1.0, 0.0], [0.375, 0.75]),
        vertex([-1.0, 0.0, 1.0], [0.0, -1.0, 0.0], [0.125, 0.75]),
        vertex([1.0, 0.0, -1.0], [1.0, 0.0, 0.0], [0.375, 0.5]),
        vertex([1.0, 2.0, -1.0], [1.0, 0.0, 0.0], [0.625, 0.5]),
        vertex([1.0, 2.0, 1.0], [1.0, 0.0, 0.0], [0.625, 0.75]),
        vertex([1.0, 0.0, 1.0], [1.0, 0.0, 0.0], [0.375, 0.75]),
        vertex([-1.0, 0.0, -1.0], [0.0, 0.0, -1.0], [0.375, 0.25]),
        vertex([-1.0, 2.0, -1.0], [0.0, 0.0, -1.0], [0.625, 0.25]),
        vertex([1.0, 2.0, -1.0], [0.0, 0.0, -1.0], [0.625, 0.5]),
        vertex([1.0, 0.0, -1.0], [0.0, 0.0, -1.0], [0.375, 0.5]),
    ]
}

fn expected_index_data() -> Vec<u16> {
    vec![
        0, 1, 2, 0, 2, 3,
        4, 5, 6, 4, 6, 7,
        8, 9, 10, 8, 10, 11,
        12, 13, 14, 12, 14, 15,
        16, 17, 18, 16, 18, 19,
        20, 21, 22, 20, 22, 23,
    ]
}

fn index_of<T: PartialEq>(list: &mut Vec<T>, item: T) -> u16 {
    match list.iter().position(|x| *x == item) {
        Some(i) => i as u16,
        None => {
            list.push(item);
            (list.len() - 1) as u16
        }
    }
}

/// Declares the cube's 8 positions, 6 normals and texture coordinates, and
/// its six quad faces, through the factory.
fn build_cube() -> Model {
    let mut positions: Vec<Vec3> = vec![];
    let mut normals: Vec<Vec3> = vec![];
    let mut tex_coords: Vec<Vec2> = vec![];
    let mut faces: Vec<Vec<IndexSet>> = vec![];
    for quad in expected_vertex_data().chunks(4) {
        let mut face = vec![];
        for v in quad {
            face.push(IndexSet {
                position_index: index_of(&mut positions, v.position),
                normal_index: index_of(&mut normals, v.normal),
                tex_coord_index: index_of(&mut tex_coords, v.tex_coord),
            });
        }
        faces.push(face);
    }
    assert_eq!(positions.len(), 8);
    assert_eq!(normals.len(), 6);
    let mut factory = ModelFactory::new();
    for p in positions {
        factory.raw_model_data.push_position(p);
    }
    for n in normals {
        factory.raw_model_data.push_normal(n);
    }
    for t in tex_coords {
        factory.raw_model_data.push_tex_coord(t);
    }
    let mut model = Model::new(String::from("Cube"));
    for face in faces.iter() {
        assert_eq!(factory.add_faces_for_index_sets(face, &mut model), Ok(()));
    }
    model
}

#[test]
fn scrutinise_cube_model() {
    let built = build_cube();
    let mut bytes = vec![];
    built.write_data_to_file(&mut bytes, FILE_VERSION_NUMBER);
    let model = Model::from_bytes(&bytes, FILE_VERSION_NUMBER).unwrap();

    assert_eq!(model.interleaved_vertices.len(), 24);
    assert_eq!(model.face_indices.len(), 36);
    assert_eq!(model.interleaved_vertices, expected_vertex_data());
    assert_eq!(model.face_indices, expected_index_data());
}

#[test]
fn cube_faces_share_corner_vertices_within_a_face() {
    let model = build_cube();
    assert_eq!(model.interleaved_vertices.len(), 24);
    assert_eq!(model.get_name(), "Cube");
}

#[test]
fn same_triple_twice_gives_same_index() {
    let mut model = Model::new(String::from("m"));
    let v = vertex([1.0, 2.0, 3.0], [0.0, 1.0, 0.0], [0.5, 0.5]);
    let first = model.get_index(3, 1, 2, v).unwrap();
    let len_after_first = model.interleaved_vertices.len();
    let second = model.get_index(3, 1, 2, v).unwrap();
    assert_eq!(first, second);
    assert_eq!(model.interleaved_vertices.len(), len_after_first);
    assert_eq!(len_after_first, 1);
}

#[test]
fn distinct_triples_with_equal_values_stay_distinct() {
    let mut model = Model::new(String::from("m"));
    let v = vertex([1.0, 2.0, 3.0], [0.0, 1.0, 0.0], [0.5, 0.5]);
    assert_eq!(model.get_index(0, 0, 0, v), Ok(0));
    assert_eq!(model.get_index(0, 0, 1, v), Ok(1));
    assert_eq!(model.get_index(0, 1, 0, v), Ok(2));
    assert_eq!(model.get_index(1, 0, 0, v), Ok(3));
    assert_eq!(model.get_index(0, 1, 0, v), Ok(2));
    assert_eq!(model.interleaved_vertices.len(), 4);
}

#[test]
fn attribute_index_beyond_sixteen_bits_is_capacity_error() {
    let mut model = Model::new(String::from("m"));
    let v = Vertex::new_empty();
    assert_eq!(model.get_index(65536, 0, 0, v), Err(ConvertError::CapacityExceeded));
    assert_eq!(model.get_index(0, 70000, 0, v), Err(ConvertError::CapacityExceeded));
    assert_eq!(model.get_index(0, 0, 65535, v), Ok(0));
    assert_eq!(model.interleaved_vertices.len(), 1);
}

#[test]
fn vertex_beyond_index_space_is_capacity_error() {
    let mut model = Model::new(String::from("m"));
    let v = Vertex::new_empty();
    for i in 0..65536u64 {
        assert_eq!(model.get_index(i / 256, i % 256, 0, v), Ok(i as u16));
    }
    assert_eq!(model.get_index(300, 0, 0, v), Err(ConvertError::CapacityExceeded));
    assert_eq!(model.get_index(0, 5, 0, v), Ok(5));
    assert_eq!(model.interleaved_vertices.len(), 65536);
}

#[test]
fn face_beyond_index_space_is_capacity_error() {
    let mut model = Model::new(String::from("m"));
    for _ in 0..65536 {
        assert_eq!(model.add_face([0, 1, 2]), Ok(()));
    }
    assert_eq!(model.add_face([0, 1, 2]), Err(ConvertError::CapacityExceeded));
    assert_eq!(model.face_indices.len(), 3 * 65536);
}

fn factory_with_square_grid() -> ModelFactory {
    let mut factory = ModelFactory::new();
    for i in 0..6 {
        factory.raw_model_data.push_position(v3(i as f32, 0.0, 0.0));
    }
    factory.raw_model_data.push_normal(v3(0.0, 1.0, 0.0));
    factory.raw_model_data.push_tex_coord(v2(0.0, 0.0));
    factory
}

fn corner(p: u16) -> IndexSet {
    IndexSet { position_index: p, normal_index: 0, tex_coord_index: 0 }
}

#[test]
fn pentagon_fans_into_three_triangles_from_first_corner() {
    let factory = factory_with_square_grid();
    let mut model = Model::new(String::from("m"));
    let face = vec![corner(4), corner(0), corner(1), corner(2), corner(3)];
    assert_eq!(factory.add_faces_for_index_sets(&face, &mut model), Ok(()));
    assert_eq!(model.face_indices, vec![0, 1, 2, 0, 2, 3, 0, 3, 4]);
    assert_eq!(model.face_indices.len(), 3 * 3);
    for t in model.face_indices.chunks(3) {
        assert_eq!(t[0], 0);
    }
    assert_eq!(model.interleaved_vertices[0].position, v3(4.0, 0.0, 0.0));
}

#[test]
fn repeated_corner_across_faces_is_reused() {
    let factory = factory_with_square_grid();
    let mut model = Model::new(String::from("m"));
    assert_eq!(factory.add_faces_for_index_sets(&vec![corner(0), corner(1), corner(2)], &mut model), Ok(()));
    assert_eq!(factory.add_faces_for_index_sets(&vec![corner(2), corner(1), corner(3)], &mut model), Ok(()));
    assert_eq!(model.face_indices, vec![0, 1, 2, 2, 1, 3]);
    assert_eq!(model.interleaved_vertices.len(), 4);
}

#[test]
fn undeclared_attribute_is_malformed_input() {
    let factory = factory_with_square_grid();
    let mut model = Model::new(String::from("m"));
    let face = vec![corner(0), corner(1), corner(6)];
    assert_eq!(factory.add_faces_for_index_sets(&face, &mut model), Err(ConvertError::MalformedInput));
    let bad_normal = IndexSet { position_index: 0, normal_index: 1, tex_coord_index: 0 };
    assert_eq!(factory.vertex_from_indices(&bad_normal), Err(ConvertError::MalformedInput));
    let good = factory.vertex_from_indices(&corner(5)).unwrap();
    assert_eq!(good.position, v3(5.0, 0.0, 0.0));
    assert_eq!(good.normal, v3(0.0, 1.0, 0.0));
}

#[test]
fn raw_lookups_follow_declaration_order() {
    let factory = factory_with_square_grid();
    assert_eq!(factory.raw_model_data.get_raw_position(2), Some(v3(2.0, 0.0, 0.0)));
    assert_eq!(factory.raw_model_data.get_raw_position(6), None);
    assert_eq!(factory.raw_model_data.get_raw_normal(0), Some(v3(0.0, 1.0, 0.0)));
    assert_eq!(factory.raw_model_data.get_raw_tex_coord(1), None);
}

#[test]
fn mesh_encoding_has_exact_layout() {
    let mut model = Model::new(String::from("m"));
    let v = vertex([1.0, 2.0, 3.0], [0.0, 1.0, 0.0], [0.5, 0.25]);
    model.get_index(0, 0, 0, v).unwrap();
    model.add_face([0, 0, 0]).unwrap();
    let mut bytes = vec![];
    model.write_data_to_file(&mut bytes, 7);
    assert_eq!(bytes.len(), 4 + 4 + 32 + 4 + 6);
    assert_eq!(&bytes[0..4], &7u32.to_le_bytes());
    assert_eq!(&bytes[4..8], &1u32.to_le_bytes());
    assert_eq!(&bytes[8..12], &1.0f32.to_le_bytes());
    assert_eq!(&bytes[36..40], &0.25f32.to_le_bytes());
    assert_eq!(&bytes[40..44], &1u32.to_le_bytes());
    let back = Model::from_bytes(&bytes, 7).unwrap();
    assert_eq!(back.interleaved_vertices, vec![v]);
    assert_eq!(back.face_indices, vec![0, 0, 0]);
    assert_eq!(back.get_name(), "");
}

#[test]
fn mesh_decode_rejects_other_version() {
    let model = build_cube();
    let mut bytes = vec![];
    model.write_data_to_file(&mut bytes, FILE_VERSION_NUMBER);
    assert_eq!(Model::from_bytes(&bytes, FILE_VERSION_NUMBER + 1).err(), Some(ConvertError::VersionMismatch));
}

#[test]
fn mesh_decode_rejects_wrong_length() {
    let model = build_cube();
    let mut bytes = vec![];
    model.write_data_to_file(&mut bytes, FILE_VERSION_NUMBER);
    let short = &bytes[..bytes.len() - 1];
    assert_eq!(Model::from_bytes(short, FILE_VERSION_NUMBER).err(), Some(ConvertError::MalformedInput));
    let mut long = bytes.clone();
    long.push(0);
    assert_eq!(Model::from_bytes(&long, FILE_VERSION_NUMBER).err(), Some(ConvertError::MalformedInput));
    assert_eq!(Model::from_bytes(&bytes[..3], FILE_VERSION_NUMBER).err(), Some(ConvertError::MalformedInput));
}

#[test]
fn mesh_decode_rejects_vertex_count_beyond_index_space() {
    let count: u32 = 65537;
    let mut bytes = vec![];
    bytes.extend_from_slice(&FILE_VERSION_NUMBER.to_le_bytes());
    bytes.extend_from_slice(&count.to_le_bytes());
    bytes.extend(std::iter::repeat(0u8).take(32 * count as usize));
    bytes.extend_from_slice(&0u32.to_le_bytes());
    assert_eq!(Model::from_bytes(&bytes, FILE_VERSION_NUMBER).err(), Some(ConvertError::CapacityExceeded));
}

#[test]
fn float_order_on_bit_patterns() {
    assert!(less_than((-1.0f32).to_bits(), 0.5f32.to_bits()));
    assert!(less_than((-2.0f32).to_bits(), (-1.0f32).to_bits()));
    assert!(!less_than((-1.0f32).to_bits(), (-2.0f32).to_bits()));
    assert!(less_than(1.0f32.to_bits(), 2.0f32.to_bits()));
    assert!(!less_than((-0.0f32).to_bits(), 0.0f32.to_bits()));
    assert!(!less_than(0.0f32.to_bits(), (-0.0f32).to_bits()));
    assert!(!less_than(3.0f32.to_bits(), 3.0f32.to_bits()));
}

#[test]
fn running_extremes_and_first_maximum() {
    let values = [2.0f32.to_bits(), (-3.0f32).to_bits(), 5.0f32.to_bits(), 5.0f32.to_bits(), (-0.5f32).to_bits()];
    assert_eq!(min_value(0, &values), (-3.0f32).to_bits());
    assert_eq!(max_value(0, &values), 5.0f32.to_bits());
    assert_eq!(min_value(1.0f32.to_bits(), &[]), 1.0f32.to_bits());
    assert_eq!(index_of_max(&values), 2);
    assert_eq!(min_value(0, &[2.0f32.to_bits()]), 0);
    assert_eq!(min_value(0, &[(-0.0f32).to_bits()]), 0);
}

#[test]
fn fan_corner_positions() {
    assert_eq!(fan_corners(5), vec![(0, 1, 2), (0, 2, 3), (0, 3, 4)]);
    assert_eq!(fan_corners(3), vec![(0, 1, 2)]);
    assert!(fan_corners(2).is_empty());
    assert!(fan_corners(0).is_empty());
}
