use wavefront_converter::error::ConvertError;
use wavefront_converter::facegroup::parse_index_set;
use wavefront_converter::modelfactory::IndexSet;

#[test]
fn corner_references_become_zero_based() {
    assert_eq!(
        parse_index_set(b"5/14/6"),
        Ok(IndexSet { position_index: 4, tex_coord_index: 13, normal_index: 5 })
    );
    assert_eq!(
        parse_index_set(b"1/1/1"),
        Ok(IndexSet { position_index: 0, tex_coord_index: 0, normal_index: 0 })
    );
    assert_eq!(
        parse_index_set(b"65536/007/12"),
        Ok(IndexSet { position_index: 65535, tex_coord_index: 6, normal_index: 11 })
    );
}

#[test]
fn corner_without_two_slashes_is_malformed() {
    assert_eq!(parse_index_set(b"5"), Err(ConvertError::MalformedInput));
    assert_eq!(parse_index_set(b"5/6"), Err(ConvertError::MalformedInput));
    assert_eq!(parse_index_set(b"5//6"), Err(ConvertError::MalformedInput));
    assert_eq!(parse_index_set(b"/1/2"), Err(ConvertError::MalformedInput));
    assert_eq!(parse_index_set(b"1/2/"), Err(ConvertError::MalformedInput));
    assert_eq!(parse_index_set(b"1/2/3/4"), Err(ConvertError::MalformedInput));
    assert_eq!(parse_index_set(b"1/x/3"), Err(ConvertError::MalformedInput));
    assert_eq!(parse_index_set(b""), Err(ConvertError::MalformedInput));
}

#[test]
fn zero_reference_is_malformed() {
    assert_eq!(parse_index_set(b"0/1/1"), Err(ConvertError::MalformedInput));
    assert_eq!(parse_index_set(b"1/1/0"), Err(ConvertError::MalformedInput));
    assert_eq!(parse_index_set(b"0/70000/1"), Err(ConvertError::MalformedInput));
}

#[test]
fn reference_beyond_index_space_is_capacity_error() {
    assert_eq!(parse_index_set(b"65537/1/1"), Err(ConvertError::CapacityExceeded));
    assert_eq!(parse_index_set(b"1/99999999999999999999/1"), Err(ConvertError::CapacityExceeded));
}
