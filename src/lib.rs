//! Conversion of polygon meshes into a deduplicated vertex/index buffer and a
//! classified collision set, with the fixed binary layouts of both.
//!
//! Every single-precision value is carried as its IEEE-754 bit pattern (`u32`);
//! ordering such values is done by [`scalar::order_key`], and the arithmetic on
//! them (dot products, square roots, angles) is left to the caller.
pub mod scalar;
pub mod wire;
pub mod error;
pub mod geometry;
pub mod model;
pub mod collisiondata;
pub mod modelfactory;
pub mod facegroup;

use vstd::prelude::*;
use crate::collisiondata::{collision_bytes, extents_of};
use crate::error::ConvertError;
use crate::model::model_bytes;
use crate::modelfactory::{ModelFactory, FILE_VERSION_NUMBER};

verus! {

/// The files one mesh object turns into: its name, its mesh file, and its
/// collision file where collisions were asked for.
pub struct EncodedObject {
    pub name: String,
    pub mesh: Vec<u8>,
    pub collisions: Option<Vec<u8>>,
}

/// Encodes every object the factory holds, in order, at the current file
/// version: each mesh as `model_bytes` lays it out and, where
/// `include_collisions`, the object's collision set as `collision_bytes` lays
/// it out. `CapacityExceeded` where a count does not fit in 32 bits;
/// `MalformedInput` where the factory does not hold one collision set per
/// object.
pub fn process_file(factory: &ModelFactory, include_collisions: bool) -> (r: Result<Vec<EncodedObject>, ConvertError>)
    ensures
        match r {
            Ok(out) => {
                &&& factory.models@.len() == factory.collision_data@.len()
                &&& out@.len() == factory.models@.len()
                &&& forall|i: int| 0 <= i < out@.len() ==> {
                    let m = #[trigger] factory.models@[i];
                    let cd = factory.collision_data@[i];
                    &&& out@[i].name@ == m.name()@
                    &&& out@[i].mesh@ == model_bytes(FILE_VERSION_NUMBER, m.interleaved_vertices@, m.face_indices@)
                    &&& if include_collisions {
                        out@[i].collisions matches Some(c) && c@ == collision_bytes(
                            FILE_VERSION_NUMBER,
                            extents_of(cd),
                            cd.traction_surfaces@,
                            cd.sliding_surfaces@,
                            cd.walls@,
                        )
                    } else {
                        out@[i].collisions is None
                    }
                }
            },
            Err(e) => {
                ||| (e == ConvertError::MalformedInput && factory.models@.len() != factory.collision_data@.len())
                ||| (e == ConvertError::CapacityExceeded && exists|i: int| 0 <= i < factory.models@.len() && {
                    let m = #[trigger] factory.models@[i];
                    let cd = factory.collision_data@[i];
                    ||| m.interleaved_vertices@.len() > u32::MAX
                    ||| m.face_indices@.len() / 3 > u32::MAX
                    ||| (include_collisions && (cd.traction_surfaces@.len() > u32::MAX || cd.sliding_surfaces@.len()
                        > u32::MAX || cd.walls@.len() > u32::MAX))
                })
            },
        },
{
    let n = factory.models.len();
    if n != factory.collision_data.len() {
        return Err(ConvertError::MalformedInput);
    }
    let mut out: Vec<EncodedObject> = Vec::new();
    let mut i: usize = 0;
    while i < n
        invariant
            n == factory.models@.len(),
            n == factory.collision_data@.len(),
            i <= n,
            out@.len() == i,
            forall|j: int| 0 <= j < i ==> {
                let m = #[trigger] factory.models@[j];
                let cd = factory.collision_data@[j];
                &&& out@[j].name@ == m.name()@
                &&& out@[j].mesh@ == model_bytes(FILE_VERSION_NUMBER, m.interleaved_vertices@, m.face_indices@)
                &&& if include_collisions {
                    out@[j].collisions matches Some(c) && c@ == collision_bytes(
                        FILE_VERSION_NUMBER,
                        extents_of(cd),
                        cd.traction_surfaces@,
                        cd.sliding_surfaces@,
                        cd.walls@,
                    )
                } else {
                    out@[j].collisions is None
                }
            },
        decreases n - i,
    {
        let m = &factory.models[i];
        let cd = &factory.collision_data[i];
        if m.interleaved_vertices.len() as u64 > u32::MAX as u64 || (m.face_indices.len() / 3) as u64 > u32::MAX as u64 {
            assert(factory.models@[i as int] == *m);
            return Err(ConvertError::CapacityExceeded);
        }
        let mut mesh: Vec<u8> = Vec::new();
        m.write_data_to_file(&mut mesh, FILE_VERSION_NUMBER);
        let collisions = if include_collisions {
            if cd.traction_surfaces.len() as u64 > u32::MAX as u64 || cd.sliding_surfaces.len() as u64 > u32::MAX as u64
                || cd.walls.len() as u64 > u32::MAX as u64 {
                assert(factory.models@[i as int] == *m);
                return Err(ConvertError::CapacityExceeded);
            }
            let mut bytes: Vec<u8> = Vec::new();
            cd.write_data_to_file(&mut bytes, FILE_VERSION_NUMBER);
            Some(bytes)
        } else {
            None
        };
        let ghost before = out@;
        out.push(EncodedObject { name: m.get_name().clone(), mesh, collisions });
        assert(factory.models@[i as int] == *m);
        assert(factory.collision_data@[i as int] == *cd);
        assert(forall|j: int| 0 <= j < i ==> out@[j] == before[j]);
        i += 1;
    }
    Ok(out)
}

} // verus!
