//! Conversion between `.p3m` vertices, stored relative to their bone, and
//! scene vertices, stored relative to the scene's origin.

use vstd::prelude::*;

use crate::convert::ConversionError;
use crate::geometry::{
    add_vec3, normalize_or_zero, normalized, sub_vec3, vec3_difference, vec3_sum, Vec3,
};
use crate::p3m::{MeshVertex, SkinVertex, INVALID_BONE_INDEX};
use crate::scene::{parents_valid, skeleton_world_translation, world_translation, Joint, Vertex};

verus! {

/// The joint that a bone index names, once the position bones are skipped;
/// `None` for the empty index. Indices that name no joint are malformed.
pub open spec fn joint_of_bone(bone_index: u8, num_position_bones: int, num_joints: int) -> Option<
    Option<usize>,
> {
    if bone_index == 255 {
        Some(None)
    } else if num_position_bones <= bone_index && bone_index - num_position_bones < num_joints {
        Some(Some((bone_index - num_position_bones) as usize))
    } else {
        None
    }
}

/// The scene vertex made of skin vertex `v`: its position moved by its
/// joint's world translation, its normal scaled to unit length.
pub open spec fn imported_vertex(v: SkinVertex, joint: Option<usize>, skeleton: Seq<Joint>) -> Vertex {
    Vertex {
        position: match joint {
            Some(j) => vec3_sum(v.position, world_translation(skeleton, j as int)),
            None => v.position,
        },
        normal: normalized(v.normal),
        uv: v.uv,
        joint,
    }
}

/// Converts skin vertices to scene vertices against `skeleton`. It fails when
/// a vertex names a bone that is not a joint of the skeleton.
pub fn convert_vertices(
    skin_vertices: &Vec<SkinVertex>,
    num_position_bones: usize,
    skeleton: &Vec<Joint>,
) -> (r: Result<Vec<Vertex>, ConversionError>)
    requires
        parents_valid(skeleton@),
    ensures
        r is Ok <==> forall|i: int|
            0 <= i < skin_vertices.len() ==> joint_of_bone(
                #[trigger] skin_vertices@[i].bone_index,
                num_position_bones as int,
                skeleton.len() as int,
            ) is Some,
        r matches Ok(vs) ==> vs.len() == skin_vertices.len() && forall|i: int|
            0 <= i < vs.len() ==> #[trigger] vs@[i] == imported_vertex(
                skin_vertices@[i],
                joint_of_bone(
                    skin_vertices@[i].bone_index,
                    num_position_bones as int,
                    skeleton.len() as int,
                )->Some_0,
                skeleton@,
            ),
        r matches Err(e) ==> e == ConversionError::Deserialization,
{
    let mut out: Vec<Vertex> = Vec::new();
    let mut i: usize = 0;
    while i < skin_vertices.len()
        invariant
            parents_valid(skeleton@),
            i <= skin_vertices@.len(),
            out.len() == i,
            forall|k: int|
                0 <= k < i ==> joint_of_bone(
                    #[trigger] skin_vertices@[k].bone_index,
                    num_position_bones as int,
                    skeleton.len() as int,
                ) is Some,
            forall|k: int|
                0 <= k < i ==> #[trigger] out@[k] == imported_vertex(
                    skin_vertices@[k],
                    joint_of_bone(
                        skin_vertices@[k].bone_index,
                        num_position_bones as int,
                        skeleton.len() as int,
                    )->Some_0,
                    skeleton@,
                ),
        decreases skin_vertices.len() - i,
    {
        let v = skin_vertices[i];
        let b = v.bone_index as usize;
        let joint = if v.bone_index == INVALID_BONE_INDEX {
            None
        } else if num_position_bones <= b && b - num_position_bones < skeleton.len() {
            Some(b - num_position_bones)
        } else {
            return Err(ConversionError::Deserialization);
        };
        let position = match joint {
            Some(j) => add_vec3(v.position, skeleton_world_translation(skeleton, j)),
            None => v.position,
        };
        out.push(Vertex { position, normal: normalize_or_zero(v.normal), uv: v.uv, joint });
        i = i + 1;
    }
    Ok(out)
}


/// The skin vertex that scene vertex `v` is exported to: its position made
/// relative to its joint, its joint shifted past the position bones.
pub open spec fn exported_skin_vertex(v: Vertex, num_position_bones: int, skeleton: Seq<Joint>) -> SkinVertex {
    SkinVertex {
        position: match v.joint {
            Some(j) => vec3_difference(v.position, world_translation(skeleton, j as int)),
            None => v.position,
        },
        weight: 0x3f80_0000,
        bone_index: match v.joint {
            Some(j) => (j + num_position_bones) as u8,
            None => 255,
        },
        normal: v.normal,
        uv: v.uv,
    }
}

/// Converts scene vertices to skin vertices, and to unskinned vertices that
/// keep the scene positions.
pub fn export_vertices(vertices: &Vec<Vertex>, num_position_bones: usize, skeleton: &Vec<Joint>) -> (r: (
    Vec<SkinVertex>,
    Vec<MeshVertex>,
))
    requires
        num_position_bones <= 255,
        parents_valid(skeleton@),
        forall|i: int|
            0 <= i < vertices.len() ==> match (#[trigger] vertices@[i]).joint {
                Some(j) => j < skeleton.len(),
                None => true,
            },
    ensures
        r.0.len() == vertices.len(),
        r.1.len() == vertices.len(),
        forall|i: int|
            0 <= i < vertices.len() ==> #[trigger] r.0@[i] == exported_skin_vertex(
                vertices@[i],
                num_position_bones as int,
                skeleton@,
            ),
        forall|i: int|
            0 <= i < vertices.len() ==> #[trigger] r.1@[i] == (MeshVertex {
                position: vertices@[i].position,
                normal: vertices@[i].normal,
                uv: vertices@[i].uv,
            }),
{
    let mut skin: Vec<SkinVertex> = Vec::new();
    let mut plain: Vec<MeshVertex> = Vec::new();
    let mut i: usize = 0;
    while i < vertices.len()
        invariant
            num_position_bones <= 255,
            parents_valid(skeleton@),
            forall|k: int|
                0 <= k < vertices.len() ==> match (#[trigger] vertices@[k]).joint {
                    Some(j) => j < skeleton.len(),
                    None => true,
                },
            i <= vertices@.len(),
            skin.len() == i,
            plain.len() == i,
            forall|k: int|
                0 <= k < i ==> #[trigger] skin@[k] == exported_skin_vertex(
                    vertices@[k],
                    num_position_bones as int,
                    skeleton@,
                ),
            forall|k: int|
                0 <= k < i ==> #[trigger] plain@[k] == (MeshVertex {
                    position: vertices@[k].position,
                    normal: vertices@[k].normal,
                    uv: vertices@[k].uv,
                }),
        decreases vertices.len() - i,
    {
        let v = vertices[i];
        let mut position = v.position;
        let mut bone_index = INVALID_BONE_INDEX;
        if let Some(j) = v.joint {
            position = sub_vec3(v.position, skeleton_world_translation(skeleton, j));
            let b = (j % 256 + num_position_bones) % 256;
            assert(b == (j + num_position_bones) % 256) by (nonlinear_arith)
                requires
                    b == (j % 256 + num_position_bones) % 256,
            ;
            assert(b as u8 == (j + num_position_bones) as u8) by (bit_vector)
                requires
                    b == (j + num_position_bones) % 256,
            ;
            bone_index = b as u8;
        }
        skin.push(
            SkinVertex { position, weight: 0x3f80_0000, bone_index, normal: v.normal, uv: v.uv },
        );
        plain.push(MeshVertex { position: v.position, normal: v.normal, uv: v.uv });
        i = i + 1;
    }
    (skin, plain)
}

/// Groups the indices three by three into faces.
pub fn convert_faces(indices: &Vec<usize>) -> (r: Vec<[u16; 3]>)
    requires
        indices.len() % 3 == 0,
    ensures
        r.len() * 3 == indices.len(),
        forall|k: int|
            0 <= k < r.len() ==> (#[trigger] r@[k])@ == seq![
                indices@[3 * k] as u16,
                indices@[3 * k + 1] as u16,
                indices@[3 * k + 2] as u16,
            ],
{
    let mut faces: Vec<[u16; 3]> = Vec::new();
    let mut k: usize = 0;
    while k < indices.len() / 3
        invariant
            indices.len() % 3 == 0,
            k <= indices.len() / 3,
            faces.len() == k,
            forall|m: int|
                0 <= m < k ==> (#[trigger] faces@[m])@ == seq![
                    indices@[3 * m] as u16,
                    indices@[3 * m + 1] as u16,
                    indices@[3 * m + 2] as u16,
                ],
        decreases indices.len() / 3 - k,
    {
        let face = [indices[3 * k] as u16, indices[3 * k + 1] as u16, indices[3 * k + 2] as u16];
        assert(face@ =~= seq![
            indices@[3 * k] as u16,
            indices@[3 * k + 1] as u16,
            indices@[3 * k + 2] as u16,
        ]);
        faces.push(face);
        k = k + 1;
    }
    faces
}

/// The indices of the faces, in order.
pub fn face_indices(faces: &Vec<[u16; 3]>) -> (r: Vec<usize>)
    ensures
        r.len() == 3 * faces.len(),
        forall|k: int, m: int|
            0 <= k < faces.len() && 0 <= m < 3 ==> r@[3 * k + m] == (#[trigger] faces@[k]@[m]) as usize,
{
    let mut out: Vec<usize> = Vec::new();
    let mut k: usize = 0;
    while k < faces.len()
        invariant
            k <= faces@.len(),
            out.len() == 3 * k,
            forall|a: int, m: int|
                0 <= a < k && 0 <= m < 3 ==> out@[3 * a + m] == (#[trigger] faces@[a]@[m]) as usize,
        decreases faces.len() - k,
    {
        let face = faces[k];
        out.push(face[0] as usize);
        out.push(face[1] as usize);
        out.push(face[2] as usize);
        k = k + 1;
    }
    out
}

} // verus!
