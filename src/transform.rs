//! The change between the scene's left-handed and glTF's right-handed
//! coordinates: the z axis is mirrored, rotations are conjugated by that
//! mirror, and each triangle's winding is reversed to keep its front face.

use vstd::prelude::*;

use crate::geometry::{lemma_neg_bits_involution, neg_bits, Vec3};
use crate::scene::{Animation, Joint, Keyframe, Mesh, Scene, Vertex};

verus! {

/// `v` mirrored along z.
pub open spec fn flip_z(v: Vec3) -> Vec3 {
    Vec3 { x: v.x, y: v.y, z: neg_bits(v.z) }
}

/// Whether component `k` of a column-major 4x4 matrix changes sign when the
/// matrix is conjugated by the z mirror: those in the z row or the z column,
/// but not both.
pub open spec fn mirrored_entry(k: int) -> bool {
    (k % 4 == 2) != (k / 4 == 2)
}

/// The matrix `M * m * M⁻¹`, `M` being the z mirror.
pub open spec fn flip_matrix(m: Seq<u32>) -> Seq<u32> {
    Seq::new(m.len(), |k: int| if mirrored_entry(k) { neg_bits(m[k]) } else { m[k] })
}

/// The indices with the second and third of every whole triangle swapped.
pub open spec fn rewound(ix: Seq<usize>) -> Seq<usize> {
    let whole = 3 * (ix.len() / 3);
    Seq::new(
        ix.len(),
        |k: int|
            if k < whole && k % 3 == 1 {
                ix[k + 1]
            } else if k < whole && k % 3 == 2 {
                ix[k - 1]
            } else {
                ix[k]
            },
    )
}

pub open spec fn vertex_flipped(a: Vertex, b: Vertex) -> bool {
    b == Vertex { position: flip_z(a.position), normal: flip_z(a.normal), uv: a.uv, joint: a.joint }
}

pub open spec fn mesh_flipped(a: Mesh, b: Mesh) -> bool {
    &&& b.name@ == a.name@
    &&& b.vertices.len() == a.vertices.len()
    &&& forall|i: int|
        0 <= i < a.vertices.len() ==> vertex_flipped(a.vertices@[i], #[trigger] b.vertices@[i])
    &&& b.indices@ == rewound(a.indices@)
}

pub open spec fn joint_flipped(a: Joint, b: Joint) -> bool {
    &&& b.translation == flip_z(a.translation)
    &&& b.parent == a.parent
    &&& b.children@ == a.children@
}

pub open spec fn keyframe_flipped(a: Keyframe, b: Keyframe) -> bool {
    &&& b.translation == flip_z(a.translation)
    &&& b.transforms.len() == a.transforms.len()
    &&& forall|j: int|
        0 <= j < a.transforms.len() ==> (#[trigger] b.transforms@[j])@ == flip_matrix(
            a.transforms@[j]@,
        )
}

pub open spec fn animation_flipped(a: Animation, b: Animation) -> bool {
    &&& b.name@ == a.name@
    &&& b.frames.len() == a.frames.len()
    &&& forall|i: int|
        0 <= i < a.frames.len() ==> keyframe_flipped(a.frames@[i], #[trigger] b.frames@[i])
}

/// `b` is `a` in the other coordinate system.
pub open spec fn scene_flipped(a: Scene, b: Scene) -> bool {
    &&& b.meshes.len() == a.meshes.len()
    &&& forall|i: int| 0 <= i < a.meshes.len() ==> mesh_flipped(a.meshes@[i], #[trigger] b.meshes@[i])
    &&& b.skeleton.len() == a.skeleton.len()
    &&& forall|i: int|
        0 <= i < a.skeleton.len() ==> joint_flipped(a.skeleton@[i], #[trigger] b.skeleton@[i])
    &&& b.animations.len() == a.animations.len()
    &&& forall|i: int|
        0 <= i < a.animations.len() ==> animation_flipped(
            a.animations@[i],
            #[trigger] b.animations@[i],
        )
}

fn flip_vec(v: Vec3) -> (r: Vec3)
    ensures
        r == flip_z(v),
{
    Vec3 { x: v.x, y: v.y, z: v.z ^ 0x8000_0000u32 }
}

fn flip_mat(m: &Vec<u32>) -> (r: Vec<u32>)
    ensures
        r@ == flip_matrix(m@),
{
    let mut out: Vec<u32> = Vec::new();
    let mut k: usize = 0;
    while k < m.len()
        invariant
            k <= m@.len(),
            out@ == flip_matrix(m@).take(k as int),
        decreases m.len() - k,
    {
        let v = m[k];
        if (k % 4 == 2) != (k / 4 == 2) {
            out.push(v ^ 0x8000_0000u32);
        } else {
            out.push(v);
        }
        k = k + 1;
        assert(out@ =~= flip_matrix(m@).take(k as int));
    }
    assert(flip_matrix(m@).take(k as int) =~= flip_matrix(m@));
    out
}

fn rewind(ix: &Vec<usize>) -> (r: Vec<usize>)
    ensures
        r@ == rewound(ix@),
{
    let mut out: Vec<usize> = Vec::new();
    let whole = 3 * (ix.len() / 3);
    let mut k: usize = 0;
    while k < ix.len()
        invariant
            whole == 3 * (ix@.len() / 3),
            whole <= ix@.len(),
            k <= ix@.len(),
            out@ == rewound(ix@).take(k as int),
        decreases ix.len() - k,
    {
        if k < whole && k % 3 == 1 {
            out.push(ix[k + 1]);
        } else if k < whole && k % 3 == 2 {
            out.push(ix[k - 1]);
        } else {
            out.push(ix[k]);
        }
        k = k + 1;
        assert(out@ =~= rewound(ix@).take(k as int));
    }
    assert(rewound(ix@).take(k as int) =~= rewound(ix@));
    out
}

fn transform_mesh(mesh: &Mesh) -> (r: Mesh)
    ensures
        mesh_flipped(*mesh, r),
{
    let mut vertices: Vec<Vertex> = Vec::new();
    let mut i: usize = 0;
    while i < mesh.vertices.len()
        invariant
            i <= mesh.vertices@.len(),
            vertices.len() == i,
            forall|k: int|
                0 <= k < i ==> vertex_flipped(mesh.vertices@[k], #[trigger] vertices@[k]),
        decreases mesh.vertices.len() - i,
    {
        let v = mesh.vertices[i];
        vertices.push(
            Vertex {
                position: flip_vec(v.position),
                normal: flip_vec(v.normal),
                uv: v.uv,
                joint: v.joint,
            },
        );
        i = i + 1;
    }
    Mesh { name: mesh.name.clone(), vertices, indices: rewind(&mesh.indices) }
}

fn transform_joint(joint: &Joint) -> (r: Joint)
    ensures
        joint_flipped(*joint, r),
{
    let mut children: Vec<usize> = Vec::new();
    let mut k: usize = 0;
    while k < joint.children.len()
        invariant
            k <= joint.children@.len(),
            children@ == joint.children@.take(k as int),
        decreases joint.children.len() - k,
    {
        children.push(joint.children[k]);
        k = k + 1;
        assert(children@ =~= joint.children@.take(k as int));
    }
    assert(joint.children@.take(k as int) =~= joint.children@);
    Joint { translation: flip_vec(joint.translation), parent: joint.parent, children }
}

fn transform_animation(animation: &Animation) -> (r: Animation)
    ensures
        animation_flipped(*animation, r),
{
    let mut frames: Vec<Keyframe> = Vec::new();
    let mut i: usize = 0;
    while i < animation.frames.len()
        invariant
            i <= animation.frames@.len(),
            frames.len() == i,
            forall|k: int|
                0 <= k < i ==> keyframe_flipped(animation.frames@[k], #[trigger] frames@[k]),
        decreases animation.frames.len() - i,
    {
        let key = &animation.frames[i];
        let mut transforms: Vec<Vec<u32>> = Vec::new();
        let mut j: usize = 0;
        while j < key.transforms.len()
            invariant
                j <= key.transforms@.len(),
                transforms.len() == j,
                forall|m: int|
                    0 <= m < j ==> (#[trigger] transforms@[m])@ == flip_matrix(
                        key.transforms@[m]@,
                    ),
            decreases key.transforms.len() - j,
        {
            transforms.push(flip_mat(&key.transforms[j]));
            j = j + 1;
        }
        frames.push(Keyframe { translation: flip_vec(key.translation), transforms });
        i = i + 1;
    }
    Animation { name: animation.name.clone(), frames }
}

/// The scene in the other coordinate system; the same call converts back.
pub fn transform(scene: &Scene) -> (r: Scene)
    ensures
        scene_flipped(*scene, r),
{
    let mut meshes: Vec<Mesh> = Vec::new();
    let mut i: usize = 0;
    while i < scene.meshes.len()
        invariant
            i <= scene.meshes@.len(),
            meshes.len() == i,
            forall|k: int| 0 <= k < i ==> mesh_flipped(scene.meshes@[k], #[trigger] meshes@[k]),
        decreases scene.meshes.len() - i,
    {
        meshes.push(transform_mesh(&scene.meshes[i]));
        i = i + 1;
    }
    let mut skeleton: Vec<Joint> = Vec::new();
    let mut i: usize = 0;
    while i < scene.skeleton.len()
        invariant
            i <= scene.skeleton@.len(),
            skeleton.len() == i,
            forall|k: int|
                0 <= k < i ==> joint_flipped(scene.skeleton@[k], #[trigger] skeleton@[k]),
        decreases scene.skeleton.len() - i,
    {
        skeleton.push(transform_joint(&scene.skeleton[i]));
        i = i + 1;
    }
    let mut animations: Vec<Animation> = Vec::new();
    let mut i: usize = 0;
    while i < scene.animations.len()
        invariant
            i <= scene.animations@.len(),
            animations.len() == i,
            forall|k: int|
                0 <= k < i ==> animation_flipped(scene.animations@[k], #[trigger] animations@[k]),
        decreases scene.animations.len() - i,
    {
        animations.push(transform_animation(&scene.animations[i]));
        i = i + 1;
    }
    Scene { meshes, skeleton, animations }
}

/// Transforming twice gives back every vertex position and normal, every
/// triangle's winding, every joint translation and every rotation matrix.
pub proof fn lemma_transform_involution(a: Scene, b: Scene, c: Scene)
    requires
        scene_flipped(a, b),
        scene_flipped(b, c),
    ensures
        c.meshes.len() == a.meshes.len(),
        forall|i: int|
            0 <= i < a.meshes.len() ==> {
                &&& (#[trigger] c.meshes@[i]).indices@ == a.meshes@[i].indices@
                &&& c.meshes@[i].vertices@ == a.meshes@[i].vertices@
            },
        c.skeleton.len() == a.skeleton.len(),
        forall|i: int|
            0 <= i < a.skeleton.len() ==> (#[trigger] c.skeleton@[i]).translation
                == a.skeleton@[i].translation,
        c.animations.len() == a.animations.len(),
        forall|i: int, f: int, j: int|
            0 <= i < a.animations.len() && 0 <= f < a.animations@[i].frames.len() && 0 <= j
                < a.animations@[i].frames@[f].transforms.len() ==> {
                &&& (#[trigger] c.animations@[i].frames@[f].transforms@[j])@
                    == a.animations@[i].frames@[f].transforms@[j]@
                &&& c.animations@[i].frames@[f].translation
                    == a.animations@[i].frames@[f].translation
            },
{
    assert forall|v: u32| #[trigger] neg_bits(neg_bits(v)) == v by {
        lemma_neg_bits_involution(v);
    }
    assert forall|i: int| 0 <= i < a.meshes.len() implies {
        &&& (#[trigger] c.meshes@[i]).indices@ == a.meshes@[i].indices@
        &&& c.meshes@[i].vertices@ == a.meshes@[i].vertices@
    } by {
        let (ma, mb, mc) = (a.meshes@[i], b.meshes@[i], c.meshes@[i]);
        assert(mesh_flipped(ma, mb));
        assert(mesh_flipped(mb, mc));
        assert(rewound(rewound(ma.indices@)) =~= ma.indices@);
        assert forall|k: int| 0 <= k < ma.vertices.len() implies mc.vertices@[k]
            == ma.vertices@[k] by {
            assert(vertex_flipped(ma.vertices@[k], mb.vertices@[k]));
            assert(vertex_flipped(mb.vertices@[k], mc.vertices@[k]));
        }
        assert(mc.vertices@ =~= ma.vertices@);
    }
    assert forall|i: int| 0 <= i < a.skeleton.len() implies (#[trigger] c.skeleton@[i]).translation
        == a.skeleton@[i].translation by {
        assert(joint_flipped(a.skeleton@[i], b.skeleton@[i]));
        assert(joint_flipped(b.skeleton@[i], c.skeleton@[i]));
    }
    assert forall|i: int, f: int, j: int|
        0 <= i < a.animations.len() && 0 <= f < a.animations@[i].frames.len() && 0 <= j
            < a.animations@[i].frames@[f].transforms.len() implies {
        &&& (#[trigger] c.animations@[i].frames@[f].transforms@[j])@
            == a.animations@[i].frames@[f].transforms@[j]@
        &&& c.animations@[i].frames@[f].translation == a.animations@[i].frames@[f].translation
    } by {
        assert(animation_flipped(a.animations@[i], b.animations@[i]));
        assert(animation_flipped(b.animations@[i], c.animations@[i]));
        let (ka, kb, kc) = (
            a.animations@[i].frames@[f],
            b.animations@[i].frames@[f],
            c.animations@[i].frames@[f],
        );
        assert(keyframe_flipped(ka, kb));
        assert(keyframe_flipped(kb, kc));
        assert(flip_matrix(flip_matrix(ka.transforms@[j]@)) =~= ka.transforms@[j]@);
    }
}


/// The magnitude bits of a single-precision value: all but the sign.
pub open spec fn magnitude_bits(v: u32) -> u32 {
    v & 0x7fff_ffffu32
}

/// The mirror keeps each component's magnitude, so a vector's length: it only
/// changes the sign of z.
pub proof fn lemma_flip_keeps_magnitudes(v: Vec3)
    ensures
        magnitude_bits(flip_z(v).x) == magnitude_bits(v.x),
        magnitude_bits(flip_z(v).y) == magnitude_bits(v.y),
        magnitude_bits(flip_z(v).z) == magnitude_bits(v.z),
{
    let z = v.z;
    assert((z ^ 0x8000_0000u32) & 0x7fff_ffffu32 == z & 0x7fff_ffffu32) by (bit_vector);
}

} // verus!
