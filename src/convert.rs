//! Importing assets into scenes, merging scenes, and exporting scenes to the
//! game's formats.

use vstd::prelude::*;
use vstd::string::{StrSliceExecFns, StringExecFns};

use crate::animation::{accumulated_x, convert_frames, export_frames, same_matrices};
use crate::asset::{ascii_lower, file_extension, file_stem, Asset};
use crate::frm::{frm_complete, frm_le, frm_num_bones, frm_of, frm_wf, Frm};
use crate::geometry::{float_difference, Vec3};
use crate::p3m::{p3m_complete, p3m_fits, p3m_le, p3m_of, p3m_text_valid, P3m};
use crate::scene::{parents_valid, scene_wf, Animation, Joint, Keyframe, Mesh, Scene};
use crate::skeleton::{bones_valid, convert_joints, export_joints, exported_bones, joints_of, last_parent};
use crate::skinning::{
    convert_faces, convert_vertices, export_vertices, exported_skin_vertex, face_indices,
    imported_vertex, joint_of_bone,
};

verus! {

/// What can go wrong while converting assets.
#[derive(Clone, Copy, Debug, PartialEq, Eq, Structural)]
pub enum ConversionError {
    /// The bytes are truncated or malformed, or a text field is not UTF-8.
    Deserialization,
    /// No importer handles the file's extension.
    UnsupportedExtension,
}

fn same_text(a: &str, b: &str) -> (r: bool)
    ensures
        r == (a@ == b@),
{
    let n = a.unicode_len();
    if n != b.unicode_len() {
        return false;
    }
    let mut i: usize = 0;
    while i < n
        invariant
            n == a@.len(),
            n == b@.len(),
            i <= n,
            forall|k: int| 0 <= k < i ==> a@[k] == b@[k],
        decreases n - i,
    {
        if a.get_char(i) != b.get_char(i) {
            return false;
        }
        i = i + 1;
    }
    assert(a@ =~= b@);
    true
}

proof fn lemma_last_parent_below(kids: spec_fn(int) -> Seq<usize>, n: int, c: int)
    ensures
        last_parent(kids, n, c) matches Some(p) ==> p < n,
    decreases n,
{
    if n > 0 {
        lemma_last_parent_below(kids, n - 1, c);
    }
}

proof fn lemma_joints_parents_valid(joints: Seq<Joint>, pbs: Seq<crate::p3m::PositionBone>, abs: Seq<crate::p3m::AngleBone>)
    requires
        joints_of(joints, pbs, abs),
    ensures
        parents_valid(joints),
{
    assert forall|i: int| 0 <= i < joints.len() implies match (#[trigger] joints[i]).parent {
        Some(p) => p < joints.len(),
        None => true,
    } by {
        lemma_last_parent_below(
            |k: int| crate::skeleton::squashed_children(pbs, abs[k].children@),
            joints.len() as int,
            i,
        );
    }
}

/// Importing keeps the scene's skeleton: it has one and `keep` asks for it.
pub open spec fn uses_scene_skeleton(old: Scene, keep: bool) -> bool {
    keep && old.skeleton.len() > 0
}

/// The skeleton that importing `p` leaves: the scene's, or the one that the
/// bones describe.
pub open spec fn skeleton_kept(old: Scene, new: Scene, p: P3m, keep: bool) -> bool {
    if uses_scene_skeleton(old, keep) {
        new.skeleton == old.skeleton
    } else {
        joints_of(new.skeleton@, p.position_bones@, p.angle_bones@)
    }
}

/// The result of importing the model `p`, named `name`, into `old`. With
/// `keep`, the scene's skeleton is kept if it has one; otherwise the model's
/// bones make the skeleton. Every skin vertex must then name a joint of it or
/// no bone.
pub open spec fn mesh_imported(
    old: Scene,
    new: Scene,
    p: P3m,
    name: Seq<char>,
    r: Result<(), ConversionError>,
    keep: bool,
) -> bool {
    let bones_ok = uses_scene_skeleton(old, keep) || bones_valid(p.position_bones@, p.angle_bones@);
    let num_joints = if uses_scene_skeleton(old, keep) {
        old.skeleton.len() as int
    } else {
        p.angle_bones.len() as int
    };
    let np = p.position_bones.len() as int;
    let vertices_ok = forall|i: int|
        0 <= i < p.skin_vertices.len() ==> joint_of_bone(
            #[trigger] p.skin_vertices@[i].bone_index,
            np,
            num_joints,
        ) is Some;
    &&& r is Ok <==> bones_ok && vertices_ok
    &&& r matches Err(e) ==> e == ConversionError::Deserialization && new == old
    &&& r is Ok ==> {
        let m = new.meshes@.last();
        &&& skeleton_kept(old, new, p, keep)
        &&& new.animations == old.animations
        &&& new.meshes.len() == old.meshes.len() + 1
        &&& forall|k: int| 0 <= k < old.meshes.len() ==> #[trigger] new.meshes@[k] == old.meshes@[k]
        &&& m.name@ == name
        &&& m.vertices.len() == p.skin_vertices.len()
        &&& forall|i: int|
            0 <= i < m.vertices.len() ==> #[trigger] m.vertices@[i] == imported_vertex(
                p.skin_vertices@[i],
                joint_of_bone(p.skin_vertices@[i].bone_index, np, num_joints)->Some_0,
                new.skeleton@,
            )
        &&& m.indices.len() == 3 * p.faces.len()
        &&& forall|k: int, j: int|
            0 <= k < p.faces.len() && 0 <= j < 3 ==> m.indices@[3 * k + j] == (
            #[trigger] p.faces@[k]@[j]) as usize
    }
}

/// Adds the mesh of a decoded model to the scene, and the model's skeleton
/// unless `keep_skeleton` asks to keep one the scene has. On failure the scene
/// is left as it was.
pub fn import_mesh(p3m: &P3m, name: String, scene: &mut Scene, keep_skeleton: bool) -> (r: Result<
    (),
    ConversionError,
>)
    requires
        parents_valid(old(scene).skeleton@),
    ensures
        mesh_imported(*old(scene), *final(scene), *p3m, name@, r, keep_skeleton),
        parents_valid(final(scene).skeleton@),
        scene_wf(*old(scene)) && (keep_skeleton || old(scene).skeleton.len() == 0) ==> scene_wf(
            *final(scene),
        ),
{
    if scene.skeleton.len() == 0 || !keep_skeleton {
        let joints = match convert_joints(&p3m.position_bones, &p3m.angle_bones) {
            Ok(joints) => joints,
            Err(e) => return Err(e),
        };
        proof {
            lemma_joints_parents_valid(joints@, p3m.position_bones@, p3m.angle_bones@);
        }
        let vertices = match convert_vertices(&p3m.skin_vertices, p3m.position_bones.len(), &joints) {
            Ok(v) => v,
            Err(e) => return Err(e),
        };
        let indices = face_indices(&p3m.faces);
        let ghost before = *scene;
        scene.skeleton = joints;
        scene.meshes.push(Mesh { name, vertices, indices });
        proof {
            if scene_wf(before) && before.skeleton.len() == 0 {
                lemma_imported_wf(before, *scene, *p3m);
            }
        }
    } else {
        let vertices = match convert_vertices(
            &p3m.skin_vertices,
            p3m.position_bones.len(),
            &scene.skeleton,
        ) {
            Ok(v) => v,
            Err(e) => return Err(e),
        };
        let indices = face_indices(&p3m.faces);
        let ghost before = *scene;
        scene.meshes.push(Mesh { name, vertices, indices });
        proof {
            if scene_wf(before) {
                assert forall|m: int, v: int|
                    0 <= m < scene.meshes.len() && 0 <= v < scene.meshes@[m].vertices.len()
                        implies match (#[trigger] scene.meshes@[m].vertices@[v]).joint {
                    Some(j) => j < scene.skeleton.len(),
                    None => true,
                } by {
                    if m < before.meshes.len() {
                        assert(scene.meshes@[m] == before.meshes@[m]);
                    }
                }
            }
        }
    }
    Ok(())
}

/// A mesh and skeleton made from valid bones keep a well-formed scene
/// well-formed.
proof fn lemma_imported_wf(before: Scene, after: Scene, p: P3m)
    requires
        scene_wf(before),
        before.skeleton.len() == 0,
        bones_valid(p.position_bones@, p.angle_bones@),
        joints_of(after.skeleton@, p.position_bones@, p.angle_bones@),
        parents_valid(after.skeleton@),
        after.meshes.len() == before.meshes.len() + 1,
        forall|k: int| 0 <= k < before.meshes.len() ==> #[trigger] after.meshes@[k] == before.meshes@[k],
        forall|v: int|
            0 <= v < after.meshes@.last().vertices.len() ==> match (
            #[trigger] after.meshes@.last().vertices@[v]).joint {
                Some(j) => j < after.skeleton.len(),
                None => true,
            },
    ensures
        scene_wf(after),
{
    let na = p.angle_bones.len() as int;
    assert forall|i: int, k: int|
        0 <= i < after.skeleton.len() && 0 <= k < after.skeleton@[i].children.len() implies (
        #[trigger] after.skeleton@[i].children@[k]) < after.skeleton.len() by {
        lemma_squashed_below(p.position_bones@, p.angle_bones@, p.angle_bones@[i].children@);
    }
    assert forall|m: int, v: int|
        0 <= m < after.meshes.len() && 0 <= v < after.meshes@[m].vertices.len() implies match (
        #[trigger] after.meshes@[m].vertices@[v]).joint {
        Some(j) => j < after.skeleton.len(),
        None => true,
    } by {
        if m < before.meshes.len() {
            assert(after.meshes@[m] == before.meshes@[m]);
            assert(match before.meshes@[m].vertices@[v].joint {
                Some(j) => j < before.skeleton.len(),
                None => true,
            });
        } else {
            assert(after.meshes@[m] == after.meshes@.last());
            assert(match after.meshes@.last().vertices@[v].joint {
                Some(j) => j < after.skeleton.len(),
                None => true,
            });
        }
    }
}

/// The angle bones reached through position bones are angle bones.
proof fn lemma_squashed_below(
    pbs: Seq<crate::p3m::PositionBone>,
    abs: Seq<crate::p3m::AngleBone>,
    through: Seq<u8>,
)
    requires
        bones_valid(pbs, abs),
        forall|k: int| 0 <= k < through.len() ==> through[k] < pbs.len(),
    ensures
        forall|k: int|
            0 <= k < crate::skeleton::squashed_children(pbs, through).len() ==> (
            #[trigger] crate::skeleton::squashed_children(pbs, through)[k]) < abs.len(),
    decreases through.len(),
{
    if through.len() > 0 {
        lemma_squashed_below(pbs, abs, through.drop_last());
        let init = crate::skeleton::squashed_children(pbs, through.drop_last());
        let x = through.last() as int;
        let added = crate::skeleton::widen(pbs[x].children@);
        assert forall|k: int| 0 <= k < init.len() + added.len() implies (
        #[trigger] crate::skeleton::squashed_children(pbs, through)[k]) < abs.len() by {
            if k >= init.len() {
                assert(pbs[x].children@[k - init.len()] < abs.len());
            }
        }
    }
}

/// Decodes a `.p3m` file and adds its mesh, and its skeleton when the scene
/// has none.
pub fn import_p3m(bytes: &[u8], name: String, scene: &mut Scene) -> (r: Result<(), ConversionError>)
    requires
        parents_valid(old(scene).skeleton@),
    ensures
        !(p3m_complete(bytes@) && p3m_text_valid(bytes@)) ==> r == Err::<(), ConversionError>(
            ConversionError::Deserialization,
        ) && *final(scene) == *old(scene),
        p3m_complete(bytes@) && p3m_text_valid(bytes@) ==> exists|p: P3m|
            p3m_of(p, bytes@) && mesh_imported(*old(scene), *final(scene), p, name@, r, true),
        parents_valid(final(scene).skeleton@),
        scene_wf(*old(scene)) ==> scene_wf(*final(scene)),
{
    match P3m::from_bytes(bytes) {
        Ok(p3m) => import_mesh(&p3m, name, scene, true),
        Err(e) => Err(e),
    }
}

/// The result of importing the animation `f`, named `name`, into `old`.
pub open spec fn animation_imported(old: Scene, new: Scene, f: Frm, name: Seq<char>) -> bool {
    let a = new.animations@.last();
    &&& new.skeleton == old.skeleton
    &&& new.meshes == old.meshes
    &&& new.animations.len() == old.animations.len() + 1
    &&& forall|k: int| 0 <= k < old.animations.len() ==> #[trigger] new.animations@[k] == old.animations@[k]
    &&& a.name@ == name
    &&& a.frames.len() == f.frames.len()
    &&& forall|i: int|
        0 <= i < a.frames.len() ==> {
            &&& (#[trigger] a.frames@[i]).translation == (Vec3 {
                x: accumulated_x(f.frames@, i + 1),
                y: f.frames@[i].pos_y,
                z: f.frames@[i].pos_z,
            })
            &&& same_matrices(a.frames@[i].transforms@, f.frames@[i].bones@)
        }
}

/// Decodes a `.frm` file and adds its animation to the scene.
pub fn import_frm(bytes: &[u8], name: String, scene: &mut Scene) -> (r: Result<(), ConversionError>)
    ensures
        r is Ok <==> frm_complete(bytes@),
        r is Err ==> r == Err::<(), ConversionError>(ConversionError::Deserialization)
            && *final(scene) == *old(scene),
        r is Ok ==> exists|f: Frm| frm_of(f, bytes@) && animation_imported(*old(scene), *final(scene), f, name@),
        scene_wf(*old(scene)) ==> scene_wf(*final(scene)),
{
    match Frm::from_bytes(bytes) {
        Ok(frm) => {
            let frames = convert_frames(&frm);
            scene.animations.push(Animation { name, frames });
            Ok(())
        },
        Err(e) => Err(e),
    }
}

/// Imports the bytes of an asset by its extension, already in lower case:
/// `p3m` models and `frm` animations; any other extension is not supported.
pub fn import_by_extension(extension: &str, bytes: &[u8], name: String, scene: &mut Scene) -> (r: Result<(), ConversionError>)
    requires
        parents_valid(old(scene).skeleton@),
    ensures
        parents_valid(final(scene).skeleton@),
        scene_wf(*old(scene)) ==> scene_wf(*final(scene)),
        extension@ == "p3m"@ ==> {
            &&& !(p3m_complete(bytes@) && p3m_text_valid(bytes@)) ==> r
                == Err::<(), ConversionError>(ConversionError::Deserialization) && *final(scene)
                == *old(scene)
            &&& p3m_complete(bytes@) && p3m_text_valid(bytes@) ==> exists|p: P3m|
                p3m_of(p, bytes@) && mesh_imported(
                    *old(scene),
                    *final(scene),
                    p,
                    name@,
                    r,
                    true,
                )
        },
        extension@ == "frm"@ ==> {
            &&& r is Ok <==> frm_complete(bytes@)
            &&& r is Err ==> r == Err::<(), ConversionError>(ConversionError::Deserialization)
                && *final(scene) == *old(scene)
            &&& r is Ok ==> exists|f: Frm|
                frm_of(f, bytes@) && animation_imported(
                    *old(scene),
                    *final(scene),
                    f,
                    name@,
                )
        },
        extension@ != "p3m"@ && extension@ != "frm"@ ==> r == Err::<(), ConversionError>(ConversionError::UnsupportedExtension)
            && *final(scene) == *old(scene),
{
    proof {
        reveal_strlit("p3m");
        reveal_strlit("frm");
        assert("p3m"@[0] != "frm"@[0]);
        assert("p3m"@ != "frm"@);
    }
    if same_text(extension, "p3m") {
        import_p3m(bytes, name, scene)
    } else if same_text(extension, "frm") {
        import_frm(bytes, name, scene)
    } else {
        Err(ConversionError::UnsupportedExtension)
    }
}

/// Imports an asset by its extension, in any case: `p3m` models and `frm`
/// animations; any other extension is not supported.
pub fn import_asset(asset: &Asset, scene: &mut Scene) -> (r: Result<(), ConversionError>)
    requires
        parents_valid(old(scene).skeleton@),
    ensures
        parents_valid(final(scene).skeleton@),
        scene_wf(*old(scene)) ==> scene_wf(*final(scene)),
        ascii_lower(file_extension(asset.path@)) == "p3m"@ ==> {
            &&& !(p3m_complete(asset.bytes@) && p3m_text_valid(asset.bytes@)) ==> r
                == Err::<(), ConversionError>(ConversionError::Deserialization) && *final(scene)
                == *old(scene)
            &&& p3m_complete(asset.bytes@) && p3m_text_valid(asset.bytes@) ==> exists|p: P3m|
                p3m_of(p, asset.bytes@) && mesh_imported(
                    *old(scene),
                    *final(scene),
                    p,
                    file_stem(asset.path@),
                    r,
                    true,
                )
        },
        ascii_lower(file_extension(asset.path@)) == "frm"@ ==> {
            &&& r is Ok <==> frm_complete(asset.bytes@)
            &&& r is Err ==> r == Err::<(), ConversionError>(ConversionError::Deserialization)
                && *final(scene) == *old(scene)
            &&& r is Ok ==> exists|f: Frm|
                frm_of(f, asset.bytes@) && animation_imported(
                    *old(scene),
                    *final(scene),
                    f,
                    file_stem(asset.path@),
                )
        },
        ascii_lower(file_extension(asset.path@)) != "p3m"@ && ascii_lower(file_extension(asset.path@))
            != "frm"@ ==> r == Err::<(), ConversionError>(ConversionError::UnsupportedExtension)
            && *final(scene) == *old(scene),
{
    let extension = asset.extension();
    import_by_extension(extension.as_str(), asset.bytes.as_slice(), String::from_str(asset.name()), scene)
}


// ---------------------------------------------------------------------------
// Export to the game's formats.

/// `p` is the model that mesh `m` of a scene with `skeleton` is exported to.
pub open spec fn exported_model(p: P3m, skeleton: Seq<Joint>, m: Mesh) -> bool {
    let np = p.position_bones.len() as int;
    &&& p.version_header@ == "Perfact 3D Model (Ver 0.5)"@
    &&& p.texture_name@.len() == 0
    &&& exported_bones(skeleton, p.position_bones@, p.angle_bones@)
    &&& p.skin_vertices.len() == m.vertices.len()
    &&& forall|i: int|
        0 <= i < m.vertices.len() ==> #[trigger] p.skin_vertices@[i] == exported_skin_vertex(
            m.vertices@[i],
            np,
            skeleton,
        )
    &&& p.mesh_vertices.len() == m.vertices.len()
    &&& forall|i: int|
        0 <= i < m.vertices.len() ==> (#[trigger] p.mesh_vertices@[i]).position
            == m.vertices@[i].position && p.mesh_vertices@[i].normal == m.vertices@[i].normal
            && p.mesh_vertices@[i].uv == m.vertices@[i].uv
    &&& p.faces.len() * 3 == m.indices.len()
    &&& forall|k: int|
        0 <= k < p.faces.len() ==> (#[trigger] p.faces@[k])@ == seq![
            m.indices@[3 * k] as u16,
            m.indices@[3 * k + 1] as u16,
            m.indices@[3 * k + 2] as u16,
        ]
}

/// A mesh that fits a model file, its vertices bound to joints of `skeleton`.
pub open spec fn mesh_exportable(m: Mesh, skeleton: Seq<Joint>) -> bool {
    &&& m.vertices.len() <= 0xffff
    &&& m.indices.len() % 3 == 0
    &&& m.indices.len() <= 3 * 0xffff
    &&& forall|i: int|
        0 <= i < m.vertices.len() ==> match (#[trigger] m.vertices@[i]).joint {
            Some(j) => j < skeleton.len(),
            None => true,
        }
}

/// The file name of an output: `name`, or `fallback` when it is empty, then
/// the extension.
pub open spec fn output_path(name: Seq<char>, fallback: Seq<char>, extension: Seq<char>) -> Seq<char> {
    (if name.len() == 0 {
        fallback
    } else {
        name
    }) + extension
}

fn output_name(name: &String, fallback: &str, extension: &str) -> (r: String)
    ensures
        r@ == output_path(name@, fallback@, extension@),
{
    let base = if name.unicode_len() == 0 {
        String::from_str(fallback)
    } else {
        name.clone()
    };
    base.concat(extension)
}

/// Writes each mesh, with the scene's skeleton, as a `.p3m` file.
pub fn export_p3m(scene: &Scene) -> (r: Vec<Asset>)
    requires
        parents_valid(scene.skeleton@),
        forall|m: int|
            0 <= m < scene.meshes.len() ==> mesh_exportable(
                #[trigger] scene.meshes@[m],
                scene.skeleton@,
            ),
    ensures
        r.len() == scene.meshes.len(),
        forall|m: int|
            0 <= m < scene.meshes.len() ==> {
                &&& (#[trigger] r@[m]).path@ == output_path(
                    scene.meshes@[m].name@,
                    "mesh"@,
                    ".p3m"@,
                )
                &&& exists|p: P3m|
                    exported_model(p, scene.skeleton@, scene.meshes@[m]) && r@[m].bytes@
                        == p3m_le(p)
            },
{
    let mut assets: Vec<Asset> = Vec::new();
    let mut i: usize = 0;
    while i < scene.meshes.len()
        invariant
            parents_valid(scene.skeleton@),
            forall|m: int|
                0 <= m < scene.meshes.len() ==> mesh_exportable(
                    #[trigger] scene.meshes@[m],
                    scene.skeleton@,
                ),
            i <= scene.meshes@.len(),
            assets.len() == i,
            forall|m: int|
                0 <= m < i ==> {
                    &&& (#[trigger] assets@[m]).path@ == output_path(
                        scene.meshes@[m].name@,
                        "mesh"@,
                        ".p3m"@,
                    )
                    &&& exists|p: P3m|
                        exported_model(p, scene.skeleton@, scene.meshes@[m]) && assets@[m].bytes@
                            == p3m_le(p)
                },
        decreases scene.meshes.len() - i,
    {
        let mesh = &scene.meshes[i];
        assert(mesh_exportable(*mesh, scene.skeleton@));
        let (position_bones, angle_bones) = export_joints(&scene.skeleton);
        assert(position_bones.len() <= 255) by {
            crate::skeleton::lemma_extra_roots_len(scene.skeleton@);
        }
        let (skin_vertices, mesh_vertices) = export_vertices(
            &mesh.vertices,
            position_bones.len(),
            &scene.skeleton,
        );
        let faces = convert_faces(&mesh.indices);
        let p3m = P3m {
            version_header: "Perfact 3D Model (Ver 0.5)".to_owned(),
            position_bones,
            angle_bones,
            texture_name: String::new(),
            faces,
            skin_vertices,
            mesh_vertices,
        };
        assert(exported_model(p3m, scene.skeleton@, *mesh));
        let bytes = p3m.to_bytes();
        let path = output_name(&mesh.name, "mesh", ".p3m");
        let asset = Asset::new(bytes, path.as_str());
        let ghost old_assets = assets@;
        assets.push(asset);
        assert forall|m: int| 0 <= m < i implies #[trigger] assets@[m] == old_assets[m] by {}
        assert(exported_model(p3m, scene.skeleton@, scene.meshes@[i as int]) && assets@[i as int].bytes@
            == p3m_le(p3m));
        assert(assets@[i as int].path@ == output_path(scene.meshes@[i as int].name@, "mesh"@, ".p3m"@));
        i = i + 1;
    }
    assets
}

/// The number of transforms of the first keyframe, or zero.
pub open spec fn first_transforms(a: Animation) -> int {
    if a.frames.len() == 0 {
        0
    } else {
        a.frames@[0].transforms.len() as int
    }
}

/// An animation that fits a version 1.1 file: every keyframe has as many
/// transforms as the first, each of 16 components.
pub open spec fn animation_exportable(a: Animation) -> bool {
    &&& a.frames.len() <= 0xffff
    &&& first_transforms(a) <= 0xffff
    &&& forall|f: int|
        0 <= f < a.frames.len() ==> (#[trigger] a.frames@[f]).transforms.len() == first_transforms(
            a,
        )
    &&& forall|f: int, j: int|
        0 <= f < a.frames.len() && 0 <= j < first_transforms(a) ==> (
        #[trigger] a.frames@[f].transforms@[j])@.len() == 16
}

/// `f` is the version 1.1 animation that `a` is exported to.
pub open spec fn exported_animation(f: Frm, a: Animation) -> bool {
    &&& f.version == crate::frm::FrmVersion::V1_1
    &&& f.frames.len() == a.frames.len()
    &&& forall|i: int|
        0 <= i < f.frames.len() ==> {
            let k = a.frames@[i];
            &&& (#[trigger] f.frames@[i]).option == 0
            &&& f.frames@[i].pos_x == float_difference(
                k.translation.x,
                if i == 0 {
                    0u32
                } else {
                    a.frames@[i - 1].translation.x
                },
            )
            &&& f.frames@[i].pos_y == k.translation.y
            &&& f.frames@[i].pos_z == k.translation.z
            &&& same_matrices(f.frames@[i].bones@, k.transforms@)
        }
}

/// Writes each animation as a version 1.1 `.frm` file.
pub fn export_frm(scene: &Scene) -> (r: Vec<Asset>)
    requires
        forall|a: int|
            0 <= a < scene.animations.len() ==> animation_exportable(
                #[trigger] scene.animations@[a],
            ),
    ensures
        r.len() == scene.animations.len(),
        forall|a: int|
            0 <= a < scene.animations.len() ==> {
                &&& (#[trigger] r@[a]).path@ == output_path(
                    scene.animations@[a].name@,
                    "animation"@,
                    ".frm"@,
                )
                &&& exists|f: Frm|
                    exported_animation(f, scene.animations@[a]) && r@[a].bytes@ == frm_le(f)
            },
{
    let mut assets: Vec<Asset> = Vec::new();
    let mut i: usize = 0;
    while i < scene.animations.len()
        invariant
            forall|a: int|
                0 <= a < scene.animations.len() ==> animation_exportable(
                    #[trigger] scene.animations@[a],
                ),
            i <= scene.animations@.len(),
            assets.len() == i,
            forall|a: int|
                0 <= a < i ==> {
                    &&& (#[trigger] assets@[a]).path@ == output_path(
                        scene.animations@[a].name@,
                        "animation"@,
                        ".frm"@,
                    )
                    &&& exists|f: Frm|
                        exported_animation(f, scene.animations@[a]) && assets@[a].bytes@
                            == frm_le(f)
                },
        decreases scene.animations.len() - i,
    {
        let animation = &scene.animations[i];
        assert(animation_exportable(*animation));
        let frm = export_frames(animation);
        assert(exported_animation(frm, *animation));
        assert(frm_wf(frm)) by {
            if frm.frames.len() > 0 {
                assert(same_matrices(frm.frames@[0].bones@, animation.frames@[0].transforms@));
            }
            assert forall|f: int| 0 <= f < frm.frames.len() implies (#[trigger] frm.frames@[f]).bones.len()
                == frm_num_bones(frm) by {
                assert(same_matrices(frm.frames@[f].bones@, animation.frames@[f].transforms@));
                assert(same_matrices(frm.frames@[0].bones@, animation.frames@[0].transforms@));
            }
            assert forall|f: int, j: int|
                0 <= f < frm.frames.len() && 0 <= j < frm_num_bones(frm) implies (
                #[trigger] frm.frames@[f].bones@[j])@.len() == 16 by {
                assert(same_matrices(frm.frames@[f].bones@, animation.frames@[f].transforms@));
                assert(same_matrices(frm.frames@[0].bones@, animation.frames@[0].transforms@));
                assert(animation.frames@[f].transforms@[j]@.len() == 16);
            }
        }
        let bytes = frm.to_bytes();
        let path = output_name(&animation.name, "animation", ".frm");
        let asset = Asset::new(bytes, path.as_str());
        let ghost old_assets = assets@;
        assets.push(asset);
        assert forall|a: int| 0 <= a < i implies #[trigger] assets@[a] == old_assets[a] by {}
        assert(exported_animation(frm, scene.animations@[i as int]) && assets@[i as int].bytes@
            == frm_le(frm));
        i = i + 1;
    }
    assets
}

// ---------------------------------------------------------------------------
// Merging.

/// The skeleton of the scenes merged in order: the first non-empty one.
pub open spec fn merged_skeleton(s: Seq<Scene>) -> Seq<Joint>
    decreases s.len(),
{
    if s.len() == 0 {
        seq![]
    } else if s.len() == 1 {
        s[0].skeleton@
    } else {
        let m = merged_skeleton(s.drop_last());
        if m.len() == 0 {
            s.last().skeleton@
        } else {
            m
        }
    }
}

/// The meshes of the scenes, in order.
pub open spec fn merged_meshes(s: Seq<Scene>) -> Seq<Mesh>
    decreases s.len(),
{
    if s.len() == 0 {
        seq![]
    } else {
        merged_meshes(s.drop_last()) + s.last().meshes@
    }
}

/// The animations of the scenes, in order.
pub open spec fn merged_animations(s: Seq<Scene>) -> Seq<Animation>
    decreases s.len(),
{
    if s.len() == 0 {
        seq![]
    } else {
        merged_animations(s.drop_last()) + s.last().animations@
    }
}

/// Merges the scenes pairwise, in order; `None` when there are none.
pub fn merge_all(scenes: Vec<Scene>) -> (r: Option<Scene>)
    ensures
        r is None <==> scenes.len() == 0,
        r matches Some(s) ==> s.skeleton@ == merged_skeleton(scenes@) && s.meshes@
            == merged_meshes(scenes@) && s.animations@ == merged_animations(scenes@),
{
    let ghost all = scenes@;
    let count = scenes.len();
    let mut rest = scenes;
    if rest.len() == 0 {
        return None;
    }
    let mut acc = rest.remove(0);
    let ghost first = all.take(1);
    assert(acc == all[0]);
    assert(first.drop_last() =~= seq![]);
    assert(first.last() == all[0]);
    assert(rest@ =~= all.skip(1));
    assert(merged_meshes(first.drop_last()) =~= seq![]);
    assert(merged_animations(first.drop_last()) =~= seq![]);
    assert(acc.meshes@ =~= merged_meshes(first));
    assert(acc.animations@ =~= merged_animations(first));
    let mut k: usize = 1;
    while rest.len() > 0
        invariant
            1 <= k <= all.len(),
            count == all.len(),
            rest@ == all.skip(k as int),
            acc.skeleton@ == merged_skeleton(all.take(k as int)),
            acc.meshes@ == merged_meshes(all.take(k as int)),
            acc.animations@ == merged_animations(all.take(k as int)),
        decreases rest.len(),
    {
        let next = rest.remove(0);
        let ghost prefix = all.take(k + 1);
        assert(prefix.drop_last() =~= all.take(k as int));
        assert(prefix.last() == all[k as int]);
        let ghost before = acc.skeleton@;
        acc = acc.merge(next);
        assert(acc.skeleton@ == merged_skeleton(prefix));
        k = k + 1;
        assert(rest@ =~= all.skip(k as int));
    }
    assert(all.take(k as int) =~= all);
    Some(acc)
}


// ---------------------------------------------------------------------------
// The importers and exporters of the pipeline.

/// Imports the game's models and animations, by extension.
#[derive(Clone, Copy, Debug, Default, PartialEq, Eq)]
pub struct GrandChaseImporter {}

/// Imports the game's models.
#[derive(Clone, Copy, Debug, Default, PartialEq, Eq)]
pub struct P3mImporter {}

/// Imports the game's animations.
#[derive(Clone, Copy, Debug, Default, PartialEq, Eq)]
pub struct FrmImporter {}

/// Exports each mesh as a model of the game.
#[derive(Clone, Copy, Debug, Default, PartialEq, Eq)]
pub struct P3mExporter {}

/// Exports each animation as an animation of the game.
#[derive(Clone, Copy, Debug, Default, PartialEq, Eq)]
pub struct FrmExporter {}

impl GrandChaseImporter {
    pub fn import(&self, asset: &Asset, scene: &mut Scene) -> (r: Result<(), ConversionError>)
        requires
            parents_valid(old(scene).skeleton@),
        ensures
            parents_valid(final(scene).skeleton@),
            scene_wf(*old(scene)) ==> scene_wf(*final(scene)),
            ascii_lower(file_extension(asset.path@)) == "p3m"@ ==> {
                &&& !(p3m_complete(asset.bytes@) && p3m_text_valid(asset.bytes@)) ==> r
                    == Err::<(), ConversionError>(ConversionError::Deserialization) && *final(scene)
                    == *old(scene)
                &&& p3m_complete(asset.bytes@) && p3m_text_valid(asset.bytes@) ==> exists|p: P3m|
                    p3m_of(p, asset.bytes@) && mesh_imported(
                        *old(scene),
                        *final(scene),
                        p,
                        file_stem(asset.path@),
                        r,
                        true,
                    )
            },
            ascii_lower(file_extension(asset.path@)) == "frm"@ ==> {
                &&& r is Ok <==> frm_complete(asset.bytes@)
                &&& r is Err ==> r == Err::<(), ConversionError>(ConversionError::Deserialization)
                    && *final(scene) == *old(scene)
                &&& r is Ok ==> exists|f: Frm|
                    frm_of(f, asset.bytes@) && animation_imported(
                        *old(scene),
                        *final(scene),
                        f,
                        file_stem(asset.path@),
                    )
            },
            ascii_lower(file_extension(asset.path@)) != "p3m"@ && ascii_lower(file_extension(asset.path@))
                != "frm"@ ==> r == Err::<(), ConversionError>(ConversionError::UnsupportedExtension)
                && *final(scene) == *old(scene),
    {
        import_asset(asset, scene)
    }

    /// The extensions it imports.
    pub fn extensions(&self) -> (r: Vec<&'static str>)
        ensures
            r@.len() == 2,
            r@[0]@ == "p3m"@,
            r@[1]@ == "frm"@,
    {
        vec!["p3m", "frm"]
    }
}

impl P3mImporter {
    /// Decodes a model and adds its mesh; its bones replace the scene's
    /// skeleton.
    pub fn import(&self, asset: &Asset, scene: &mut Scene) -> (r: Result<(), ConversionError>)
        requires
            parents_valid(old(scene).skeleton@),
        ensures
            !(p3m_complete(asset.bytes@) && p3m_text_valid(asset.bytes@)) ==> r == Err::<
                (),
                ConversionError,
            >(ConversionError::Deserialization) && *final(scene) == *old(scene),
            p3m_complete(asset.bytes@) && p3m_text_valid(asset.bytes@) ==> exists|p: P3m|
                p3m_of(p, asset.bytes@) && mesh_imported(
                    *old(scene),
                    *final(scene),
                    p,
                    file_stem(asset.path@),
                    r,
                    false,
                ),
            parents_valid(final(scene).skeleton@),
            scene_wf(*old(scene)) && old(scene).skeleton.len() == 0 ==> scene_wf(*final(scene)),
    {
        match P3m::from_bytes(asset.bytes.as_slice()) {
            Ok(p3m) => import_mesh(&p3m, String::from_str(asset.name()), scene, false),
            Err(e) => Err(e),
        }
    }

    pub fn extensions(&self) -> (r: Vec<&'static str>)
        ensures
            r@.len() == 1,
            r@[0]@ == "p3m"@,
    {
        vec!["p3m"]
    }
}

impl FrmImporter {
    pub fn import(&self, asset: &Asset, scene: &mut Scene) -> (r: Result<(), ConversionError>)
        ensures
            r is Ok <==> frm_complete(asset.bytes@),
            r is Err ==> r == Err::<(), ConversionError>(ConversionError::Deserialization)
                && *final(scene) == *old(scene),
            r is Ok ==> exists|f: Frm|
                frm_of(f, asset.bytes@) && animation_imported(
                    *old(scene),
                    *final(scene),
                    f,
                    file_stem(asset.path@),
                ),
            scene_wf(*old(scene)) ==> scene_wf(*final(scene)),
    {
        import_frm(asset.bytes.as_slice(), String::from_str(asset.name()), scene)
    }

    pub fn extensions(&self) -> (r: Vec<&'static str>)
        ensures
            r@.len() == 1,
            r@[0]@ == "frm"@,
    {
        vec!["frm"]
    }
}

impl P3mExporter {
    pub fn export(&self, scene: &Scene) -> (r: Vec<Asset>)
        requires
            parents_valid(scene.skeleton@),
            forall|m: int|
                0 <= m < scene.meshes.len() ==> mesh_exportable(
                    #[trigger] scene.meshes@[m],
                    scene.skeleton@,
                ),
        ensures
            r.len() == scene.meshes.len(),
            forall|m: int|
                0 <= m < scene.meshes.len() ==> {
                    &&& (#[trigger] r@[m]).path@ == output_path(
                        scene.meshes@[m].name@,
                        "mesh"@,
                        ".p3m"@,
                    )
                    &&& exists|p: P3m|
                        exported_model(p, scene.skeleton@, scene.meshes@[m]) && r@[m].bytes@
                            == p3m_le(p)
                },
    {
        export_p3m(scene)
    }
}

impl FrmExporter {
    pub fn export(&self, scene: &Scene) -> (r: Vec<Asset>)
        requires
            forall|a: int|
                0 <= a < scene.animations.len() ==> animation_exportable(
                    #[trigger] scene.animations@[a],
                ),
        ensures
            r.len() == scene.animations.len(),
            forall|a: int|
                0 <= a < scene.animations.len() ==> {
                    &&& (#[trigger] r@[a]).path@ == output_path(
                        scene.animations@[a].name@,
                        "animation"@,
                        ".frm"@,
                    )
                    &&& exists|f: Frm|
                        exported_animation(f, scene.animations@[a]) && r@[a].bytes@ == frm_le(f)
                },
    {
        export_frm(scene)
    }
}

} // verus!
