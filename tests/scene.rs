use chaseconv::animation::{convert_frames, export_frames};
use chaseconv::asset::Asset;
use chaseconv::convert::{
    import_asset, import_by_extension, import_p3m, merge_all, ConversionError, P3mImporter,
};
use chaseconv::frm::{Frame, Frm, FrmVersion};
use chaseconv::geometry::{Vec2, Vec3};
use chaseconv::p3m::{AngleBone, P3m, PositionBone, SkinVertex};
use chaseconv::scene::{Animation, Joint, Keyframe, Mesh, Scene, Vertex};
use chaseconv::skeleton::{convert_joints, export_joints};
use chaseconv::skinning::{convert_vertices, face_indices};
use chaseconv::transform::transform;

fn v3(x: f32, y: f32, z: f32) -> Vec3 {
    Vec3::new(x.to_bits(), y.to_bits(), z.to_bits())
}

fn v2(x: f32, y: f32) -> Vec2 {
    Vec2::new(x.to_bits(), y.to_bits())
}

fn joint(t: f32, parent: Option<usize>, children: Vec<usize>) -> Joint {
    Joint { translation: v3(t, t, t), parent, children }
}

#[test]
fn scene_joint_world_translation() {
    let scene = Scene {
        meshes: Vec::new(),
        skeleton: vec![
            joint(1., None, vec![1, 2]),
            joint(2., Some(0), vec![3]),
            joint(4., Some(0), Vec::new()),
            joint(0., Some(1), Vec::new()),
        ],
        animations: Vec::new(),
    };

    assert_eq!(v3(1., 1., 1.), scene.joint_world_translation(0));
    assert_eq!(v3(3., 3., 3.), scene.joint_world_translation(1));
    assert_eq!(v3(5., 5., 5.), scene.joint_world_translation(2));
    assert_eq!(v3(3., 3., 3.), scene.joint_world_translation(3));
}

fn angle(children: Vec<u8>) -> AngleBone {
    AngleBone { position: v3(0., 0., 0.), scale: 0f32.to_bits(), children }
}

#[test]
fn importer_joints() {
    let position_bones = vec![
        PositionBone { position: v3(1., 1., 1.), children: vec![0, 1] },
        PositionBone { position: v3(2., 2., 2.), children: vec![2] },
        PositionBone { position: v3(3., 3., 3.), children: vec![3] },
    ];
    let angle_bones = vec![angle(vec![1]), angle(Vec::new()), angle(vec![2]), angle(Vec::new())];

    let actual = convert_joints(&position_bones, &angle_bones).unwrap();
    let expected = vec![
        joint(1., None, vec![2]),
        joint(1., None, Vec::new()),
        joint(2., Some(0), vec![3]),
        joint(3., Some(2), Vec::new()),
    ];

    assert_eq!(expected, actual);
}

#[test]
fn joints_with_an_out_of_range_index_are_rejected() {
    let position_bones = vec![PositionBone { position: v3(1., 1., 1.), children: vec![5] }];
    let angle_bones = vec![angle(Vec::new())];
    assert_eq!(Err(ConversionError::Deserialization), convert_joints(&position_bones, &angle_bones));
    let position_bones = vec![PositionBone { position: v3(1., 1., 1.), children: vec![0] }];
    let angle_bones = vec![angle(vec![3])];
    assert_eq!(Err(ConversionError::Deserialization), convert_joints(&position_bones, &angle_bones));
}

#[test]
fn exported_bones_resolve_to_the_same_tree() {
    let skeleton = vec![
        joint(1., None, vec![1, 2]),
        joint(2., Some(0), vec![3]),
        joint(4., Some(0), Vec::new()),
        joint(0., Some(1), Vec::new()),
    ];
    let (position_bones, angle_bones) = export_joints(&skeleton);
    assert_eq!(4, position_bones.len());
    assert_eq!(vec![3u8], position_bones[3].children);
    assert_eq!(vec![1u8, 2], angle_bones[0].children);
    assert_eq!(skeleton, convert_joints(&position_bones, &angle_bones).unwrap());
}

#[test]
fn exported_roots_are_merged_into_the_first_position_bone() {
    let skeleton = vec![
        joint(1., None, vec![2]),
        joint(2., None, Vec::new()),
        joint(3., Some(0), Vec::new()),
    ];
    let (position_bones, angle_bones) = export_joints(&skeleton);
    assert_eq!(2, position_bones.len());
    assert_eq!(vec![0u8, 1], position_bones[0].children);
    assert_eq!(v3(3., 3., 3.), position_bones[1].position);
    assert_eq!(vec![1u8], angle_bones[0].children);
    assert_eq!(3, angle_bones.len());
}

#[test]
fn mesh() {
    let name = String::from("model");
    let skin_vertices = vec![
        SkinVertex {
            position: v3(1., 0., 0.),
            weight: 1f32.to_bits(),
            bone_index: 1,
            normal: v3(1., 0., 0.),
            uv: v2(0., 0.),
        },
        SkinVertex {
            position: v3(0., 1., 0.),
            weight: 1f32.to_bits(),
            bone_index: 1,
            normal: v3(0., 1., 0.),
            uv: v2(0.5, 0.5),
        },
        SkinVertex {
            position: v3(0., 0., 1.),
            weight: 1f32.to_bits(),
            bone_index: 1,
            normal: v3(0., 0., 1.),
            uv: v2(1., 1.),
        },
    ];
    let skeleton = vec![joint(1., None, Vec::new())];

    let actual = Mesh {
        name,
        vertices: convert_vertices(&skin_vertices, 1, &skeleton).unwrap(),
        indices: face_indices(&vec![[0, 1, 2]]),
    };
    let expected = Mesh {
        name: String::from("model"),
        vertices: vec![
            Vertex { position: v3(2., 1., 1.), normal: v3(1., 0., 0.), uv: v2(0., 0.), joint: Some(0) },
            Vertex { position: v3(1., 2., 1.), normal: v3(0., 1., 0.), uv: v2(0.5, 0.5), joint: Some(0) },
            Vertex { position: v3(1., 1., 2.), normal: v3(0., 0., 1.), uv: v2(1., 1.), joint: Some(0) },
        ],
        indices: vec![0, 1, 2],
    };

    assert_eq!(expected, actual);
}

#[test]
fn normals_are_scaled_to_unit_length() {
    let skin_vertices = vec![SkinVertex {
        position: v3(0., 0., 0.),
        weight: 1f32.to_bits(),
        bone_index: 255,
        normal: v3(0., 2., 0.),
        uv: v2(0., 0.),
    }];
    let vertices = convert_vertices(&skin_vertices, 0, &Vec::new()).unwrap();
    assert_eq!(v3(0., 1., 0.), vertices[0].normal);
    assert_eq!(None, vertices[0].joint);
}

#[test]
fn vertex_bound_to_a_missing_joint_is_rejected() {
    let skin_vertices = vec![SkinVertex {
        position: v3(0., 0., 0.),
        weight: 1f32.to_bits(),
        bone_index: 7,
        normal: v3(0., 1., 0.),
        uv: v2(0., 0.),
    }];
    assert!(convert_vertices(&skin_vertices, 2, &vec![joint(1., None, Vec::new())]).is_err());
}

/// Two position bones, two angle bones, one face, three vertices bound to the
/// second angle bone, whose world translation sums both position bones.
fn sample() -> Vec<u8> {
    let mut p3m = P3m::new();
    p3m.position_bones = vec![
        PositionBone { position: v3(1., 1., 1.), children: vec![0] },
        PositionBone { position: v3(2., 0., 0.), children: vec![1] },
    ];
    p3m.angle_bones = vec![angle(vec![1]), angle(Vec::new())];
    p3m.faces = vec![[0, 1, 2]];
    p3m.skin_vertices = (0..3)
        .map(|i| SkinVertex {
            position: v3(i as f32, 0., 0.),
            weight: 1f32.to_bits(),
            bone_index: 3,
            normal: v3(1., 0., 0.),
            uv: v2(0., 0.),
        })
        .collect();
    p3m.mesh_vertices = Vec::new();
    let mut bytes = p3m.to_bytes();
    // Three unskinned vertices of zeros follow the skinned ones.
    bytes.extend_from_slice(&[0; 3 * 32]);
    bytes
}

#[test]
fn decoding_a_sample_model() {
    let mut scene = Scene::new();
    import_p3m(&sample(), String::from("sample"), &mut scene).unwrap();
    assert_eq!(2, scene.skeleton.len());
    assert_eq!(v3(3., 1., 1.), scene.joint_world_translation(1));
    let mesh = &scene.meshes[0];
    assert_eq!(vec![0, 1, 2], mesh.indices);
    for (i, vertex) in mesh.vertices.iter().enumerate() {
        assert_eq!(v3(i as f32 + 3., 1., 1.), vertex.position);
        assert_eq!(Some(1), vertex.joint);
    }
}

#[test]
fn import_asset_by_extension() {
    let mut scene = Scene::new();
    let asset = Asset::new(sample(), "models/Sample.P3M");
    import_asset(&asset, &mut scene).unwrap();
    assert_eq!("Sample", scene.meshes[0].name);
    let asset = Asset::new(sample(), "models/sample.txt");
    assert_eq!(Err(ConversionError::UnsupportedExtension), import_asset(&asset, &mut scene));
    assert_eq!(1, scene.meshes.len());
}

#[test]
fn asset_path_parts() {
    let asset = Asset::new(Vec::new(), "dir/sub/Model.tar.P3M");
    assert_eq!("Model.tar", asset.name());
    let asset = Asset::new(Vec::new(), "dir/sub/model.tar.p3m");
    assert_eq!("model.tar", asset.name());
    assert_eq!("p3m", asset.extension());
    assert_eq!("dir/sub", asset.parent_dir());
    assert_eq!("dir/sub/model.tar.p3m", asset.path());
    let hidden = Asset::new(Vec::new(), ".hidden");
    assert_eq!(".hidden", hidden.name());
    assert_eq!("", hidden.extension());
    assert_eq!("", hidden.parent_dir());
    assert_eq!("/", Asset::new(Vec::new(), "/root.frm").parent_dir());
}

fn frame(x: f32, y: f32, z: f32, a: f32, b: f32) -> Frame {
    Frame {
        option: 0,
        pos_x: x.to_bits(),
        pos_y: y.to_bits(),
        pos_z: z.to_bits(),
        bones: vec![vec![a.to_bits(); 16], vec![b.to_bits(); 16]],
    }
}

#[test]
fn importer_frames() {
    let frm = Frm {
        version: FrmVersion::V1_1,
        frames: vec![frame(1., 1., 1., 1., 2.), frame(1., 1., 1., 3., 4.)],
    };

    let actual = convert_frames(&frm);
    let expected = vec![
        Keyframe {
            translation: v3(1., 1., 1.),
            transforms: vec![vec![1f32.to_bits(); 16], vec![2f32.to_bits(); 16]],
        },
        Keyframe {
            translation: v3(2., 1., 1.),
            transforms: vec![vec![3f32.to_bits(); 16], vec![4f32.to_bits(); 16]],
        },
    ];

    assert_eq!(expected, actual);
}

#[test]
fn exported_frames_hold_x_offsets() {
    let animation = Animation {
        name: String::from("walk"),
        frames: vec![
            Keyframe { translation: v3(1., 1., 1.), transforms: Vec::new() },
            Keyframe { translation: v3(3., 2., 5.), transforms: Vec::new() },
        ],
    };
    let frm = export_frames(&animation);
    assert_eq!(FrmVersion::V1_1, frm.version);
    assert_eq!(1f32.to_bits(), frm.frames[0].pos_x);
    assert_eq!(2f32.to_bits(), frm.frames[1].pos_x);
    assert_eq!(2f32.to_bits(), frm.frames[1].pos_y);
    assert_eq!(5f32.to_bits(), frm.frames[1].pos_z);
}

fn named_scene(skeleton: Vec<Joint>, mesh: &str) -> Scene {
    Scene {
        meshes: vec![Mesh { name: String::from(mesh), vertices: Vec::new(), indices: Vec::new() }],
        skeleton,
        animations: vec![Animation { name: String::from(mesh), frames: Vec::new() }],
    }
}

#[test]
fn merge_keeps_the_first_skeleton() {
    let first = named_scene(vec![joint(1., None, vec![1]), joint(2., Some(0), Vec::new())], "a");
    let second = named_scene(Vec::new(), "b");
    let skeleton = first.skeleton.clone();
    let merged = first.merge(second);
    assert_eq!(skeleton, merged.skeleton);
    assert_eq!(2, merged.meshes.len());
    assert_eq!("b", merged.meshes[1].name);
    assert_eq!(2, merged.animations.len());
}

#[test]
fn merge_takes_the_second_skeleton_when_the_first_is_empty() {
    let first = named_scene(Vec::new(), "a");
    let second = named_scene(vec![joint(1., None, Vec::new())], "b");
    let merged = first.merge(second);
    assert_eq!(1, merged.skeleton.len());
}

#[test]
fn merge_all_in_order() {
    assert!(merge_all(Vec::new()).is_none());
    let scenes = vec![
        named_scene(Vec::new(), "a"),
        named_scene(vec![joint(1., None, Vec::new())], "b"),
        named_scene(vec![joint(5., None, Vec::new()), joint(6., Some(0), Vec::new())], "c"),
    ];
    let merged = merge_all(scenes).unwrap();
    assert_eq!(vec![joint(1., None, Vec::new())], merged.skeleton);
    let names: Vec<&str> = merged.meshes.iter().map(|m| m.name.as_str()).collect();
    assert_eq!(vec!["a", "b", "c"], names);
}

#[test]
fn transform_twice_gives_back_the_scene() {
    let scene = Scene {
        meshes: vec![Mesh {
            name: String::from("m"),
            vertices: vec![
                Vertex { position: v3(1., 2., 3.), normal: v3(0., 0., -1.), uv: v2(0.5, 0.), joint: Some(0) },
                Vertex { position: v3(-0., 0., 0.), normal: v3(0., 1., 0.), uv: v2(0., 0.), joint: None },
            ],
            indices: vec![0, 1, 2, 3, 4, 5, 6],
        }],
        skeleton: vec![joint(1., None, Vec::new())],
        animations: vec![Animation {
            name: String::from("a"),
            frames: vec![Keyframe {
                translation: v3(1., 2., 3.),
                transforms: vec![(0..16).map(|k| (k as f32).to_bits()).collect()],
            }],
        }],
    };
    let once = transform(&scene);
    assert_eq!(v3(1., 2., -3.), once.meshes[0].vertices[0].position);
    assert_eq!(vec![0, 2, 1, 3, 5, 4, 6], once.meshes[0].indices);
    assert_eq!(v3(1., 1., -1.), once.skeleton[0].translation);
    let m = &once.animations[0].frames[0].transforms[0];
    assert_eq!((-2f32).to_bits(), m[2]);
    assert_eq!((-8f32).to_bits(), m[8]);
    assert_eq!(10f32.to_bits(), m[10]);
    assert_eq!(5f32.to_bits(), m[5]);
    assert_eq!(scene, transform(&once));
}

#[test]
fn animation_tracks_per_joint() {
    let animation = Animation {
        name: String::from("a"),
        frames: vec![
            Keyframe { translation: v3(0., 0., 0.), transforms: vec![vec![1; 16], vec![2; 16]] },
            Keyframe { translation: v3(0., 0., 0.), transforms: vec![vec![3; 16], vec![4; 16]] },
        ],
    };
    let tracks = animation.joints();
    assert_eq!(vec![vec![vec![1; 16], vec![3; 16]], vec![vec![2; 16], vec![4; 16]]], tracks);
    assert_eq!(55, animation.sampling_rate());
}

#[test]
fn asset_path_components() {
    let asset = Asset::new(Vec::new(), "models/goblin.p3m/");
    assert_eq!("goblin", asset.name());
    assert_eq!("p3m", asset.extension());
    assert_eq!("models", asset.parent_dir());
    let asset = Asset::new(Vec::new(), "models/goblin.p3m/.");
    assert_eq!("goblin", asset.name());
    let up = Asset::new(Vec::new(), "models/..");
    assert_eq!("", up.name());
    assert_eq!("", up.extension());
    assert_eq!("models", up.parent_dir());
    assert_eq!("a", Asset::new(Vec::new(), "a//b").parent_dir());
    assert_eq!("", Asset::new(Vec::new(), "goblin.p3m").parent_dir());
    assert!(!Asset::new(Vec::new(), "/").has_parent_dir());
    assert!(!Asset::new(Vec::new(), "").has_parent_dir());
    assert!(Asset::new(Vec::new(), "a").has_parent_dir());
}

#[test]
fn import_by_lowercase_extension() {
    let mut scene = Scene::new();
    import_by_extension("p3m", &sample(), String::from("s"), &mut scene).unwrap();
    assert_eq!(1, scene.meshes.len());
    assert_eq!(
        Err(ConversionError::UnsupportedExtension),
        import_by_extension("P3M", &sample(), String::from("s"), &mut scene)
    );
    assert_eq!(
        Err(ConversionError::Deserialization),
        import_by_extension("frm", &[1, 2], String::from("s"), &mut scene)
    );
}

#[test]
fn model_importer_replaces_the_skeleton() {
    let mut scene = Scene::new();
    scene.skeleton = vec![joint(9., None, Vec::new()); 3];
    let asset = Asset::new(sample(), "m/sample.p3m");
    P3mImporter {}.import(&asset, &mut scene).unwrap();
    assert_eq!(2, scene.skeleton.len());
    assert_eq!(v3(1., 1., 1.), scene.skeleton[0].translation);
    let mut kept = Scene::new();
    kept.skeleton = vec![joint(9., None, Vec::new()); 3];
    import_asset(&asset, &mut kept).unwrap();
    assert_eq!(3, kept.skeleton.len());
}

#[test]
fn nan_results_are_the_quiet_nan() {
    let scene = Scene {
        meshes: Vec::new(),
        skeleton: vec![
            Joint { translation: v3(f32::INFINITY, 1., 0.), parent: None, children: vec![1] },
            Joint { translation: v3(f32::NEG_INFINITY, 1., 0.), parent: Some(0), children: Vec::new() },
        ],
        animations: Vec::new(),
    };
    let world = scene.joint_world_translation(1);
    assert_eq!(0x7fc0_0000, world.x);
    assert_eq!(2f32.to_bits(), world.y);
}

#[test]
fn world_transform_is_a_move() {
    let scene = Scene {
        meshes: Vec::new(),
        skeleton: vec![joint(1., None, vec![1]), joint(2., Some(0), Vec::new())],
        animations: Vec::new(),
    };
    let m = scene.joint_world_transform(1);
    let expected: Vec<u32> = [1., 0., 0., 0., 0., 1., 0., 0., 0., 0., 1., 0., 3., 3., 3., 1.]
        .iter()
        .map(|v: &f32| v.to_bits())
        .collect();
    assert_eq!(expected, m);
    let root = scene.joint_world_transform(0);
    assert_eq!(1f32.to_bits(), root[12]);
}
