use chaseconv::convert::{import_frm, import_p3m, FrmExporter, P3mExporter};
use chaseconv::frm::{Frame, Frm, FrmVersion};
use chaseconv::geometry::{Vec2, Vec3};
use chaseconv::gltf_import::{
    convert_animation, ChannelValues, GltfAnimationData, GltfChannel,
    get_skeleton_index, get_skeleton_root_index, gltf_joints, gltf_vertex_joint, make_joint_map,
    make_skin_map, parse_index, split_once,
};
use chaseconv::p3m::{AngleBone, P3m, PositionBone, SkinVertex};
use chaseconv::scene::Joint;
use chaseconv::scene::Scene;

fn v3(x: f32, y: f32, z: f32) -> Vec3 {
    Vec3::new(x.to_bits(), y.to_bits(), z.to_bits())
}

fn model() -> Vec<u8> {
    let mut p3m = P3m::new();
    p3m.position_bones = vec![
        PositionBone { position: v3(1., 1., 1.), children: vec![0] },
        PositionBone { position: v3(2., 0., 0.), children: vec![1] },
    ];
    p3m.angle_bones = vec![
        AngleBone { position: v3(0., 0., 0.), scale: 0, children: vec![1] },
        AngleBone { position: v3(0., 0., 0.), scale: 0, children: Vec::new() },
    ];
    p3m.faces = vec![[0, 1, 2]];
    p3m.skin_vertices = (0..3)
        .map(|i| SkinVertex {
            position: v3(i as f32, 0.5, 0.),
            weight: 1f32.to_bits(),
            bone_index: 2 + (i % 2) as u8,
            normal: v3(1., 0., 0.),
            uv: Vec2::new(0, 0),
        })
        .collect();
    let mut bytes = p3m.to_bytes();
    bytes.extend_from_slice(&[0; 3 * 32]);
    bytes
}

#[test]
fn exported_model_holds_bone_relative_positions() {
    let mut scene = Scene::new();
    import_p3m(&model(), String::from("body"), &mut scene).unwrap();
    let assets = P3mExporter {}.export(&scene);
    assert_eq!(1, assets.len());
    assert_eq!("body.p3m", assets[0].path());
    let p3m = P3m::from_bytes(&assets[0].bytes).unwrap();
    assert_eq!(2, p3m.position_bones.len());
    for (i, v) in p3m.skin_vertices.iter().enumerate() {
        assert_eq!(v3(i as f32, 0.5, 0.), v.position);
        assert_eq!(2 + (i % 2) as u8, v.bone_index);
    }
    assert_eq!(v3(4., 1.5, 1.), p3m.mesh_vertices[1].position);
    assert_eq!(vec![[0, 1, 2]], p3m.faces);
}

#[test]
fn exported_animation_reads_back() {
    let frm = Frm {
        version: FrmVersion::V1_0,
        frames: vec![
            Frame { option: 0, pos_x: 1f32.to_bits(), pos_y: 2f32.to_bits(), pos_z: 0, bones: vec![vec![7; 16]] },
            Frame { option: 0, pos_x: 1f32.to_bits(), pos_y: 3f32.to_bits(), pos_z: 0, bones: vec![vec![8; 16]] },
        ],
    };
    let mut scene = Scene::new();
    import_frm(&frm.to_bytes(), String::new(), &mut scene).unwrap();
    let assets = FrmExporter {}.export(&scene);
    assert_eq!("animation.frm", assets[0].path());
    let back = Frm::from_bytes(&assets[0].bytes).unwrap();
    assert_eq!(FrmVersion::V1_1, back.version);
    assert_eq!(frm.frames[1].pos_x, back.frames[1].pos_x);
    assert_eq!(frm.frames[1].bones, back.frames[1].bones);
}

#[test]
fn joint_names_and_root() {
    let names = vec![
        Some(String::from("bone_3")),
        Some(String::from("root")),
        None,
        Some(String::from("bone_x")),
        Some(String::from("bone_+12")),
        Some(String::from("root")),
        Some(String::from("bone_")),
    ];
    assert_eq!(vec![Some(3), None, None, None, Some(12), None, None], make_joint_map(&names));
    assert_eq!(Some(1), get_skeleton_root_index(&names));
    assert_eq!(None, get_skeleton_root_index(&vec![None, Some(String::from("rooted"))]));
    assert_eq!(vec![4, 2], make_skin_map(&vec![4, 2]));
}

#[test]
fn split_at_first_delimiter() {
    assert_eq!(Some(("a", "b,c")), split_once("a,b,c", ','));
    assert_eq!(Some(("", "")), split_once(",", ','));
    assert_eq!(None, split_once("abc", ','));
}

#[test]
fn skeleton_index_by_prefix() {
    let names = vec![None, Some(String::from("bone_0")), Some(String::from("root_node")), Some(String::from("root"))];
    assert_eq!(Some(2), get_skeleton_index(&names));
    assert_eq!(None, get_skeleton_index(&vec![Some(String::from("roo"))]));
}

#[test]
fn gltf_skeleton_from_nodes() {
    // Node 0 holds node 1 (joint 0), which holds node 2 (joint 2).
    let parents = vec![None, Some(0), Some(1)];
    let origins = vec![v3(1., 0., 0.), v3(1., 2., 0.), v3(1., 2., 3.)];
    let children = vec![vec![1], vec![2], Vec::new()];
    let joint_map = vec![None, Some(0), Some(2)];
    let joints = gltf_joints(&parents, &origins, &children, &joint_map);
    assert_eq!(3, joints.len());
    assert_eq!(Joint { translation: v3(0., 2., 0.), parent: None, children: vec![2] }, joints[0]);
    assert_eq!(Joint::new(), joints[1]);
    assert_eq!(Joint { translation: v3(0., 0., 3.), parent: Some(0), children: Vec::new() }, joints[2]);
    assert_eq!(1, gltf_joints(&Vec::new(), &Vec::new(), &Vec::new(), &Vec::new()).len());
}

#[test]
fn vertex_joint_by_largest_weight() {
    let skin_map = vec![5, 6, 7];
    let joint_map = vec![None, None, None, None, None, Some(10), Some(11), None];
    let w = |a: [f32; 4]| a.map(|x| x.to_bits());
    assert_eq!(Some(11), gltf_vertex_joint([0, 1, 2, 0], w([0.2, 0.7, 0.1, 0.]), &skin_map, &joint_map));
    // Equal weights: the later entry wins.
    assert_eq!(Some(11), gltf_vertex_joint([0, 1, 0, 0], w([0.5, 0.5, 0., 0.]), &skin_map, &joint_map));
    assert_eq!(None, gltf_vertex_joint([0, 1, 2, 0], w([0., 0., 0., 0.]), &skin_map, &joint_map));
    assert_eq!(None, gltf_vertex_joint([2, 0, 0, 0], w([1., 0., 0., 0.]), &skin_map, &joint_map));
}

#[test]
fn gltf_animation_frames() {
    let one = 1f32.to_bits();
    let data = GltfAnimationData {
        name: String::from("walk"),
        channels: vec![
            GltfChannel { node: 0, values: ChannelValues::Translations(vec![v3(1., 2., 3.)]) },
            GltfChannel { node: 1, values: ChannelValues::Rotations(vec![[0, 0, 0, one], [0, 0, 0, one]]) },
            GltfChannel { node: 2, values: ChannelValues::Scales(vec![v3(1., 1., 1.); 3]) },
            GltfChannel { node: 3, values: ChannelValues::Rotations(vec![[0; 4]; 9]) },
        ],
    };
    let joint_map = vec![None, Some(0), Some(1)];
    let animation = convert_animation(&data, &joint_map, Some(0));
    assert_eq!("walk", animation.name);
    // The scale channel of a joint counts frames; the channel of a node that is
    // no joint does not.
    assert_eq!(3, animation.frames.len());
    assert_eq!(v3(1., 2., 3.), animation.frames[0].translation);
    assert_eq!(v3(0., 0., 0.), animation.frames[1].translation);
    let identity: Vec<u32> = [1., 0., 0., 0., 0., 1., 0., 0., 0., 0., 1., 0., 0., 0., 0., 1.]
        .iter()
        .map(|v: &f32| v.to_bits())
        .collect();
    assert_eq!(2, animation.frames[2].transforms.len());
    assert_eq!(identity, animation.frames[2].transforms[0]);
    assert_eq!(identity, animation.frames[0].transforms[1]);
}

#[test]
fn index_parsing() {
    assert_eq!(Some(42), parse_index("42"));
    assert_eq!(Some(7), parse_index("+7"));
    assert_eq!(None, parse_index("+"));
    assert_eq!(None, parse_index(""));
    assert_eq!(None, parse_index("-1"));
    assert_eq!(None, parse_index("4a"));
    assert_eq!(Some(usize::MAX), parse_index(&usize::MAX.to_string()));
    assert_eq!(None, parse_index(&format!("{}0", usize::MAX)));
    assert_eq!(None, parse_index("99999999999999999999999"));
}
