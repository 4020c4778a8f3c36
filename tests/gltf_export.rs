use chaseconv::geometry::{Vec2, Vec3};
use chaseconv::glb::{calculate_length, glb_container};
use chaseconv::gltf::{
    align_to, export_gltf, export_name, insert_scene, GltfAsset, AccessorKind, Channel, ComponentType,
    NodeName, Property,
};
use chaseconv::scene::{Animation, Joint, Keyframe, Mesh, Scene, Vertex};

fn v3(x: f32, y: f32, z: f32) -> Vec3 {
    Vec3::new(x.to_bits(), y.to_bits(), z.to_bits())
}

fn joint(t: f32, parent: Option<usize>, children: Vec<usize>) -> Joint {
    Joint { translation: v3(t, t, t), parent, children }
}

fn floats(bytes: &[u8]) -> Vec<f32> {
    bytes.chunks(4).map(|c| f32::from_le_bytes([c[0], c[1], c[2], c[3]])).collect()
}

#[test]
fn scene_nodes() {
    let skeleton = vec![
        joint(1., None, vec![1]),
        joint(2., Some(0), Vec::new()),
        joint(0., None, Vec::new()),
    ];
    let meshes = vec![Mesh { name: String::from("goblin"), vertices: Vec::new(), indices: Vec::new() }];
    let graph = insert_scene(&skeleton, &meshes);

    assert_eq!(0, graph.scene);
    assert_eq!(vec![3, 4], graph.scene_nodes);
    assert_eq!(3, graph.skeleton);
    assert_eq!(Some(String::from("mesh_goblin")), Some(graph.nodes[4].name.text()));
    assert_eq!(Some(v3(2., 2., 2.)), graph.nodes[1].translation);
    assert_eq!(vec![0, 2], graph.nodes[3].children);
    assert_eq!("bone_1", graph.nodes[1].name.text());
    assert_eq!("skeleton", graph.nodes[3].name.text());
    assert_eq!("bone_12", NodeName::Bone(12).text());
}

#[test]
fn skeleton_without_meshes() {
    let scene = Scene {
        meshes: Vec::new(),
        skeleton: vec![joint(1., None, vec![1]), joint(2., Some(0), Vec::new())],
        animations: Vec::new(),
    };
    let doc = export_gltf(&scene);
    assert_eq!(3, doc.nodes.len());
    assert_eq!(NodeName::Skeleton, doc.nodes[2].name);
    assert!(doc.nodes.iter().all(|n| n.mesh.is_none()));
    assert_eq!(vec![2], doc.scene_nodes);
    assert_eq!(1, doc.skins.len());
    assert_eq!(vec![0, 1], doc.skins[0].joints);
    assert_eq!(2, doc.skins[0].skeleton);
    assert!(doc.meshes.is_empty());
    // Only the inverse bind matrices are in the buffer.
    assert_eq!(1, doc.binary.buffer_views.len());
    assert_eq!(1, doc.binary.accessors.len());
    assert_eq!(AccessorKind::Mat4, doc.binary.accessors[0].kind);
    let matrices = floats(&doc.binary.buffer);
    assert_eq!(32, matrices.len());
    // Joint 1 sits at (3, 3, -3) once z is mirrored.
    assert_eq!(vec![-3., -3., 3., 1.], matrices[28..32].to_vec());
    assert_eq!(vec![-1., -1., 1., 1.], matrices[12..16].to_vec());
}

#[test]
fn mesh_attributes_are_aligned() {
    let vertex = |x: f32, joint: Option<usize>| Vertex {
        position: v3(x, 2. * x, 0.),
        normal: v3(0., 3., 0.),
        uv: Vec2::new(0, 0),
        joint,
    };
    let scene = Scene {
        meshes: vec![Mesh {
            name: String::from("m"),
            vertices: vec![vertex(1., Some(0)), vertex(-1., None), vertex(4., Some(0))],
            indices: vec![0, 1, 2],
        }],
        skeleton: vec![joint(1., None, Vec::new())],
        animations: Vec::new(),
    };
    let doc = export_gltf(&scene);
    let b = &doc.binary;
    let m = &doc.meshes[0];
    let positions = &b.accessors[m.positions];
    // Every z is -0.0 once mirrored.
    assert_eq!(vec![(-1f32).to_bits(), (-2f32).to_bits(), (-0f32).to_bits()], positions.min);
    assert_eq!(vec![4f32.to_bits(), 8f32.to_bits(), (-0f32).to_bits()], positions.max);
    for accessor in &b.accessors {
        let view = &b.buffer_views[accessor.buffer_view];
        let size = match accessor.component_type {
            ComponentType::U8 => 1,
            ComponentType::U16 => 2,
            ComponentType::F32 => 4,
        };
        assert_eq!(0, view.byte_offset % size);
        assert!(view.byte_offset + view.byte_length <= b.buffer.len());
    }
    let normals = &b.buffer_views[b.accessors[m.normals].buffer_view];
    let normals = floats(&b.buffer[normals.byte_offset..normals.byte_offset + normals.byte_length]);
    assert_eq!(vec![0., 1., -0.], normals[0..3].to_vec());
    let joints = &b.buffer_views[b.accessors[m.joints].buffer_view];
    assert_eq!(&[0, 0, 0, 0, 0, 0, 0, 0][..], &b.buffer[joints.byte_offset..joints.byte_offset + 8]);
    let weights = &b.buffer_views[b.accessors[m.weights].buffer_view];
    let weights = floats(&b.buffer[weights.byte_offset..weights.byte_offset + weights.byte_length]);
    assert_eq!(vec![1., 0., 0., 0., 0., 0., 0., 0.], weights[0..8].to_vec());
    let indices = &b.buffer_views[b.accessors[m.indices].buffer_view];
    // Winding is reversed with the mirror.
    assert_eq!(&[0, 0, 2, 0, 1, 0][..], &b.buffer[indices.byte_offset..indices.byte_offset + 6]);
}

#[test]
fn animation_samplers_and_channels() {
    let identity: Vec<u32> =
        [1., 0., 0., 0., 0., 1., 0., 0., 0., 0., 1., 0., 0., 0., 0., 1.].iter().map(|v: &f32| v.to_bits()).collect();
    let scene = Scene {
        meshes: Vec::new(),
        skeleton: vec![joint(1., None, vec![1]), joint(2., Some(0), Vec::new())],
        animations: vec![Animation {
            name: String::from("walk"),
            frames: vec![
                Keyframe { translation: v3(1., 0., 2.), transforms: vec![identity.clone(), identity.clone()] },
                Keyframe { translation: v3(2., 0., 2.), transforms: vec![identity.clone(), identity.clone()] },
            ],
        }],
    };
    let doc = export_gltf(&scene);
    let a = &doc.animations[0];
    assert_eq!("walk", a.name);
    assert_eq!(3, a.samplers.len());
    assert_eq!(Channel { sampler: 0, node: 2, property: Property::Translation }, a.channels[0]);
    assert_eq!(Channel { sampler: 2, node: 1, property: Property::Rotation }, a.channels[2]);
    let time = &doc.binary.accessors[a.samplers[0].input];
    assert_eq!(vec![0f32.to_bits()], time.min);
    assert_eq!(vec![(1f32 / 55.).to_bits()], time.max);
    let view = &doc.binary.buffer_views[time.buffer_view];
    let times = floats(&doc.binary.buffer[view.byte_offset..view.byte_offset + view.byte_length]);
    assert_eq!(vec![0., 1. / 55.], times);
    let view = &doc.binary.buffer_views[doc.binary.accessors[a.samplers[0].output].buffer_view];
    let root = floats(&doc.binary.buffer[view.byte_offset..view.byte_offset + view.byte_length]);
    assert_eq!(vec![1., 0., -2., 2., 0., -2.], root);
    let view = &doc.binary.buffer_views[doc.binary.accessors[a.samplers[1].output].buffer_view];
    let rotation = floats(&doc.binary.buffer[view.byte_offset..view.byte_offset + view.byte_length]);
    assert_eq!(vec![0., 0., 0., 1., 0., 0., 0., 1.], rotation);
}

#[test]
fn align_to_pads_with_zeros() {
    let mut buffer = vec![1u8];
    align_to(&mut buffer, 4);
    assert_eq!(vec![1, 0, 0, 0], buffer);
    align_to(&mut buffer, 4);
    assert_eq!(4, buffer.len());
    let mut buffer = vec![1u8, 2, 3];
    align_to(&mut buffer, 2);
    assert_eq!(vec![1, 2, 3, 0], buffer);
}

#[test]
fn container_length() {
    assert_eq!(28, calculate_length(0, 0));
    assert_eq!(32, calculate_length(1, 0));
    assert_eq!(40, calculate_length(5, 3));
    assert_eq!(40, calculate_length(8, 4));
}

#[test]
fn container_layout() {
    let bytes = glb_container(b"{}".to_vec(), vec![7u8]);
    assert_eq!(36, bytes.len());
    assert_eq!(b"glTF", &bytes[0..4]);
    assert_eq!(&[2, 0, 0, 0][..], &bytes[4..8]);
    assert_eq!(&[36, 0, 0, 0][..], &bytes[8..12]);
    assert_eq!(&[4, 0, 0, 0][..], &bytes[12..16]);
    assert_eq!(b"JSON", &bytes[16..20]);
    assert_eq!(b"{}  ", &bytes[20..24]);
    assert_eq!(&[4, 0, 0, 0][..], &bytes[24..28]);
    assert_eq!(b"BIN\0", &bytes[28..32]);
    assert_eq!(&[7, 0, 0, 0][..], &bytes[32..36]);
}

#[test]
fn export_names() {
    let mut scene = Scene::new();
    assert_eq!("model", export_name(&scene));
    scene.animations.push(Animation { name: String::from("run"), frames: Vec::new() });
    assert_eq!("run", export_name(&scene));
    scene.meshes.push(Mesh { name: String::from("body"), vertices: Vec::new(), indices: Vec::new() });
    assert_eq!("body", export_name(&scene));
}

#[test]
fn generator_names_the_library_and_version() {
    let asset = GltfAsset::new();
    assert_eq!("chaseconv 0.1.0", asset.generator);
    assert_eq!("2.0", asset.version);
}

#[test]
fn accessors_and_views_match_in_number() {
    let scene = Scene {
        meshes: vec![Mesh { name: String::from("m"), vertices: Vec::new(), indices: Vec::new() }],
        skeleton: vec![joint(1., None, Vec::new())],
        animations: vec![Animation { name: String::from("a"), frames: Vec::new() }],
    };
    let doc = export_gltf(&scene);
    // Six per mesh, one for the skin, two for an animation without tracks.
    assert_eq!(9, doc.binary.accessors.len());
    assert_eq!(9, doc.binary.buffer_views.len());
}
