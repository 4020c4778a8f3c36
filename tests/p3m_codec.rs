use chaseconv::geometry::{Vec2, Vec3};
use chaseconv::p3m::{AngleBone, MeshVertex, P3m, PositionBone, SkinVertex};
use chaseconv::text::{read_string, write_string};

fn v3(x: f32, y: f32, z: f32) -> Vec3 {
    Vec3::new(x.to_bits(), y.to_bits(), z.to_bits())
}

fn v2(x: f32, y: f32) -> Vec2 {
    Vec2::new(x.to_bits(), y.to_bits())
}

#[test]
fn read_str_exact() {
    let bytes = b"Hi there!\x00";
    let mut pos = 0;
    assert_eq!(
        String::from("Hi there!"),
        read_string(&bytes[..], &mut pos, bytes.len()).unwrap()
    );
    assert!(pos == bytes.len());
}

#[test]
fn read_str_shorter() {
    let bytes = b"Hello\x00, world";
    let mut pos = 0;
    assert_eq!(
        String::from("Hello"),
        read_string(&bytes[..], &mut pos, bytes.len()).unwrap()
    );
    assert!(pos == bytes.len());
}

#[test]
fn read_str_invalid() {
    let bytes = b"\xf8\xa1\xa1\xa1\xa1";
    let mut pos = 0;
    assert!(read_string(&bytes[..], &mut pos, bytes.len()).is_err());
    assert!(pos == bytes.len());
}

#[test]
fn read_str_past_end() {
    let bytes = b"abc";
    let mut pos = 1;
    assert!(read_string(&bytes[..], &mut pos, 3).is_err());
    assert_eq!(1, pos);
}

#[test]
fn write_str_shorter() {
    let mut bytes = Vec::new();
    write_string(&mut bytes, "Hello", 8);
    assert_eq!(b"Hello\x00\x00\x00".to_vec(), bytes);
}

#[test]
fn write_str_exact() {
    let mut bytes = Vec::new();
    write_string(&mut bytes, "Hi!", 3);
    assert_eq!(b"Hi!".to_vec(), bytes);
}

#[test]
fn write_str_longer() {
    let mut bytes = Vec::new();
    write_string(&mut bytes, "Hi there!", 2);
    assert_eq!(b"Hi".to_vec(), bytes);
}

fn data() -> (P3m, &'static [u8]) {
    let mut p3m = P3m::new();
    p3m.position_bones = vec![
        PositionBone { position: v3(0., 0., 0.), children: vec![0] },
        PositionBone { position: v3(1., 0., 0.), children: vec![1] },
    ];
    p3m.angle_bones = vec![
        AngleBone { position: v3(0., 0., 0.), scale: 0f32.to_bits(), children: vec![1] },
        AngleBone { position: v3(0., 0., 0.), scale: 0f32.to_bits(), children: Vec::new() },
    ];
    p3m.faces = vec![[0, 1, 2]];
    p3m.skin_vertices = vec![
        SkinVertex {
            position: v3(1., 0., 0.),
            weight: 1f32.to_bits(),
            bone_index: 0,
            uv: v2(0., 0.),
            normal: v3(1., 0., 0.),
        },
        SkinVertex {
            position: v3(0., 1., 0.),
            weight: 1f32.to_bits(),
            bone_index: 0,
            uv: v2(0.5, 0.5),
            normal: v3(1., 0., 0.),
        },
        SkinVertex {
            position: v3(1., 0., 1.),
            weight: 1f32.to_bits(),
            bone_index: 1,
            uv: v2(1., 1.),
            normal: v3(1., 0., 0.),
        },
    ];
    p3m.mesh_vertices = vec![
        MeshVertex { position: v3(1., 0., 0.), uv: v2(0., 0.), normal: v3(1., 0., 0.) },
        MeshVertex { position: v3(0., 1., 0.), uv: v2(0.5, 0.5), normal: v3(1., 0., 0.) },
        MeshVertex { position: v3(0., 0., 1.), uv: v2(1., 1.), normal: v3(1., 0., 0.) },
    ];

    const DATA: [u8; 619] = [
            0x50, 0x65, 0x72, 0x66, 0x61, 0x63, 0x74, 0x20, 0x33, 0x44, 0x20, 0x4d, 0x6f, 0x64,
            0x65, 0x6c, 0x20, 0x28, 0x56, 0x65, 0x72, 0x20, 0x30, 0x2e, 0x35, 0x29, 0x00, 0x02,
            0x02, 0x00, 0x00, 0x00, 0x00, 0x00, 0x00, 0x00, 0x00, 0x00, 0x00, 0x00, 0x00, 0x00,
            0xff, 0xff, 0xff, 0xff, 0xff, 0xff, 0xff, 0xff, 0xff, 0xff, 0xff, 0x00, 0x00, 0x80,
            0x3f, 0x00, 0x00, 0x00, 0x00, 0x00, 0x00, 0x00, 0x00, 0x01, 0xff, 0xff, 0xff, 0xff,
            0xff, 0xff, 0xff, 0xff, 0xff, 0xff, 0xff, 0x00, 0x00, 0x00, 0x00, 0x00, 0x00, 0x00,
            0x00, 0x00, 0x00, 0x00, 0x00, 0x00, 0x00, 0x00, 0x00, 0x01, 0xff, 0xff, 0xff, 0xff,
            0xff, 0xff, 0xff, 0xff, 0xff, 0xff, 0xff, 0x00, 0x00, 0x00, 0x00, 0x00, 0x00, 0x00,
            0x00, 0x00, 0x00, 0x00, 0x00, 0x00, 0x00, 0x00, 0x00, 0xff, 0xff, 0xff, 0xff, 0xff,
            0xff, 0xff, 0xff, 0xff, 0xff, 0xff, 0xff, 0x03, 0x00, 0x01, 0x00, 0x00, 0x00, 0x00,
            0x00, 0x00, 0x00, 0x00, 0x00, 0x00, 0x00, 0x00, 0x00, 0x00, 0x00, 0x00, 0x00, 0x00,
            0x00, 0x00, 0x00, 0x00, 0x00, 0x00, 0x00, 0x00, 0x00, 0x00, 0x00, 0x00, 0x00, 0x00,
            0x00, 0x00, 0x00, 0x00, 0x00, 0x00, 0x00, 0x00, 0x00, 0x00, 0x00, 0x00, 0x00, 0x00,
            0x00, 0x00, 0x00, 0x00, 0x00, 0x00, 0x00, 0x00, 0x00, 0x00, 0x00, 0x00, 0x00, 0x00,
            0x00, 0x00, 0x00, 0x00, 0x00, 0x00, 0x00, 0x00, 0x00, 0x00, 0x00, 0x00, 0x00, 0x00,
            0x00, 0x00, 0x00, 0x00, 0x00, 0x00, 0x00, 0x00, 0x00, 0x00, 0x00, 0x00, 0x00, 0x00,
            0x00, 0x00, 0x00, 0x00, 0x00, 0x00, 0x00, 0x00, 0x00, 0x00, 0x00, 0x00, 0x00, 0x00,
            0x00, 0x00, 0x00, 0x00, 0x00, 0x00, 0x00, 0x00, 0x00, 0x00, 0x00, 0x00, 0x00, 0x00,
            0x00, 0x00, 0x00, 0x00, 0x00, 0x00, 0x00, 0x00, 0x00, 0x00, 0x00, 0x00, 0x00, 0x00,
            0x00, 0x00, 0x00, 0x00, 0x00, 0x00, 0x00, 0x00, 0x00, 0x00, 0x00, 0x00, 0x00, 0x00,
            0x00, 0x00, 0x00, 0x00, 0x00, 0x00, 0x00, 0x00, 0x00, 0x00, 0x00, 0x00, 0x00, 0x00,
            0x00, 0x00, 0x00, 0x00, 0x00, 0x00, 0x00, 0x00, 0x00, 0x00, 0x00, 0x00, 0x00, 0x00,
            0x00, 0x00, 0x00, 0x00, 0x00, 0x00, 0x00, 0x00, 0x00, 0x00, 0x00, 0x00, 0x00, 0x00,
            0x00, 0x00, 0x00, 0x00, 0x00, 0x00, 0x00, 0x00, 0x00, 0x00, 0x00, 0x00, 0x00, 0x00,
            0x00, 0x00, 0x00, 0x00, 0x00, 0x00, 0x00, 0x00, 0x00, 0x00, 0x00, 0x00, 0x00, 0x00,
            0x00, 0x00, 0x00, 0x00, 0x00, 0x00, 0x00, 0x00, 0x00, 0x00, 0x00, 0x00, 0x00, 0x00,
            0x00, 0x00, 0x00, 0x00, 0x00, 0x00, 0x00, 0x00, 0x00, 0x00, 0x00, 0x00, 0x00, 0x00,
            0x00, 0x00, 0x00, 0x00, 0x00, 0x00, 0x00, 0x00, 0x00, 0x00, 0x00, 0x00, 0x00, 0x00,
            0x00, 0x00, 0x00, 0x00, 0x00, 0x00, 0x00, 0x01, 0x00, 0x02, 0x00, 0x00, 0x00, 0x80,
            0x3f, 0x00, 0x00, 0x00, 0x00, 0x00, 0x00, 0x00, 0x00, 0x00, 0x00, 0x80, 0x3f, 0x00,
            0x00, 0xff, 0xff, 0x00, 0x00, 0x80, 0x3f, 0x00, 0x00, 0x00, 0x00, 0x00, 0x00, 0x00,
            0x00, 0x00, 0x00, 0x00, 0x00, 0x00, 0x00, 0x00, 0x00, 0x00, 0x00, 0x00, 0x00, 0x00,
            0x00, 0x80, 0x3f, 0x00, 0x00, 0x00, 0x00, 0x00, 0x00, 0x80, 0x3f, 0x00, 0x00, 0xff,
            0xff, 0x00, 0x00, 0x80, 0x3f, 0x00, 0x00, 0x00, 0x00, 0x00, 0x00, 0x00, 0x00, 0x00,
            0x00, 0x00, 0x3f, 0x00, 0x00, 0x00, 0x3f, 0x00, 0x00, 0x80, 0x3f, 0x00, 0x00, 0x00,
            0x00, 0x00, 0x00, 0x80, 0x3f, 0x00, 0x00, 0x80, 0x3f, 0x01, 0x01, 0xff, 0xff, 0x00,
            0x00, 0x80, 0x3f, 0x00, 0x00, 0x00, 0x00, 0x00, 0x00, 0x00, 0x00, 0x00, 0x00, 0x80,
            0x3f, 0x00, 0x00, 0x80, 0x3f, 0x00, 0x00, 0x80, 0x3f, 0x00, 0x00, 0x00, 0x00, 0x00,
            0x00, 0x00, 0x00, 0x00, 0x00, 0x80, 0x3f, 0x00, 0x00, 0x00, 0x00, 0x00, 0x00, 0x00,
            0x00, 0x00, 0x00, 0x00, 0x00, 0x00, 0x00, 0x00, 0x00, 0x00, 0x00, 0x00, 0x00, 0x00,
            0x00, 0x80, 0x3f, 0x00, 0x00, 0x00, 0x00, 0x00, 0x00, 0x80, 0x3f, 0x00, 0x00, 0x00,
            0x00, 0x00, 0x00, 0x00, 0x00, 0x00, 0x00, 0x00, 0x3f, 0x00, 0x00, 0x00, 0x3f, 0x00,
            0x00, 0x00, 0x00, 0x00, 0x00, 0x00, 0x00, 0x00, 0x00, 0x80, 0x3f, 0x00, 0x00, 0x80,
            0x3f, 0x00, 0x00, 0x00, 0x00, 0x00, 0x00, 0x00, 0x00, 0x00, 0x00, 0x80, 0x3f, 0x00,
            0x00, 0x80, 0x3f,
        ];

    (p3m, &DATA)
}

#[test]
fn read() {
    let (expected, bytes) = data();
    let actual = P3m::from_bytes(bytes).unwrap();

    assert_eq!(expected, actual);
}

#[test]
fn write() {
    let (p3m, expected) = data();
    let actual = p3m.to_bytes();

    assert_eq!(expected, &actual[..]);
}

#[test]
fn p3m_decode_encode_decode_keeps_the_model() {
    let (_, bytes) = data();
    let first = P3m::from_bytes(bytes).unwrap();
    let again = P3m::from_bytes(&first.to_bytes()).unwrap();
    assert_eq!(first, again);
    assert_eq!(bytes, &first.to_bytes()[..]);
}

#[test]
fn p3m_truncated_is_rejected() {
    let (_, bytes) = data();
    assert!(P3m::from_bytes(&bytes[..bytes.len() - 1]).is_err());
    assert!(P3m::from_bytes(&bytes[..20]).is_err());
    assert!(P3m::from_bytes(&[]).is_err());
}

#[test]
fn p3m_invalid_texture_name_is_rejected() {
    let (_, bytes) = data();
    let mut bad = bytes.to_vec();
    // The texture name starts after the bones and the two counts.
    let texture = 29 + 2 * 24 + 2 * 28 + 4;
    bad[texture] = 0xff;
    assert!(P3m::from_bytes(&bad).is_err());
}

#[test]
fn p3m_trailing_bytes_are_ignored() {
    let (expected, bytes) = data();
    let mut longer = bytes.to_vec();
    longer.extend_from_slice(&[1, 2, 3]);
    assert_eq!(expected, P3m::from_bytes(&longer).unwrap());
}

#[test]
fn p3m_children_past_ten_slots_are_dropped() {
    let mut p3m = P3m::new();
    p3m.position_bones = vec![PositionBone { position: v3(0., 0., 0.), children: (0..12).collect() }];
    let decoded = P3m::from_bytes(&p3m.to_bytes()).unwrap();
    assert_eq!((0..10).collect::<Vec<u8>>(), decoded.position_bones[0].children);
}
