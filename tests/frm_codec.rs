use chaseconv::frm::{Frame, Frm, FrmVersion};

fn matrix(v: f32) -> Vec<u32> {
    vec![v.to_bits(); 16]
}

fn data_v1_0() -> (Frm, &'static [u8]) {
    let frm = Frm {
        version: FrmVersion::V1_0,
        frames: vec![
            Frame {
                option: 0,
                pos_x: 1f32.to_bits(),
                pos_y: (-1f32).to_bits(),
                pos_z: 0f32.to_bits(),
                bones: vec![matrix(0.)],
            },
            Frame {
                option: 0,
                pos_x: (-1f32).to_bits(),
                pos_y: 1f32.to_bits(),
                pos_z: 0f32.to_bits(),
                bones: vec![matrix(1.)],
            },
        ],
    };

    const DATA: [u8; 148] = [
            0x02, 0x01, 0x00, 0x00, 0x00, 0x80, 0x3F, 0x00, 0x00, 0x80, 0xBF, 0x00, 0x00, 0x00,
            0x00, 0x00, 0x00, 0x00, 0x00, 0x00, 0x00, 0x00, 0x00, 0x00, 0x00, 0x00, 0x00, 0x00,
            0x00, 0x00, 0x00, 0x00, 0x00, 0x00, 0x00, 0x00, 0x00, 0x00, 0x00, 0x00, 0x00, 0x00,
            0x00, 0x00, 0x00, 0x00, 0x00, 0x00, 0x00, 0x00, 0x00, 0x00, 0x00, 0x00, 0x00, 0x00,
            0x00, 0x00, 0x00, 0x00, 0x00, 0x00, 0x00, 0x00, 0x00, 0x00, 0x00, 0x00, 0x00, 0x00,
            0x00, 0x00, 0x00, 0x00, 0x00, 0x00, 0x00, 0x00, 0x80, 0xBF, 0x00, 0x00, 0x80, 0x3F,
            0x00, 0x00, 0x80, 0x3F, 0x00, 0x00, 0x80, 0x3F, 0x00, 0x00, 0x80, 0x3F, 0x00, 0x00,
            0x80, 0x3F, 0x00, 0x00, 0x80, 0x3F, 0x00, 0x00, 0x80, 0x3F, 0x00, 0x00, 0x80, 0x3F,
            0x00, 0x00, 0x80, 0x3F, 0x00, 0x00, 0x80, 0x3F, 0x00, 0x00, 0x80, 0x3F, 0x00, 0x00,
            0x80, 0x3F, 0x00, 0x00, 0x80, 0x3F, 0x00, 0x00, 0x80, 0x3F, 0x00, 0x00, 0x80, 0x3F,
            0x00, 0x00, 0x80, 0x3F, 0x00, 0x00, 0x80, 0x3F,
        ];

    (frm, &DATA)
}

fn data_v1_1() -> (Frm, &'static [u8]) {
    let frm = Frm {
        version: FrmVersion::V1_1,
        frames: vec![
            Frame {
                option: 0,
                pos_x: 1f32.to_bits(),
                pos_y: (-1f32).to_bits(),
                pos_z: 0f32.to_bits(),
                bones: vec![matrix(0.)],
            },
            Frame {
                option: 0,
                pos_x: (-1f32).to_bits(),
                pos_y: 1f32.to_bits(),
                pos_z: 1f32.to_bits(),
                bones: vec![matrix(1.)],
            },
        ],
    };

    const DATA: [u8; 170] = [
            0x46, 0x72, 0x6D, 0x20, 0x56, 0x65, 0x72, 0x20, 0x31, 0x2E, 0x31, 0x00, 0x02, 0x00,
            0x01, 0x00, 0x00, 0x00, 0x00, 0x80, 0x3F, 0x00, 0x00, 0x80, 0xBF, 0x00, 0x00, 0x00,
            0x00, 0x00, 0x00, 0x00, 0x00, 0x00, 0x00, 0x00, 0x00, 0x00, 0x00, 0x00, 0x00, 0x00,
            0x00, 0x00, 0x00, 0x00, 0x00, 0x00, 0x00, 0x00, 0x00, 0x00, 0x00, 0x00, 0x00, 0x00,
            0x00, 0x00, 0x00, 0x00, 0x00, 0x00, 0x00, 0x00, 0x00, 0x00, 0x00, 0x00, 0x00, 0x00,
            0x00, 0x00, 0x00, 0x00, 0x00, 0x00, 0x00, 0x00, 0x00, 0x00, 0x00, 0x00, 0x00, 0x00,
            0x00, 0x00, 0x00, 0x00, 0x00, 0x00, 0x00, 0x00, 0x80, 0xBF, 0x00, 0x00, 0x80, 0x3F,
            0x00, 0x00, 0x80, 0x3F, 0x00, 0x00, 0x80, 0x3F, 0x00, 0x00, 0x80, 0x3F, 0x00, 0x00,
            0x80, 0x3F, 0x00, 0x00, 0x80, 0x3F, 0x00, 0x00, 0x80, 0x3F, 0x00, 0x00, 0x80, 0x3F,
            0x00, 0x00, 0x80, 0x3F, 0x00, 0x00, 0x80, 0x3F, 0x00, 0x00, 0x80, 0x3F, 0x00, 0x00,
            0x80, 0x3F, 0x00, 0x00, 0x80, 0x3F, 0x00, 0x00, 0x80, 0x3F, 0x00, 0x00, 0x80, 0x3F,
            0x00, 0x00, 0x80, 0x3F, 0x00, 0x00, 0x80, 0x3F, 0x00, 0x00, 0x00, 0x00, 0x00, 0x00,
            0x80, 0x3F,
        ];

    (frm, &DATA)
}

#[test]
fn read_v1_0() {
    let (expected, bytes) = data_v1_0();
    let actual = Frm::from_bytes(bytes).unwrap();

    assert_eq!(expected, actual);
}

#[test]
fn write_v1_0() {
    let (frm, expected) = data_v1_0();
    let actual = frm.to_bytes();

    assert_eq!(expected, &actual[..]);
}

#[test]
fn read_v1_1() {
    let (expected, bytes) = data_v1_1();
    let actual = Frm::from_bytes(bytes).unwrap();

    assert_eq!(expected, actual);
}

#[test]
fn write_v1_1() {
    let (frm, expected) = data_v1_1();
    let actual = frm.to_bytes();

    assert_eq!(expected, &actual[..]);
}

#[test]
fn frm_round_trip_both_versions() {
    for (_, bytes) in [data_v1_0(), data_v1_1()] {
        let first = Frm::from_bytes(bytes).unwrap();
        let again = Frm::from_bytes(&first.to_bytes()).unwrap();
        assert_eq!(first, again);
    }
}

#[test]
fn frm_shorter_than_marker_is_rejected() {
    assert!(Frm::from_bytes(&[0, 0]).is_err());
    assert!(Frm::from_bytes(&[]).is_err());
}

#[test]
fn frm_truncated_is_rejected() {
    let (_, bytes) = data_v1_1();
    assert!(Frm::from_bytes(&bytes[..bytes.len() - 1]).is_err());
    let (_, bytes) = data_v1_0();
    assert!(Frm::from_bytes(&bytes[..bytes.len() - 1]).is_err());
}

#[test]
fn frm_num_bones_reads_first_frame() {
    let (frm, _) = data_v1_0();
    assert_eq!(1, frm.num_bones());
    assert_eq!(0, Frm::new(FrmVersion::V1_1).num_bones());
}
