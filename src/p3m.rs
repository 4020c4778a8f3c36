//! The `.p3m` binary format: a mesh with a skeleton split into position bones
//! and angle bones, and single-bone skinning.
//!
//! Layout (little-endian): a 27-byte version header, the one-byte counts of
//! position and angle bones, the bones, the two-byte vertex and face counts, a
//! 260-byte texture name, the faces, the skinned vertices, then as many
//! unskinned vertices.

use vstd::prelude::*;
use vstd::utf8::{decode_utf8, encode_utf8, valid_utf8};

use crate::convert::ConversionError;
use crate::geometry::{
    lemma_u16_at_sub, lemma_u32_at_sub, lemma_vec2_at_sub, lemma_vec3_at_sub, read_vec2, read_vec3, vec2_at, vec2_le, vec3_at, vec3_le, write_vec2, write_vec3, Vec2, Vec3,
};
use crate::le::{
    flatten, lemma_flatten_chunks, lemma_u16_bytes, lemma_u32_bytes, lemma_flatten_push, lemma_flatten_fixed, lemma_flatten_item, lemma_concat_prefix, lemma_concat_suffix, lemma_u16_at, lemma_u32_at, read_u16, read_u32, u16_at, u16_le, u32_at, u32_le, write_u16,
    write_u32,
};
use crate::text::{lemma_text_round_trip, padded, read_string, text_field, until_nul, write_string};

verus! {

/// Size of the version header field.
pub const VERSION_HEADER_LEN: usize = 27;

/// Size of the texture name field.
pub const TEXTURE_NAME_LEN: usize = 260;

/// A child slot holding this value is empty.
pub const INVALID_BONE_INDEX: u8 = 255;

/// The most bones of each kind a file can hold.
pub const MAX_NUM_BONES: usize = 255;

/// The number of child slots of a bone.
pub const MAX_CHILDREN: usize = 10;

pub const POSITION_BONE_SIZE: usize = 24;

pub const ANGLE_BONE_SIZE: usize = 28;

pub const FACE_SIZE: usize = 6;

pub const SKIN_VERTEX_SIZE: usize = 40;

pub const MESH_VERTEX_SIZE: usize = 32;

/// A translation applied to a set of child angle bones.
#[derive(Clone, Debug, PartialEq)]
pub struct PositionBone {
    pub position: Vec3,
    /// Indices of angle bones; at most ten.
    pub children: Vec<u8>,
}

/// A rotation node of the skeleton; skin vertices and keyframes refer to these.
#[derive(Clone, Debug, PartialEq)]
pub struct AngleBone {
    /// Unused, always zero in practice.
    pub position: Vec3,
    /// Unused, always zero in practice.
    pub scale: u32,
    /// Indices of position bones; at most ten.
    pub children: Vec<u8>,
}

/// A vertex bound to one bone, its position already offset by that bone.
#[derive(Clone, Copy, Debug, PartialEq, Eq, Structural)]
pub struct SkinVertex {
    pub position: Vec3,
    /// Always one in practice.
    pub weight: u32,
    /// Index of the angle bone plus the number of position bones.
    pub bone_index: u8,
    pub normal: Vec3,
    pub uv: Vec2,
}

/// An unskinned vertex.
#[derive(Clone, Copy, Debug, PartialEq, Eq, Structural)]
pub struct MeshVertex {
    pub position: Vec3,
    pub normal: Vec3,
    pub uv: Vec2,
}

/// The contents of a `.p3m` file.
#[derive(Clone, Debug, PartialEq)]
pub struct P3m {
    pub version_header: String,
    pub position_bones: Vec<PositionBone>,
    pub angle_bones: Vec<AngleBone>,
    /// Unused by the game, but kept.
    pub texture_name: String,
    /// Clockwise triangles.
    pub faces: Vec<[u16; 3]>,
    pub skin_vertices: Vec<SkinVertex>,
    pub mesh_vertices: Vec<MeshVertex>,
}

// ---------------------------------------------------------------------------
// The byte layout of each record.

/// The ten child slots: the children, then empty slots.
pub open spec fn child_slots(children: Seq<u8>) -> Seq<u8> {
    Seq::new(10, |i: int| if i < children.len() { children[i] } else { 255u8 })
}

/// The occupied slots among `slots`, in order.
pub open spec fn kept_children(slots: Seq<u8>) -> Seq<u8>
    decreases slots.len(),
{
    if slots.len() == 0 {
        seq![]
    } else if slots.last() == 255 {
        kept_children(slots.drop_last())
    } else {
        kept_children(slots.drop_last()).push(slots.last())
    }
}

/// Children that fit the slots and that an empty slot cannot be confused with.
pub open spec fn valid_children(children: Seq<u8>) -> bool {
    children.len() <= 10 && forall|i: int| 0 <= i < children.len() ==> children[i] != 255
}

pub open spec fn position_bone_le(b: PositionBone) -> Seq<u8> {
    vec3_le(b.position) + child_slots(b.children@) + seq![255u8, 255u8]
}

/// `b` is what the 24 bytes `r` decode to.
pub open spec fn position_bone_of(b: PositionBone, r: Seq<u8>) -> bool {
    b.position == vec3_at(r, 0) && b.children@ == kept_children(r.subrange(12, 22))
}

pub open spec fn angle_bone_le(b: AngleBone) -> Seq<u8> {
    vec3_le(b.position) + u32_le(b.scale) + child_slots(b.children@) + seq![255u8, 255u8]
}

/// `b` is what the 28 bytes `r` decode to.
pub open spec fn angle_bone_of(b: AngleBone, r: Seq<u8>) -> bool {
    b.position == vec3_at(r, 0) && b.scale == u32_at(r, 12) && b.children@ == kept_children(
        r.subrange(16, 26),
    )
}

pub open spec fn skin_vertex_le(v: SkinVertex) -> Seq<u8> {
    vec3_le(v.position) + u32_le(v.weight) + seq![v.bone_index, v.bone_index, 255u8, 255u8]
        + vec3_le(v.normal) + vec2_le(v.uv)
}

/// What the 40 bytes `r` decode to.
pub open spec fn skin_vertex_of(r: Seq<u8>) -> SkinVertex {
    SkinVertex {
        position: vec3_at(r, 0),
        weight: u32_at(r, 12),
        bone_index: r[16],
        normal: vec3_at(r, 20),
        uv: vec2_at(r, 32),
    }
}

pub open spec fn mesh_vertex_le(v: MeshVertex) -> Seq<u8> {
    vec3_le(v.position) + vec3_le(v.normal) + vec2_le(v.uv)
}

/// What the 32 bytes `r` decode to.
pub open spec fn mesh_vertex_of(r: Seq<u8>) -> MeshVertex {
    MeshVertex { position: vec3_at(r, 0), normal: vec3_at(r, 12), uv: vec2_at(r, 24) }
}

pub open spec fn face_le(f: [u16; 3]) -> Seq<u8> {
    u16_le(f@[0]) + u16_le(f@[1]) + u16_le(f@[2])
}

/// What the 6 bytes `r` decode to.
pub open spec fn face_of(r: Seq<u8>) -> Seq<u16> {
    seq![u16_at(r, 0), u16_at(r, 2), u16_at(r, 4)]
}

pub open spec fn position_bone_enc() -> spec_fn(PositionBone) -> Seq<u8> {
    |b: PositionBone| position_bone_le(b)
}

pub open spec fn angle_bone_enc() -> spec_fn(AngleBone) -> Seq<u8> {
    |b: AngleBone| angle_bone_le(b)
}

pub open spec fn face_enc() -> spec_fn([u16; 3]) -> Seq<u8> {
    |f: [u16; 3]| face_le(f)
}

pub open spec fn skin_vertex_enc() -> spec_fn(SkinVertex) -> Seq<u8> {
    |v: SkinVertex| skin_vertex_le(v)
}

pub open spec fn mesh_vertex_enc() -> spec_fn(MeshVertex) -> Seq<u8> {
    |v: MeshVertex| mesh_vertex_le(v)
}

pub open spec fn p3m_head(p: P3m) -> Seq<u8> {
    padded(encode_utf8(p.version_header@), 27) + seq![
        p.position_bones.len() as u8,
        p.angle_bones.len() as u8,
    ]
}

pub open spec fn p3m_counts(p: P3m) -> Seq<u8> {
    u16_le(p.skin_vertices.len() as u16) + u16_le(p.faces.len() as u16)
}

pub open spec fn p3m_texture(p: P3m) -> Seq<u8> {
    padded(encode_utf8(p.texture_name@), 260)
}

/// The bytes of a whole file.
#[verifier::opaque]
pub open spec fn p3m_le(p: P3m) -> Seq<u8> {
    p3m_head(p) + flatten(p.position_bones@, position_bone_enc()) + flatten(
        p.angle_bones@,
        angle_bone_enc(),
    ) + p3m_counts(p) + p3m_texture(p) + flatten(p.faces@, face_enc()) + flatten(
        p.skin_vertices@,
        skin_vertex_enc(),
    ) + flatten(p.mesh_vertices@, mesh_vertex_enc())
}

/// The counts that a file's header fields can hold.
pub open spec fn p3m_fits(p: P3m) -> bool {
    &&& p.position_bones.len() <= 255
    &&& p.angle_bones.len() <= 255
    &&& p.skin_vertices.len() <= 0xffff
    &&& p.faces.len() <= 0xffff
}

// ---------------------------------------------------------------------------
// Where each part of a file starts, read off the counts in `s`.

pub open spec fn angle_bones_pos(s: Seq<u8>) -> int {
    29 + 24 * s[27]
}

pub open spec fn counts_pos(s: Seq<u8>) -> int {
    angle_bones_pos(s) + 28 * s[28]
}

pub open spec fn num_vertices(s: Seq<u8>) -> int {
    u16_at(s, counts_pos(s)) as int
}

pub open spec fn num_faces(s: Seq<u8>) -> int {
    u16_at(s, counts_pos(s) + 2) as int
}

pub open spec fn texture_pos(s: Seq<u8>) -> int {
    counts_pos(s) + 4
}

pub open spec fn faces_pos(s: Seq<u8>) -> int {
    texture_pos(s) + 260
}

pub open spec fn skin_vertices_pos(s: Seq<u8>) -> int {
    faces_pos(s) + 6 * num_faces(s)
}

pub open spec fn mesh_vertices_pos(s: Seq<u8>) -> int {
    skin_vertices_pos(s) + 40 * num_vertices(s)
}

pub open spec fn p3m_end(s: Seq<u8>) -> int {
    mesh_vertices_pos(s) + 32 * num_vertices(s)
}

/// `s` holds every byte that its counts call for.
pub open spec fn p3m_complete(s: Seq<u8>) -> bool {
    &&& s.len() >= 29
    &&& s.len() >= counts_pos(s) + 4
    &&& s.len() >= p3m_end(s)
}

/// Both text fields of `s` are UTF-8.
pub open spec fn p3m_text_valid(s: Seq<u8>) -> bool {
    valid_utf8(text_field(s, 0, 27)) && valid_utf8(text_field(s, texture_pos(s), 260))
}

pub open spec fn p3m_text_of(p: P3m, s: Seq<u8>) -> bool {
    &&& p.version_header@ == decode_utf8(text_field(s, 0, 27))
    &&& p.texture_name@ == decode_utf8(text_field(s, texture_pos(s), 260))
}

pub open spec fn p3m_position_bones_of(p: P3m, s: Seq<u8>) -> bool {
    &&& p.position_bones.len() == s[27]
    &&& forall|i: int|
        0 <= i < p.position_bones.len() ==> position_bone_of(
            #[trigger] p.position_bones@[i],
            s.subrange(29 + 24 * i, 29 + 24 * i + 24),
        )
}

pub open spec fn p3m_angle_bones_of(p: P3m, s: Seq<u8>) -> bool {
    &&& p.angle_bones.len() == s[28]
    &&& forall|i: int|
        0 <= i < p.angle_bones.len() ==> angle_bone_of(
            #[trigger] p.angle_bones@[i],
            s.subrange(angle_bones_pos(s) + 28 * i, angle_bones_pos(s) + 28 * i + 28),
        )
}

pub open spec fn p3m_faces_of(p: P3m, s: Seq<u8>) -> bool {
    &&& p.faces.len() == num_faces(s)
    &&& forall|i: int|
        0 <= i < p.faces.len() ==> (#[trigger] p.faces@[i])@ == face_of(
            s.subrange(faces_pos(s) + 6 * i, faces_pos(s) + 6 * i + 6),
        )
}

pub open spec fn p3m_vertices_of(p: P3m, s: Seq<u8>) -> bool {
    &&& p.skin_vertices.len() == num_vertices(s)
    &&& forall|i: int|
        0 <= i < p.skin_vertices.len() ==> #[trigger] p.skin_vertices@[i] == skin_vertex_of(
            s.subrange(skin_vertices_pos(s) + 40 * i, skin_vertices_pos(s) + 40 * i + 40),
        )
    &&& p.mesh_vertices.len() == num_vertices(s)
    &&& forall|i: int|
        0 <= i < p.mesh_vertices.len() ==> #[trigger] p.mesh_vertices@[i] == mesh_vertex_of(
            s.subrange(mesh_vertices_pos(s) + 32 * i, mesh_vertices_pos(s) + 32 * i + 32),
        )
}

/// `p` is what the complete file `s` decodes to.
pub open spec fn p3m_of(p: P3m, s: Seq<u8>) -> bool {
    &&& p3m_text_of(p, s)
    &&& p3m_position_bones_of(p, s)
    &&& p3m_angle_bones_of(p, s)
    &&& p3m_faces_of(p, s)
    &&& p3m_vertices_of(p, s)
}

// ---------------------------------------------------------------------------
// Records.

fn read_children(b: &[u8], pos: usize) -> (r: Vec<u8>)
    requires
        pos + 10 <= b@.len(),
    ensures
        r@ == kept_children(b@.subrange(pos as int, pos + 10)),
{
    let _len = b.len();
    let mut children: Vec<u8> = Vec::new();
    let mut i: usize = 0;
    while i < 10
        invariant
            pos + 10 <= b@.len(),
            _len == b@.len(),
            i <= 10,
            children@ == kept_children(b@.subrange(pos as int, pos + i)),
        decreases 10 - i,
    {
        let child = b[pos + i];
        if child != INVALID_BONE_INDEX {
            children.push(child);
        }
        proof {
            let next = b@.subrange(pos as int, pos + i + 1);
            assert(next.drop_last() =~= b@.subrange(pos as int, pos + i));
        }
        i = i + 1;
    }
    children
}

fn write_children(out: &mut Vec<u8>, children: &Vec<u8>)
    ensures
        final(out)@ == old(out)@ + child_slots(children@),
{
    let ghost start = out@;
    let mut i: usize = 0;
    while i < 10
        invariant
            i <= 10,
            out@ == start + child_slots(children@).take(i as int),
        decreases 10 - i,
    {
        if i < children.len() {
            out.push(children[i]);
        } else {
            out.push(INVALID_BONE_INDEX);
        }
        i = i + 1;
        assert(out@ =~= start + child_slots(children@).take(i as int));
    }
    assert(child_slots(children@).take(10) =~= child_slots(children@));
}

impl PositionBone {
    pub fn new() -> (r: PositionBone)
        ensures
            r.position == (Vec3 { x: 0, y: 0, z: 0 }),
            r.children@.len() == 0,
    {
        PositionBone { position: Vec3 { x: 0, y: 0, z: 0 }, children: Vec::new() }
    }

    fn from_reader(b: &[u8], pos: usize) -> (r: PositionBone)
        requires
            pos + 24 <= b@.len(),
        ensures
            position_bone_of(r, b@.subrange(pos as int, pos + 24)),
    {
        let _len = b.len();
        let position = read_vec3(b, pos);
        let children = read_children(b, pos + 12);
        let ghost r = b@.subrange(pos as int, pos + 24);
        assert(r.subrange(12, 22) =~= b@.subrange(pos + 12, pos + 22));
        PositionBone { position, children }
    }

    fn to_bytes(&self, out: &mut Vec<u8>)
        ensures
            final(out)@ == old(out)@ + position_bone_le(*self),
    {
        write_vec3(out, self.position);
        write_children(out, &self.children);
        out.push(0xff);
        out.push(0xff);
        assert(out@ =~= old(out)@ + position_bone_le(*self));
    }
}

impl AngleBone {
    pub fn new() -> (r: AngleBone)
        ensures
            r.position == (Vec3 { x: 0, y: 0, z: 0 }),
            r.scale == 0,
            r.children@.len() == 0,
    {
        AngleBone { position: Vec3 { x: 0, y: 0, z: 0 }, scale: 0, children: Vec::new() }
    }

    fn from_reader(b: &[u8], pos: usize) -> (r: AngleBone)
        requires
            pos + 28 <= b@.len(),
        ensures
            angle_bone_of(r, b@.subrange(pos as int, pos + 28)),
    {
        let _len = b.len();
        let position = read_vec3(b, pos);
        let scale = read_u32(b, pos + 12);
        let children = read_children(b, pos + 16);
        let ghost r = b@.subrange(pos as int, pos + 28);
        assert(r.subrange(16, 26) =~= b@.subrange(pos + 16, pos + 26));
        AngleBone { position, scale, children }
    }

    fn to_bytes(&self, out: &mut Vec<u8>)
        ensures
            final(out)@ == old(out)@ + angle_bone_le(*self),
    {
        write_vec3(out, self.position);
        write_u32(out, self.scale);
        write_children(out, &self.children);
        out.push(0xff);
        out.push(0xff);
        assert(out@ =~= old(out)@ + angle_bone_le(*self));
    }
}

impl SkinVertex {
    /// A vertex at the origin, bound to no bone, with full weight.
    pub fn new() -> (r: SkinVertex)
        ensures
            r.position == (Vec3 { x: 0, y: 0, z: 0 }),
            r.weight == 0x3f80_0000,
            r.bone_index == INVALID_BONE_INDEX,
            r.normal == (Vec3 { x: 0, y: 0, z: 0 }),
            r.uv == (Vec2 { x: 0, y: 0 }),
    {
        SkinVertex {
            position: Vec3 { x: 0, y: 0, z: 0 },
            weight: 0x3f80_0000,
            bone_index: INVALID_BONE_INDEX,
            normal: Vec3 { x: 0, y: 0, z: 0 },
            uv: Vec2 { x: 0, y: 0 },
        }
    }

    fn from_reader(b: &[u8], pos: usize) -> (r: SkinVertex)
        requires
            pos + 40 <= b@.len(),
        ensures
            r == skin_vertex_of(b@.subrange(pos as int, pos + 40)),
    {
        let _len = b.len();
        let position = read_vec3(b, pos);
        let weight = read_u32(b, pos + 12);
        let bone_index = b[pos + 16];
        let normal = read_vec3(b, pos + 20);
        let uv = read_vec2(b, pos + 32);
        SkinVertex { position, weight, bone_index, normal, uv }
    }

    fn to_bytes(&self, out: &mut Vec<u8>)
        ensures
            final(out)@ == old(out)@ + skin_vertex_le(*self),
    {
        write_vec3(out, self.position);
        write_u32(out, self.weight);
        out.push(self.bone_index);
        out.push(self.bone_index);
        out.push(INVALID_BONE_INDEX);
        out.push(INVALID_BONE_INDEX);
        write_vec3(out, self.normal);
        write_vec2(out, self.uv);
        assert(out@ =~= old(out)@ + skin_vertex_le(*self));
    }
}

impl MeshVertex {
    pub fn new() -> (r: MeshVertex)
        ensures
            r.position == (Vec3 { x: 0, y: 0, z: 0 }),
            r.normal == (Vec3 { x: 0, y: 0, z: 0 }),
            r.uv == (Vec2 { x: 0, y: 0 }),
    {
        MeshVertex {
            position: Vec3 { x: 0, y: 0, z: 0 },
            normal: Vec3 { x: 0, y: 0, z: 0 },
            uv: Vec2 { x: 0, y: 0 },
        }
    }

    fn from_reader(b: &[u8], pos: usize) -> (r: MeshVertex)
        requires
            pos + 32 <= b@.len(),
        ensures
            r == mesh_vertex_of(b@.subrange(pos as int, pos + 32)),
    {
        let _len = b.len();
        MeshVertex {
            position: read_vec3(b, pos),
            normal: read_vec3(b, pos + 12),
            uv: read_vec2(b, pos + 24),
        }
    }

    fn to_bytes(&self, out: &mut Vec<u8>)
        ensures
            final(out)@ == old(out)@ + mesh_vertex_le(*self),
    {
        write_vec3(out, self.position);
        write_vec3(out, self.normal);
        write_vec2(out, self.uv);
        assert(out@ =~= old(out)@ + mesh_vertex_le(*self));
    }
}

fn read_face(b: &[u8], pos: usize) -> (r: [u16; 3])
    requires
        pos + 6 <= b@.len(),
    ensures
        r@ == face_of(b@.subrange(pos as int, pos + 6)),
{
    let _len = b.len();
    let r = [read_u16(b, pos), read_u16(b, pos + 2), read_u16(b, pos + 4)];
    assert(r@ =~= face_of(b@.subrange(pos as int, pos + 6)));
    r
}

fn write_face(out: &mut Vec<u8>, f: &[u16; 3])
    ensures
        final(out)@ == old(out)@ + face_le(*f),
{
    write_u16(out, f[0]);
    write_u16(out, f[1]);
    write_u16(out, f[2]);
    assert(out@ =~= old(out)@ + face_le(*f));
}

impl P3m {
    /// An empty model with the standard version header.
    pub fn new() -> (r: P3m)
        ensures
            r.version_header@ == "Perfact 3D Model (Ver 0.5)"@,
            r.texture_name@.len() == 0,
            r.position_bones@.len() == 0,
            r.angle_bones@.len() == 0,
            r.faces@.len() == 0,
            r.skin_vertices@.len() == 0,
            r.mesh_vertices@.len() == 0,
    {
        P3m {
            version_header: "Perfact 3D Model (Ver 0.5)".to_owned(),
            position_bones: Vec::new(),
            angle_bones: Vec::new(),
            texture_name: String::new(),
            faces: Vec::new(),
            skin_vertices: Vec::new(),
            mesh_vertices: Vec::new(),
        }
    }

    /// Decodes a file. It fails when `bytes` is shorter than its counts call
    /// for, or when a text field is not UTF-8; bytes past the end are ignored.
    pub fn from_bytes(bytes: &[u8]) -> (r: Result<P3m, ConversionError>)
        ensures
            r is Ok <==> p3m_complete(bytes@) && p3m_text_valid(bytes@),
            r matches Ok(p) ==> p3m_of(p, bytes@),
            r matches Err(e) ==> e == ConversionError::Deserialization,
    {
        let n = bytes.len();
        if n < 29 {
            return Err(ConversionError::Deserialization);
        }
        let np = bytes[27] as usize;
        let na = bytes[28] as usize;
        let angle_at: usize = 29 + 24 * np;
        let counts: usize = angle_at + 28 * na;
        if n < counts + 4 {
            return Err(ConversionError::Deserialization);
        }
        let nv = read_u16(bytes, counts) as usize;
        let nf = read_u16(bytes, counts + 2) as usize;
        let texture_at: usize = counts + 4;
        let faces_at: usize = texture_at + 260;
        let skin_at: usize = faces_at + 6 * nf;
        let mesh_at: usize = skin_at + 40 * nv;
        let end: usize = mesh_at + 32 * nv;
        if n < end {
            return Err(ConversionError::Deserialization);
        }
        let mut pos: usize = 0;
        let version_header = match read_string(bytes, &mut pos, VERSION_HEADER_LEN) {
            Ok(s) => s,
            Err(e) => return Err(e),
        };
        let mut pos: usize = texture_at;
        let texture_name = match read_string(bytes, &mut pos, TEXTURE_NAME_LEN) {
            Ok(s) => s,
            Err(e) => return Err(e),
        };
        let ghost s = bytes@;

        let mut position_bones: Vec<PositionBone> = Vec::new();
        let mut i: usize = 0;
        while i < np
            invariant
                n == s.len(),
                s == bytes@,
                np == s[27],
                angle_at == 29 + 24 * np,
                angle_at <= n,
                i <= np,
                position_bones.len() == i,
                forall|k: int|
                    0 <= k < i ==> position_bone_of(
                        #[trigger] position_bones@[k],
                        s.subrange(29 + 24 * k, 29 + 24 * k + 24),
                    ),
            decreases np - i,
        {
            position_bones.push(PositionBone::from_reader(bytes, 29 + 24 * i));
            i = i + 1;
        }

        let mut angle_bones: Vec<AngleBone> = Vec::new();
        let mut i: usize = 0;
        while i < na
            invariant
                n == s.len(),
                s == bytes@,
                na == s[28],
                angle_at == angle_bones_pos(s),
                counts == angle_at + 28 * na,
                counts <= n,
                i <= na,
                angle_bones.len() == i,
                forall|k: int|
                    0 <= k < i ==> angle_bone_of(
                        #[trigger] angle_bones@[k],
                        s.subrange(angle_at + 28 * k, angle_at + 28 * k + 28),
                    ),
            decreases na - i,
        {
            angle_bones.push(AngleBone::from_reader(bytes, angle_at + 28 * i));
            i = i + 1;
        }

        let mut faces: Vec<[u16; 3]> = Vec::new();
        let mut i: usize = 0;
        while i < nf
            invariant
                n == s.len(),
                s == bytes@,
                faces_at + 6 * nf <= n,
                i <= nf,
                faces.len() == i,
                forall|k: int|
                    0 <= k < i ==> (#[trigger] faces@[k])@ == face_of(
                        s.subrange(faces_at + 6 * k, faces_at + 6 * k + 6),
                    ),
            decreases nf - i,
        {
            faces.push(read_face(bytes, faces_at + 6 * i));
            i = i + 1;
        }

        let mut skin_vertices: Vec<SkinVertex> = Vec::new();
        let mut i: usize = 0;
        while i < nv
            invariant
                n == s.len(),
                s == bytes@,
                skin_at + 40 * nv <= n,
                i <= nv,
                skin_vertices.len() == i,
                forall|k: int|
                    0 <= k < i ==> #[trigger] skin_vertices@[k] == skin_vertex_of(
                        s.subrange(skin_at + 40 * k, skin_at + 40 * k + 40),
                    ),
            decreases nv - i,
        {
            skin_vertices.push(SkinVertex::from_reader(bytes, skin_at + 40 * i));
            i = i + 1;
        }

        let mut mesh_vertices: Vec<MeshVertex> = Vec::new();
        let mut i: usize = 0;
        while i < nv
            invariant
                n == s.len(),
                s == bytes@,
                mesh_at + 32 * nv <= n,
                i <= nv,
                mesh_vertices.len() == i,
                forall|k: int|
                    0 <= k < i ==> #[trigger] mesh_vertices@[k] == mesh_vertex_of(
                        s.subrange(mesh_at + 32 * k, mesh_at + 32 * k + 32),
                    ),
            decreases nv - i,
        {
            mesh_vertices.push(MeshVertex::from_reader(bytes, mesh_at + 32 * i));
            i = i + 1;
        }

        Ok(
            P3m {
                version_header,
                position_bones,
                angle_bones,
                texture_name,
                faces,
                skin_vertices,
                mesh_vertices,
            },
        )
    }

    /// Encodes the model. Children past the tenth slot of a bone are not written.
    pub fn to_bytes(&self) -> (r: Vec<u8>)
        requires
            p3m_fits(*self),
        ensures
            r@ == p3m_le(*self),
    {
        let mut out: Vec<u8> = Vec::new();
        write_string(&mut out, self.version_header.as_str(), VERSION_HEADER_LEN);
        out.push(self.position_bones.len() as u8);
        out.push(self.angle_bones.len() as u8);
        let ghost start = out@;

        let mut i: usize = 0;
        while i < self.position_bones.len()
            invariant
                i <= self.position_bones.len(),
                out@ == start + flatten(self.position_bones@.take(i as int), position_bone_enc()),
            decreases self.position_bones.len() - i,
        {
            self.position_bones[i].to_bytes(&mut out);
            proof {
                lemma_flatten_push(self.position_bones@, position_bone_enc(), i as int);
            }
            i = i + 1;
        }
        assert(self.position_bones@.take(i as int) =~= self.position_bones@);
        let ghost start = out@;

        let mut i: usize = 0;
        while i < self.angle_bones.len()
            invariant
                i <= self.angle_bones.len(),
                out@ == start + flatten(self.angle_bones@.take(i as int), angle_bone_enc()),
            decreases self.angle_bones.len() - i,
        {
            self.angle_bones[i].to_bytes(&mut out);
            proof {
                lemma_flatten_push(self.angle_bones@, angle_bone_enc(), i as int);
            }
            i = i + 1;
        }
        assert(self.angle_bones@.take(i as int) =~= self.angle_bones@);

        write_u16(&mut out, self.skin_vertices.len() as u16);
        write_u16(&mut out, self.faces.len() as u16);
        write_string(&mut out, self.texture_name.as_str(), TEXTURE_NAME_LEN);
        let ghost start = out@;

        let mut i: usize = 0;
        while i < self.faces.len()
            invariant
                i <= self.faces.len(),
                out@ == start + flatten(self.faces@.take(i as int), face_enc()),
            decreases self.faces.len() - i,
        {
            write_face(&mut out, &self.faces[i]);
            proof {
                lemma_flatten_push(self.faces@, face_enc(), i as int);
            }
            i = i + 1;
        }
        assert(self.faces@.take(i as int) =~= self.faces@);
        let ghost start = out@;

        let mut i: usize = 0;
        while i < self.skin_vertices.len()
            invariant
                i <= self.skin_vertices.len(),
                out@ == start + flatten(self.skin_vertices@.take(i as int), skin_vertex_enc()),
            decreases self.skin_vertices.len() - i,
        {
            self.skin_vertices[i].to_bytes(&mut out);
            proof {
                lemma_flatten_push(self.skin_vertices@, skin_vertex_enc(), i as int);
            }
            i = i + 1;
        }
        assert(self.skin_vertices@.take(i as int) =~= self.skin_vertices@);
        let ghost start = out@;

        let mut i: usize = 0;
        while i < self.mesh_vertices.len()
            invariant
                i <= self.mesh_vertices.len(),
                out@ == start + flatten(self.mesh_vertices@.take(i as int), mesh_vertex_enc()),
            decreases self.mesh_vertices.len() - i,
        {
            self.mesh_vertices[i].to_bytes(&mut out);
            proof {
                lemma_flatten_push(self.mesh_vertices@, mesh_vertex_enc(), i as int);
            }
            i = i + 1;
        }
        assert(self.mesh_vertices@.take(i as int) =~= self.mesh_vertices@);
        reveal(p3m_le);
        assert(out@ =~= p3m_le(*self));
        out
    }
}


// ---------------------------------------------------------------------------
// Round trip.

proof fn lemma_kept_children_valid(slots: Seq<u8>)
    ensures
        kept_children(slots).len() <= slots.len(),
        forall|i: int|
            0 <= i < kept_children(slots).len() ==> kept_children(slots)[i] != 255,
    decreases slots.len(),
{
    if slots.len() > 0 {
        lemma_kept_children_valid(slots.drop_last());
    }
}

proof fn lemma_kept_child_slots_prefix(children: Seq<u8>, k: int)
    requires
        valid_children(children),
        0 <= k <= 10,
    ensures
        kept_children(child_slots(children).take(k)) == children.take(
            if k < children.len() {
                k
            } else {
                children.len() as int
            },
        ),
    decreases k,
{
    let slots = child_slots(children);
    if k > 0 {
        lemma_kept_child_slots_prefix(children, k - 1);
        assert(slots.take(k).drop_last() =~= slots.take(k - 1));
        if k - 1 < children.len() {
            assert(children.take(k) =~= children.take(k - 1).push(children[k - 1]));
        }
    } else {
        assert(slots.take(0) =~= seq![]);
        assert(children.take(0) =~= seq![]);
    }
}

proof fn lemma_kept_child_slots(children: Seq<u8>)
    requires
        valid_children(children),
    ensures
        kept_children(child_slots(children)) == children,
{
    lemma_kept_child_slots_prefix(children, 10);
    assert(child_slots(children).take(10) =~= child_slots(children));
    assert(children.take(children.len() as int) =~= children);
}

proof fn lemma_position_bone_round_trip(b: PositionBone, q: PositionBone)
    requires
        valid_children(b.children@),
        position_bone_of(q, position_bone_le(b)),
    ensures
        q.position == b.position,
        q.children@ == b.children@,
{
    let r = position_bone_le(b);
    assert(r.subrange(0, 12) =~= vec3_le(b.position));
    lemma_vec3_at_sub(r, 0, b.position);
    assert(r.subrange(12, 22) =~= child_slots(b.children@));
    lemma_kept_child_slots(b.children@);
}

proof fn lemma_angle_bone_round_trip(b: AngleBone, q: AngleBone)
    requires
        valid_children(b.children@),
        angle_bone_of(q, angle_bone_le(b)),
    ensures
        q.position == b.position,
        q.scale == b.scale,
        q.children@ == b.children@,
{
    let r = angle_bone_le(b);
    assert(r.subrange(0, 12) =~= vec3_le(b.position));
    lemma_vec3_at_sub(r, 0, b.position);
    assert(r.subrange(12, 16) =~= u32_le(b.scale));
    lemma_u32_at_sub(r, 12, b.scale);
    assert(r.subrange(16, 26) =~= child_slots(b.children@));
    lemma_kept_child_slots(b.children@);
}

proof fn lemma_skin_vertex_round_trip(v: SkinVertex)
    ensures
        skin_vertex_of(skin_vertex_le(v)) == v,
{
    let r = skin_vertex_le(v);
    assert(r.subrange(0, 12) =~= vec3_le(v.position));
    lemma_vec3_at_sub(r, 0, v.position);
    assert(r.subrange(12, 16) =~= u32_le(v.weight));
    lemma_u32_at_sub(r, 12, v.weight);
    assert(r[16] == v.bone_index);
    assert(r.subrange(20, 32) =~= vec3_le(v.normal));
    lemma_vec3_at_sub(r, 20, v.normal);
    assert(r.subrange(32, 40) =~= vec2_le(v.uv));
    lemma_vec2_at_sub(r, 32, v.uv);
}

proof fn lemma_mesh_vertex_round_trip(v: MeshVertex)
    ensures
        mesh_vertex_of(mesh_vertex_le(v)) == v,
{
    let r = mesh_vertex_le(v);
    assert(r.subrange(0, 12) =~= vec3_le(v.position));
    lemma_vec3_at_sub(r, 0, v.position);
    assert(r.subrange(12, 24) =~= vec3_le(v.normal));
    lemma_vec3_at_sub(r, 12, v.normal);
    assert(r.subrange(24, 32) =~= vec2_le(v.uv));
    lemma_vec2_at_sub(r, 24, v.uv);
}

proof fn lemma_face_round_trip(f: [u16; 3])
    ensures
        face_of(face_le(f)) == f@,
{
    let r = face_le(f);
    let (a, b, c) = (u16_le(f@[0]), u16_le(f@[1]), u16_le(f@[2]));
    assert(r =~= seq![] + a + (b + c));
    lemma_u16_at(seq![], f@[0], b + c);
    lemma_u16_at(a, f@[1], c);
    assert(r =~= (a + b) + c + seq![]);
    lemma_u16_at(a + b, f@[2], seq![]);
    assert(face_of(r) =~= f@);
}

/// `q` holds the same bones, faces, vertices and text as `p`.
pub open spec fn same_model(p: P3m, q: P3m) -> bool {
    &&& q.version_header@ == p.version_header@
    &&& q.texture_name@ == p.texture_name@
    &&& q.position_bones.len() == p.position_bones.len()
    &&& forall|i: int|
        0 <= i < p.position_bones.len() ==> (#[trigger] q.position_bones@[i]).position
            == p.position_bones@[i].position && q.position_bones@[i].children@
            == p.position_bones@[i].children@
    &&& q.angle_bones.len() == p.angle_bones.len()
    &&& forall|i: int|
        0 <= i < p.angle_bones.len() ==> (#[trigger] q.angle_bones@[i]).position
            == p.angle_bones@[i].position && q.angle_bones@[i].scale == p.angle_bones@[i].scale
            && q.angle_bones@[i].children@ == p.angle_bones@[i].children@
    &&& q.faces.len() == p.faces.len()
    &&& forall|i: int| 0 <= i < p.faces.len() ==> (#[trigger] q.faces@[i])@ == p.faces@[i]@
    &&& q.skin_vertices@ == p.skin_vertices@
    &&& q.mesh_vertices@ == p.mesh_vertices@
}

/// Where the parts of an encoded model lie.
proof fn lemma_p3m_layout(p: P3m)
    requires
        p3m_fits(p),
        p.mesh_vertices.len() == p.skin_vertices.len(),
    ensures
        ({
            let e = p3m_le(p);
            let np = p.position_bones.len();
            let na = p.angle_bones.len();
            let nv = p.skin_vertices.len();
            let nf = p.faces.len();
            let hd = p3m_head(p);
            let pb = flatten(p.position_bones@, position_bone_enc());
            let ab = flatten(p.angle_bones@, angle_bone_enc());
            let cn = p3m_counts(p);
            let tx = p3m_texture(p);
            let fc = flatten(p.faces@, face_enc());
            let sv = flatten(p.skin_vertices@, skin_vertex_enc());
            let mv = flatten(p.mesh_vertices@, mesh_vertex_enc());
            let a0 = 29 + 24 * np;
            let c0 = a0 + 28 * na;
            let f0 = c0 + 264;
            let s0 = f0 + 6 * nf;
            let m0 = s0 + 40 * nv;
            &&& e[27] == np
            &&& e[28] == na
            &&& counts_pos(e) == c0
            &&& num_vertices(e) == nv
            &&& num_faces(e) == nf
            &&& e.len() == p3m_end(e)
            &&& e.len() == m0 + 32 * nv
            &&& e.subrange(0, 27) == padded(encode_utf8(p.version_header@), 27)
            &&& e.subrange(29, a0) == pb
            &&& e.subrange(a0, c0) == ab
            &&& e.subrange(c0 + 4, f0) == tx
            &&& e.subrange(f0, s0) == fc
            &&& e.subrange(s0, m0) == sv
            &&& e.subrange(m0, m0 + 32 * nv) == mv
        }),
{
    let e = p3m_le(p);
    let np = p.position_bones.len();
    let na = p.angle_bones.len();
    let nv = p.skin_vertices.len();
    let nf = p.faces.len();
    let hd = p3m_head(p);
    let pb = flatten(p.position_bones@, position_bone_enc());
    let ab = flatten(p.angle_bones@, angle_bone_enc());
    let cn = p3m_counts(p);
    let tx = p3m_texture(p);
    let fc = flatten(p.faces@, face_enc());
    let sv = flatten(p.skin_vertices@, skin_vertex_enc());
    let mv = flatten(p.mesh_vertices@, mesh_vertex_enc());
    let a0 = 29 + 24 * np;
    let c0 = a0 + 28 * na;
    let f0 = c0 + 264;
    let s0 = f0 + 6 * nf;
    let m0 = s0 + 40 * nv;
    lemma_flatten_fixed(p.position_bones@, position_bone_enc(), 24);
    lemma_flatten_fixed(p.angle_bones@, angle_bone_enc(), 28);
    lemma_flatten_fixed(p.faces@, face_enc(), 6);
    lemma_flatten_fixed(p.skin_vertices@, skin_vertex_enc(), 40);
    lemma_flatten_fixed(p.mesh_vertices@, mesh_vertex_enc(), 32);
    let q2 = hd + pb;
    let q3 = q2 + ab;
    let q4 = q3 + cn;
    let q5 = q4 + tx;
    let q6 = q5 + fc;
    let q7 = q6 + sv;
    reveal(p3m_le);
    assert(e == q7 + mv);
    // Each part, read back from the prefix that ends with it.
    lemma_concat_suffix(q7, mv);
    lemma_concat_suffix(q6, sv);
    lemma_concat_prefix(q7, mv, s0, m0);
    lemma_concat_suffix(q5, fc);
    lemma_concat_prefix(q6, sv, f0, s0);
    lemma_concat_prefix(q7, mv, f0, s0);
    lemma_concat_suffix(q4, tx);
    lemma_concat_prefix(q5, fc, c0 + 4, f0);
    lemma_concat_prefix(q6, sv, c0 + 4, f0);
    lemma_concat_prefix(q7, mv, c0 + 4, f0);
    lemma_concat_suffix(q3, cn);
    lemma_concat_prefix(q4, tx, c0, c0 + 4);
    lemma_concat_prefix(q5, fc, c0, c0 + 4);
    lemma_concat_prefix(q6, sv, c0, c0 + 4);
    lemma_concat_prefix(q7, mv, c0, c0 + 4);
    lemma_concat_suffix(q2, ab);
    lemma_concat_prefix(q3, cn, a0, c0);
    lemma_concat_prefix(q4, tx, a0, c0);
    lemma_concat_prefix(q5, fc, a0, c0);
    lemma_concat_prefix(q6, sv, a0, c0);
    lemma_concat_prefix(q7, mv, a0, c0);
    lemma_concat_suffix(hd, pb);
    lemma_concat_prefix(q2, ab, 29, a0);
    lemma_concat_prefix(q3, cn, 29, a0);
    lemma_concat_prefix(q4, tx, 29, a0);
    lemma_concat_prefix(q5, fc, 29, a0);
    lemma_concat_prefix(q6, sv, 29, a0);
    lemma_concat_prefix(q7, mv, 29, a0);
    lemma_concat_prefix(hd, pb, 0, 29);
    lemma_concat_prefix(q2, ab, 0, 29);
    lemma_concat_prefix(q3, cn, 0, 29);
    lemma_concat_prefix(q4, tx, 0, 29);
    lemma_concat_prefix(q5, fc, 0, 29);
    lemma_concat_prefix(q6, sv, 0, 29);
    lemma_concat_prefix(q7, mv, 0, 29);
    let h = e.subrange(0, 29);
    assert(h == hd);
    assert(e[27] == h[27] && e[28] == h[28]);
    assert(e.subrange(0, 27) =~= h.subrange(0, 27));
    assert(hd.subrange(0, 27) =~= padded(encode_utf8(p.version_header@), 27));
    let cs = e.subrange(c0, c0 + 4);
    assert(cs == cn);
    assert(e.subrange(c0, c0 + 2) =~= cs.subrange(0, 2));
    assert(cn.subrange(0, 2) =~= u16_le(nv as u16));
    lemma_u16_at_sub(e, c0, nv as u16);
    assert(e.subrange(c0 + 2, c0 + 4) =~= cs.subrange(2, 4));
    assert(cn.subrange(2, 4) =~= u16_le(nf as u16));
    lemma_u16_at_sub(e, c0 + 2, nf as u16);
}

proof fn lemma_reencoded_text_valid(bytes: Seq<u8>, p: P3m)
    requires
        p3m_complete(bytes),
        p3m_text_valid(bytes),
        p3m_text_of(p, bytes),
        p3m_fits(p),
        p.mesh_vertices.len() == p.skin_vertices.len(),
    ensures
        p3m_text_valid(p3m_le(p)),
{
    lemma_p3m_layout(p);
    lemma_text_round_trip(bytes.subrange(0, 27), 27);
    lemma_text_round_trip(bytes.subrange(texture_pos(bytes), texture_pos(bytes) + 260), 260);
}

proof fn lemma_round_trip_text(bytes: Seq<u8>, p: P3m, q: P3m)
    requires
        p3m_complete(bytes),
        p3m_text_valid(bytes),
        p3m_text_of(p, bytes),
        p3m_fits(p),
        p.mesh_vertices.len() == p.skin_vertices.len(),
        p3m_text_of(q, p3m_le(p)),
    ensures
        p3m_text_valid(p3m_le(p)),
        q.version_header@ == p.version_header@,
        q.texture_name@ == p.texture_name@,
{
    lemma_p3m_layout(p);
    lemma_text_round_trip(bytes.subrange(0, 27), 27);
    lemma_text_round_trip(bytes.subrange(texture_pos(bytes), texture_pos(bytes) + 260), 260);
}

#[verifier::rlimit(40)]
proof fn lemma_round_trip_position_bones(bytes: Seq<u8>, p: P3m, q: P3m)
    requires
        p3m_complete(bytes),
        p3m_fits(p),
        p.mesh_vertices.len() == p.skin_vertices.len(),
        p3m_position_bones_of(p, bytes),
        p3m_position_bones_of(q, p3m_le(p)),
    ensures
        forall|i: int|
            0 <= i < p.position_bones.len() ==> (#[trigger] q.position_bones@[i]).position
                == p.position_bones@[i].position && q.position_bones@[i].children@
                == p.position_bones@[i].children@,
{
    let e = p3m_le(p);
    let np = p.position_bones.len();
    lemma_p3m_layout(p);
    assert forall|i: int| 0 <= i < np implies (#[trigger] q.position_bones@[i]).position
        == p.position_bones@[i].position && q.position_bones@[i].children@
        == p.position_bones@[i].children@ by {
        lemma_flatten_item(e, 29, p.position_bones@, position_bone_enc(), 24, i);
        lemma_kept_children_valid(bytes.subrange(29 + 24 * i, 29 + 24 * i + 24).subrange(12, 22));
        lemma_position_bone_round_trip(p.position_bones@[i], q.position_bones@[i]);
    }
}

#[verifier::rlimit(40)]
proof fn lemma_round_trip_angle_bones(bytes: Seq<u8>, p: P3m, q: P3m)
    requires
        p3m_complete(bytes),
        p3m_fits(p),
        p.mesh_vertices.len() == p.skin_vertices.len(),
        p3m_angle_bones_of(p, bytes),
        p3m_angle_bones_of(q, p3m_le(p)),
    ensures
        forall|i: int|
            0 <= i < p.angle_bones.len() ==> (#[trigger] q.angle_bones@[i]).position
                == p.angle_bones@[i].position && q.angle_bones@[i].scale
                == p.angle_bones@[i].scale && q.angle_bones@[i].children@
                == p.angle_bones@[i].children@,
{
    let e = p3m_le(p);
    let na = p.angle_bones.len();
    let a0 = 29 + 24 * p.position_bones.len();
    lemma_p3m_layout(p);
    assert forall|i: int| 0 <= i < na implies (#[trigger] q.angle_bones@[i]).position
        == p.angle_bones@[i].position && q.angle_bones@[i].scale == p.angle_bones@[i].scale
        && q.angle_bones@[i].children@ == p.angle_bones@[i].children@ by {
        lemma_flatten_item(e, a0, p.angle_bones@, angle_bone_enc(), 28, i);
        let b0 = angle_bones_pos(bytes);
        lemma_kept_children_valid(bytes.subrange(b0 + 28 * i, b0 + 28 * i + 28).subrange(16, 26));
        lemma_angle_bone_round_trip(p.angle_bones@[i], q.angle_bones@[i]);
    }
}

proof fn lemma_round_trip_faces(p: P3m, q: P3m)
    requires
        p3m_fits(p),
        p.mesh_vertices.len() == p.skin_vertices.len(),
        p3m_faces_of(q, p3m_le(p)),
    ensures
        q.faces.len() == p.faces.len(),
        forall|i: int| 0 <= i < p.faces.len() ==> (#[trigger] q.faces@[i])@ == p.faces@[i]@,
{
    let e = p3m_le(p);
    let np = p.position_bones.len();
    let na = p.angle_bones.len();
    let nv = p.skin_vertices.len();
    let nf = p.faces.len();
    let hd = p3m_head(p);
    let pb = flatten(p.position_bones@, position_bone_enc());
    let ab = flatten(p.angle_bones@, angle_bone_enc());
    let cn = p3m_counts(p);
    let tx = p3m_texture(p);
    let fc = flatten(p.faces@, face_enc());
    let sv = flatten(p.skin_vertices@, skin_vertex_enc());
    let mv = flatten(p.mesh_vertices@, mesh_vertex_enc());
    let a0 = 29 + 24 * np;
    let c0 = a0 + 28 * na;
    let f0 = c0 + 264;
    let s0 = f0 + 6 * nf;
    let m0 = s0 + 40 * nv;
    lemma_p3m_layout(p);
    assert forall|i: int| 0 <= i < nf implies (#[trigger] q.faces@[i])@ == p.faces@[i]@ by {
        lemma_flatten_item(e, f0, p.faces@, face_enc(), 6, i);
        lemma_face_round_trip(p.faces@[i]);
    }
}

proof fn lemma_round_trip_vertices(p: P3m, q: P3m)
    requires
        p3m_fits(p),
        p.mesh_vertices.len() == p.skin_vertices.len(),
        p3m_vertices_of(q, p3m_le(p)),
    ensures
        q.skin_vertices@ == p.skin_vertices@,
        q.mesh_vertices@ == p.mesh_vertices@,
{
    let e = p3m_le(p);
    let np = p.position_bones.len();
    let na = p.angle_bones.len();
    let nv = p.skin_vertices.len();
    let nf = p.faces.len();
    let hd = p3m_head(p);
    let pb = flatten(p.position_bones@, position_bone_enc());
    let ab = flatten(p.angle_bones@, angle_bone_enc());
    let cn = p3m_counts(p);
    let tx = p3m_texture(p);
    let fc = flatten(p.faces@, face_enc());
    let sv = flatten(p.skin_vertices@, skin_vertex_enc());
    let mv = flatten(p.mesh_vertices@, mesh_vertex_enc());
    let a0 = 29 + 24 * np;
    let c0 = a0 + 28 * na;
    let f0 = c0 + 264;
    let s0 = f0 + 6 * nf;
    let m0 = s0 + 40 * nv;
    lemma_p3m_layout(p);
    assert forall|i: int| 0 <= i < nv implies #[trigger] q.skin_vertices@[i]
        == p.skin_vertices@[i] by {
        lemma_flatten_item(e, s0, p.skin_vertices@, skin_vertex_enc(), 40, i);
        lemma_skin_vertex_round_trip(p.skin_vertices@[i]);
    }
    assert forall|i: int| 0 <= i < nv implies #[trigger] q.mesh_vertices@[i]
        == p.mesh_vertices@[i] by {
        lemma_flatten_item(e, m0, p.mesh_vertices@, mesh_vertex_enc(), 32, i);
        lemma_mesh_vertex_round_trip(p.mesh_vertices@[i]);
    }
    assert(q.skin_vertices@ =~= p.skin_vertices@);
    assert(q.mesh_vertices@ =~= p.mesh_vertices@);
}

/// A model decoded from bytes, encoded again, decodes again: the encoding is
/// complete and its text fields are UTF-8.
pub proof fn lemma_p3m_reencode_decodes(bytes: Seq<u8>, p: P3m)
    requires
        p3m_complete(bytes),
        p3m_text_valid(bytes),
        p3m_of(p, bytes),
    ensures
        p3m_fits(p),
        p3m_complete(p3m_le(p)),
        p3m_text_valid(p3m_le(p)),
{
    assert(p3m_fits(p));
    lemma_p3m_layout(p);
    lemma_reencoded_text_valid(bytes, p);
}

/// A model decoded from bytes, encoded again, decodes to the same bones,
/// faces, vertices and text.
#[verifier::rlimit(40)]
pub proof fn lemma_p3m_round_trip(bytes: Seq<u8>, p: P3m, q: P3m)
    requires
        p3m_complete(bytes),
        p3m_text_valid(bytes),
        p3m_of(p, bytes),
        p3m_of(q, p3m_le(p)),
    ensures
        p3m_fits(p),
        p3m_complete(p3m_le(p)),
        p3m_text_valid(p3m_le(p)),
        same_model(p, q),
{
    assert(p3m_fits(p));
    lemma_p3m_layout(p);
    lemma_round_trip_text(bytes, p, q);
    lemma_round_trip_position_bones(bytes, p, q);
    lemma_round_trip_angle_bones(bytes, p, q);
    lemma_round_trip_faces(p, q);
    lemma_round_trip_vertices(p, q);
}


// ---------------------------------------------------------------------------
// Byte for byte.

/// A text field holds zeros after its text.
pub open spec fn text_canonical(field: Seq<u8>) -> bool {
    field == padded(until_nul(field), field.len())
}

/// The occupied child slots come first, the empty ones after.
pub open spec fn slots_canonical(slots: Seq<u8>) -> bool {
    slots == child_slots(kept_children(slots))
}

/// A file in the form that encoding writes: exactly as long as its counts
/// call for, zeros after each text, children before empty slots, `FF FF`
/// padding after each bone, and each skin vertex's bone index followed by a
/// copy of it and two `FF` bytes.
pub open spec fn p3m_canonical(s: Seq<u8>) -> bool {
    let a0 = angle_bones_pos(s);
    let s0 = skin_vertices_pos(s);
    &&& s.len() == p3m_end(s)
    &&& text_canonical(s.subrange(0, 27))
    &&& text_canonical(s.subrange(texture_pos(s), texture_pos(s) + 260))
    &&& forall|i: int|
        0 <= i < s[27] ==> {
            &&& slots_canonical(#[trigger] s.subrange(29 + 24 * i + 12, 29 + 24 * i + 22))
            &&& s[29 + 24 * i + 22] == 255
            &&& s[29 + 24 * i + 23] == 255
        }
    &&& forall|i: int|
        0 <= i < s[28] ==> {
            &&& slots_canonical(#[trigger] s.subrange(a0 + 28 * i + 16, a0 + 28 * i + 26))
            &&& s[a0 + 28 * i + 26] == 255
            &&& s[a0 + 28 * i + 27] == 255
        }
    &&& forall|i: int|
        0 <= i < num_vertices(s) ==> {
            &&& #[trigger] s[s0 + 40 * i + 17] == s[s0 + 40 * i + 16]
            &&& s[s0 + 40 * i + 18] == 255
            &&& s[s0 + 40 * i + 19] == 255
        }
}

proof fn lemma_vec3_bytes(r: Seq<u8>, o: int)
    requires
        0 <= o,
        o + 12 <= r.len(),
    ensures
        vec3_le(vec3_at(r, o)) == r.subrange(o, o + 12),
{
    lemma_u32_bytes(r, o);
    lemma_u32_bytes(r, o + 4);
    lemma_u32_bytes(r, o + 8);
    assert(vec3_le(vec3_at(r, o)) =~= r.subrange(o, o + 12));
}

proof fn lemma_vec2_bytes(r: Seq<u8>, o: int)
    requires
        0 <= o,
        o + 8 <= r.len(),
    ensures
        vec2_le(vec2_at(r, o)) == r.subrange(o, o + 8),
{
    lemma_u32_bytes(r, o);
    lemma_u32_bytes(r, o + 4);
    assert(vec2_le(vec2_at(r, o)) =~= r.subrange(o, o + 8));
}

proof fn lemma_text_bytes(field: Seq<u8>, text: Seq<char>)
    requires
        text_canonical(field),
        valid_utf8(until_nul(field)),
        text == decode_utf8(until_nul(field)),
    ensures
        padded(encode_utf8(text), field.len()) == field,
{
    vstd::utf8::decode_utf8_encode_utf8(until_nul(field));
}

proof fn lemma_position_bone_bytes(b: PositionBone, r: Seq<u8>)
    requires
        r.len() == 24,
        position_bone_of(b, r),
        slots_canonical(r.subrange(12, 22)),
        r[22] == 255 && r[23] == 255,
    ensures
        position_bone_le(b) == r,
{
    lemma_vec3_bytes(r, 0);
    assert(position_bone_le(b) =~= r);
}

proof fn lemma_angle_bone_bytes(b: AngleBone, r: Seq<u8>)
    requires
        r.len() == 28,
        angle_bone_of(b, r),
        slots_canonical(r.subrange(16, 26)),
        r[26] == 255 && r[27] == 255,
    ensures
        angle_bone_le(b) == r,
{
    lemma_vec3_bytes(r, 0);
    lemma_u32_bytes(r, 12);
    assert(angle_bone_le(b) =~= r);
}

proof fn lemma_skin_vertex_bytes(r: Seq<u8>)
    requires
        r.len() == 40,
        r[17] == r[16],
        r[18] == 255 && r[19] == 255,
    ensures
        skin_vertex_le(skin_vertex_of(r)) == r,
{
    lemma_vec3_bytes(r, 0);
    lemma_u32_bytes(r, 12);
    lemma_vec3_bytes(r, 20);
    lemma_vec2_bytes(r, 32);
    assert(skin_vertex_le(skin_vertex_of(r)) =~= r);
}

proof fn lemma_mesh_vertex_bytes(r: Seq<u8>)
    requires
        r.len() == 32,
    ensures
        mesh_vertex_le(mesh_vertex_of(r)) == r,
{
    lemma_vec3_bytes(r, 0);
    lemma_vec3_bytes(r, 12);
    lemma_vec2_bytes(r, 24);
    assert(mesh_vertex_le(mesh_vertex_of(r)) =~= r);
}

proof fn lemma_face_bytes(f: [u16; 3], r: Seq<u8>)
    requires
        r.len() == 6,
        f@ == face_of(r),
    ensures
        face_le(f) == r,
{
    lemma_u16_bytes(r, 0);
    lemma_u16_bytes(r, 2);
    lemma_u16_bytes(r, 4);
    assert(face_le(f) =~= r);
}

proof fn lemma_bones_bytes(bytes: Seq<u8>, p: P3m)
    requires
        p3m_complete(bytes),
        p3m_canonical(bytes),
        p3m_of(p, bytes),
    ensures
        flatten(p.position_bones@, position_bone_enc()) == bytes.subrange(29, angle_bones_pos(bytes)),
        flatten(p.angle_bones@, angle_bone_enc()) == bytes.subrange(
            angle_bones_pos(bytes),
            counts_pos(bytes),
        ),
{
    let a0 = angle_bones_pos(bytes);
    let c0 = counts_pos(bytes);
    let pb = bytes.subrange(29, a0);
    assert forall|i: int| 0 <= i < p.position_bones.len() implies #[trigger] position_bone_enc()(
        p.position_bones@[i],
    ) == pb.subrange(24 * i, 24 * i + 24) by {
        let o = 29 + 24 * i;
        let r = bytes.subrange(o, o + 24);
        assert(pb.subrange(24 * i, 24 * i + 24) =~= r);
        assert(r.subrange(12, 22) =~= bytes.subrange(o + 12, o + 22));
        lemma_position_bone_bytes(p.position_bones@[i], r);
    }
    lemma_flatten_chunks(p.position_bones@, position_bone_enc(), 24, pb);
    let ab = bytes.subrange(a0, c0);
    assert forall|i: int| 0 <= i < p.angle_bones.len() implies #[trigger] angle_bone_enc()(
        p.angle_bones@[i],
    ) == ab.subrange(28 * i, 28 * i + 28) by {
        let o = a0 + 28 * i;
        let r = bytes.subrange(o, o + 28);
        assert(ab.subrange(28 * i, 28 * i + 28) =~= r);
        assert(r.subrange(16, 26) =~= bytes.subrange(o + 16, o + 26));
        lemma_angle_bone_bytes(p.angle_bones@[i], r);
    }
    lemma_flatten_chunks(p.angle_bones@, angle_bone_enc(), 28, ab);
}

proof fn lemma_records_bytes(bytes: Seq<u8>, p: P3m)
    requires
        p3m_complete(bytes),
        p3m_canonical(bytes),
        p3m_of(p, bytes),
    ensures
        flatten(p.faces@, face_enc()) == bytes.subrange(faces_pos(bytes), skin_vertices_pos(bytes)),
        flatten(p.skin_vertices@, skin_vertex_enc()) == bytes.subrange(
            skin_vertices_pos(bytes),
            mesh_vertices_pos(bytes),
        ),
        flatten(p.mesh_vertices@, mesh_vertex_enc()) == bytes.subrange(
            mesh_vertices_pos(bytes),
            p3m_end(bytes),
        ),
{
    let f0 = faces_pos(bytes);
    let s0 = skin_vertices_pos(bytes);
    let m0 = mesh_vertices_pos(bytes);
    let fc = bytes.subrange(f0, s0);
    assert forall|i: int| 0 <= i < p.faces.len() implies #[trigger] face_enc()(p.faces@[i])
        == fc.subrange(6 * i, 6 * i + 6) by {
        assert(fc.subrange(6 * i, 6 * i + 6) =~= bytes.subrange(f0 + 6 * i, f0 + 6 * i + 6));
        lemma_face_bytes(p.faces@[i], bytes.subrange(f0 + 6 * i, f0 + 6 * i + 6));
    }
    lemma_flatten_chunks(p.faces@, face_enc(), 6, fc);
    let sv = bytes.subrange(s0, m0);
    assert forall|i: int| 0 <= i < p.skin_vertices.len() implies #[trigger] skin_vertex_enc()(
        p.skin_vertices@[i],
    ) == sv.subrange(40 * i, 40 * i + 40) by {
        let r = bytes.subrange(s0 + 40 * i, s0 + 40 * i + 40);
        assert(sv.subrange(40 * i, 40 * i + 40) =~= r);
        assert(bytes[s0 + 40 * i + 17] == bytes[s0 + 40 * i + 16]);
        lemma_skin_vertex_bytes(r);
    }
    lemma_flatten_chunks(p.skin_vertices@, skin_vertex_enc(), 40, sv);
    let mv = bytes.subrange(m0, p3m_end(bytes));
    assert forall|i: int| 0 <= i < p.mesh_vertices.len() implies #[trigger] mesh_vertex_enc()(
        p.mesh_vertices@[i],
    ) == mv.subrange(32 * i, 32 * i + 32) by {
        let r = bytes.subrange(m0 + 32 * i, m0 + 32 * i + 32);
        assert(mv.subrange(32 * i, 32 * i + 32) =~= r);
        lemma_mesh_vertex_bytes(r);
    }
    lemma_flatten_chunks(p.mesh_vertices@, mesh_vertex_enc(), 32, mv);
}

proof fn lemma_head_bytes(bytes: Seq<u8>, p: P3m)
    requires
        p3m_complete(bytes),
        p3m_text_valid(bytes),
        p3m_canonical(bytes),
        p3m_of(p, bytes),
    ensures
        p3m_head(p) == bytes.subrange(0, 29),
        p3m_counts(p) == bytes.subrange(counts_pos(bytes), counts_pos(bytes) + 4),
        p3m_texture(p) == bytes.subrange(texture_pos(bytes), texture_pos(bytes) + 260),
{
    let t0 = texture_pos(bytes);
    let c0 = counts_pos(bytes);
    lemma_text_bytes(bytes.subrange(0, 27), p.version_header@);
    lemma_text_bytes(bytes.subrange(t0, t0 + 260), p.texture_name@);
    lemma_u16_bytes(bytes, c0);
    lemma_u16_bytes(bytes, c0 + 2);
    assert(p3m_head(p) =~= bytes.subrange(0, 29));
    assert(p3m_counts(p) =~= bytes.subrange(c0, c0 + 4));
}

proof fn lemma_assemble(bytes: Seq<u8>, p: P3m, a0: int, c0: int, f0: int, s0: int, m0: int)
    requires
        29 <= a0 <= c0,
        f0 == c0 + 264,
        f0 <= s0 <= m0 <= bytes.len(),
        p3m_head(p) == bytes.subrange(0, 29),
        flatten(p.position_bones@, position_bone_enc()) == bytes.subrange(29, a0),
        flatten(p.angle_bones@, angle_bone_enc()) == bytes.subrange(a0, c0),
        p3m_counts(p) == bytes.subrange(c0, c0 + 4),
        p3m_texture(p) == bytes.subrange(c0 + 4, f0),
        flatten(p.faces@, face_enc()) == bytes.subrange(f0, s0),
        flatten(p.skin_vertices@, skin_vertex_enc()) == bytes.subrange(s0, m0),
        flatten(p.mesh_vertices@, mesh_vertex_enc()) == bytes.subrange(m0, bytes.len() as int),
    ensures
        p3m_le(p) == bytes,
{
    reveal(p3m_le);
    let end = bytes.len() as int;
    lemma_join(bytes, 0, 29, a0);
    lemma_join(bytes, 0, a0, c0);
    lemma_join(bytes, 0, c0, c0 + 4);
    lemma_join(bytes, 0, c0 + 4, f0);
    lemma_join(bytes, 0, f0, s0);
    lemma_join(bytes, 0, s0, m0);
    lemma_join(bytes, 0, m0, end);
    assert(bytes.subrange(0, end) =~= bytes);
}

/// A file in canonical form is encoded again byte for byte.
pub proof fn lemma_p3m_canonical_reencode(bytes: Seq<u8>, p: P3m)
    requires
        p3m_complete(bytes),
        p3m_text_valid(bytes),
        p3m_canonical(bytes),
        p3m_of(p, bytes),
    ensures
        p3m_le(p) == bytes,
{
    lemma_head_bytes(bytes, p);
    lemma_bones_bytes(bytes, p);
    lemma_records_bytes(bytes, p);
    lemma_assemble(
        bytes,
        p,
        angle_bones_pos(bytes),
        counts_pos(bytes),
        faces_pos(bytes),
        skin_vertices_pos(bytes),
        mesh_vertices_pos(bytes),
    );
}

proof fn lemma_join(s: Seq<u8>, a: int, b: int, c: int)
    requires
        0 <= a <= b <= c <= s.len(),
    ensures
        s.subrange(a, b) + s.subrange(b, c) == s.subrange(a, c),
{
    assert(s.subrange(a, b) + s.subrange(b, c) =~= s.subrange(a, c));
}

} // verus!
