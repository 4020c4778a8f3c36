//! The glTF document that a scene is exported to, and the binary buffer that
//! its accessors read from. Turning the document into JSON is left to the
//! caller; the binary container that wraps both is built by [`glb`].
//!
//! [`glb`]: crate::glb

use vstd::prelude::*;
use vstd::string::StringExecFns;

use crate::geometry::{
    matrix_rotation, normalize_or_zero, normalized, rotation_of, time_of_frame, frame_time, vec2_le,
    vec3_le, write_vec2, write_vec3, Vec3,
};
use crate::le::{flatten, lemma_flatten_push, u16_le, u32_le, write_u16, write_u32};
use crate::skeleton::roots;
use crate::scene::{parents_valid, skeleton_world_translation, world_translation, Animation, Joint, Mesh, Scene, Vertex, SAMPLING_RATE};
use crate::transform::{scene_flipped, transform};

verus! {

/// The bits of `1.0`.
pub const ONE: u32 = 0x3f80_0000;

/// The type of an accessor's components.
#[derive(Clone, Copy, Debug, PartialEq, Eq, Structural)]
pub enum ComponentType {
    U8,
    U16,
    F32,
}

/// The shape of an accessor's elements.
#[derive(Clone, Copy, Debug, PartialEq, Eq, Structural)]
pub enum AccessorKind {
    Scalar,
    Vec2,
    Vec3,
    Vec4,
    Mat4,
}

/// A typed view of a range of the buffer.
#[derive(Clone, Debug, PartialEq)]
pub struct Accessor {
    pub buffer_view: usize,
    pub count: usize,
    pub component_type: ComponentType,
    pub kind: AccessorKind,
    /// Per component, when given; single-precision bits.
    pub min: Vec<u32>,
    pub max: Vec<u32>,
}

/// A range of the buffer.
#[derive(Clone, Copy, Debug, PartialEq, Eq, Structural)]
pub struct BufferView {
    pub byte_offset: usize,
    pub byte_length: usize,
}

/// What a node is called.
#[derive(Clone, Debug, PartialEq)]
pub enum NodeName {
    /// The joint of this index: `bone_<index>`.
    Bone(usize),
    /// The node holding the skeleton's roots: `skeleton`.
    Skeleton,
    /// The node of the mesh of this name: `mesh_<name>`.
    Mesh(String),
}

/// The decimal digits of `n`.
pub open spec fn decimal(n: nat) -> Seq<char>
    decreases n,
{
    if n < 10 {
        seq![digit_char(n)]
    } else {
        decimal(n / 10) + seq![digit_char(n % 10)]
    }
}

pub open spec fn digit_char(d: nat) -> char {
    if d == 0 { '0' } else if d == 1 { '1' } else if d == 2 { '2' } else if d == 3 { '3' }
    else if d == 4 { '4' } else if d == 5 { '5' } else if d == 6 { '6' } else if d == 7 { '7' }
    else if d == 8 { '8' } else { '9' }
}

fn digit_text(d: usize) -> (r: &'static str)
    requires
        d < 10,
    ensures
        r@ == seq![digit_char(d as nat)],
{
    proof {
        reveal_strlit("0");
        reveal_strlit("1");
        reveal_strlit("2");
        reveal_strlit("3");
        reveal_strlit("4");
        reveal_strlit("5");
        reveal_strlit("6");
        reveal_strlit("7");
        reveal_strlit("8");
        reveal_strlit("9");
    }
    if d == 0 { "0" } else if d == 1 { "1" } else if d == 2 { "2" } else if d == 3 { "3" }
    else if d == 4 { "4" } else if d == 5 { "5" } else if d == 6 { "6" } else if d == 7 { "7" }
    else if d == 8 { "8" } else { "9" }
}

fn decimal_text(n: usize) -> (r: String)
    ensures
        r@ == decimal(n as nat),
    decreases n,
{
    if n < 10 {
        String::from_str(digit_text(n))
    } else {
        decimal_text(n / 10).concat(digit_text(n % 10))
    }
}

/// The text of a node's name.
pub open spec fn name_text(name: NodeName) -> Seq<char> {
    match name {
        NodeName::Bone(i) => "bone_"@ + decimal(i as nat),
        NodeName::Skeleton => "skeleton"@,
        NodeName::Mesh(s) => "mesh_"@ + s@,
    }
}

impl NodeName {
    /// The name as the document spells it.
    pub fn text(&self) -> (r: String)
        ensures
            r@ == name_text(*self),
    {
        match self {
            NodeName::Bone(i) => String::from_str("bone_").concat(decimal_text(*i).as_str()),
            NodeName::Skeleton => String::from_str("skeleton"),
            NodeName::Mesh(s) => String::from_str("mesh_").concat(s.as_str()),
        }
    }
}

#[derive(Clone, Debug, PartialEq)]
pub struct Node {
    pub name: NodeName,
    pub children: Vec<usize>,
    pub translation: Option<Vec3>,
    pub mesh: Option<usize>,
    pub skin: Option<usize>,
}

/// A mesh of one triangle primitive, by the accessors of its attributes.
#[derive(Clone, Debug, PartialEq)]
pub struct MeshEntry {
    pub name: String,
    pub positions: usize,
    pub normals: usize,
    pub uvs: usize,
    pub joints: usize,
    pub weights: usize,
    pub indices: usize,
}

#[derive(Clone, Debug, PartialEq)]
pub struct Skin {
    pub inverse_bind_matrices: usize,
    pub joints: Vec<usize>,
    pub skeleton: usize,
}

/// What a channel animates.
#[derive(Clone, Copy, Debug, PartialEq, Eq, Structural)]
pub enum Property {
    Translation,
    Rotation,
}

/// Keyframes with linear interpolation: times, then values.
#[derive(Clone, Copy, Debug, PartialEq, Eq, Structural)]
pub struct Sampler {
    pub input: usize,
    pub output: usize,
}

#[derive(Clone, Copy, Debug, PartialEq, Eq, Structural)]
pub struct Channel {
    pub sampler: usize,
    pub node: usize,
    pub property: Property,
}

#[derive(Clone, Debug, PartialEq)]
pub struct AnimationEntry {
    pub name: String,
    pub samplers: Vec<Sampler>,
    pub channels: Vec<Channel>,
}

/// Accessors, their views, and the one buffer they read from.
#[derive(Clone, Debug, PartialEq)]
pub struct Binary {
    pub accessors: Vec<Accessor>,
    pub buffer_views: Vec<BufferView>,
    pub buffer: Vec<u8>,
}

/// A glTF document with one scene.
#[derive(Clone, Debug, PartialEq)]
pub struct GltfDocument {
    pub nodes: Vec<Node>,
    /// The nodes of the scene.
    pub scene_nodes: Vec<usize>,
    pub meshes: Vec<MeshEntry>,
    pub skins: Vec<Skin>,
    pub animations: Vec<AnimationEntry>,
    pub binary: Binary,
}

pub open spec fn component_size(c: ComponentType) -> int {
    match c {
        ComponentType::U8 => 1,
        ComponentType::U16 => 2,
        ComponentType::F32 => 4,
    }
}

/// The zero bytes that bring `len` to a multiple of `n`.
pub open spec fn padding(len: int, n: int) -> int {
    (n - len % n) % n
}

/// Accessor `a` exists, its view starts at a multiple of its component size,
/// and the bytes of the view are `bytes`.
pub open spec fn holds(b: Binary, a: int, bytes: Seq<u8>) -> bool {
    &&& 0 <= a < b.accessors.len()
    &&& b.accessors@[a].buffer_view < b.buffer_views.len()
    &&& {
        let v = b.buffer_views@[b.accessors@[a].buffer_view as int];
        &&& (v.byte_offset as int) % component_size(b.accessors@[a].component_type) == 0
        &&& v.byte_offset + v.byte_length <= b.buffer.len()
        &&& b.buffer@.subrange(v.byte_offset as int, v.byte_offset + v.byte_length) == bytes
    }
}

/// `c` is `b` with more accessors, views and bytes after the old ones.
pub open spec fn extends(b: Binary, c: Binary) -> bool {
    &&& b.accessors.len() <= c.accessors.len()
    &&& forall|a: int| 0 <= a < b.accessors.len() ==> #[trigger] c.accessors@[a] == b.accessors@[a]
    &&& b.buffer_views.len() <= c.buffer_views.len()
    &&& forall|v: int|
        0 <= v < b.buffer_views.len() ==> #[trigger] c.buffer_views@[v] == b.buffer_views@[v]
    &&& b.buffer.len() <= c.buffer.len()
    &&& c.buffer@.subrange(0, b.buffer.len() as int) == b.buffer@
}

pub proof fn lemma_holds_extends(b: Binary, c: Binary, a: int, bytes: Seq<u8>)
    requires
        holds(b, a, bytes),
        extends(b, c),
    ensures
        holds(c, a, bytes),
{
    let v = b.buffer_views@[b.accessors@[a].buffer_view as int];
    assert(c.accessors@[a] == b.accessors@[a]);
    assert(c.buffer_views@[b.accessors@[a].buffer_view as int] == v);
    assert(c.buffer@.subrange(v.byte_offset as int, v.byte_offset + v.byte_length) =~= b.buffer@.subrange(
        v.byte_offset as int,
        v.byte_offset + v.byte_length,
    ));
}

pub proof fn lemma_extends_refl(b: Binary)
    ensures
        extends(b, b),
{
    assert(b.buffer@.subrange(0, b.buffer.len() as int) =~= b.buffer@);
}

pub proof fn lemma_extends_trans(a: Binary, b: Binary, c: Binary)
    requires
        extends(a, b),
        extends(b, c),
    ensures
        extends(a, c),
{
    assert(c.buffer@.subrange(0, a.buffer.len() as int) =~= b.buffer@.subrange(0, a.buffer.len() as int));
}

/// Pads `buffer` with zeros to a multiple of `n`.
pub fn align_to(buffer: &mut Vec<u8>, n: usize)
    requires
        n > 0,
    ensures
        final(buffer)@ == old(buffer)@ + Seq::new(padding(old(buffer)@.len() as int, n as int) as nat, |i: int| 0u8),
        (final(buffer)@.len() as int) % (n as int) == 0,
{
    let pad = (n - buffer.len() % n) % n;
    let ghost start = buffer@;
    let mut k: usize = 0;
    while k < pad
        invariant
            k <= pad,
            buffer@ == start + Seq::new(k as nat, |i: int| 0u8),
        decreases pad - k,
    {
        buffer.push(0);
        k = k + 1;
        assert(buffer@ =~= start + Seq::new(k as nat, |i: int| 0u8));
    }
    let ghost len = start.len() as int;
    let ghost m = n as int;
    assert((len + (m - len % m) % m) % m == 0) by (nonlinear_arith)
        requires
            m > 0,
            len >= 0,
    ;
}

/// Appends `data` at the next multiple of the component size, with a view and
/// an accessor over it; returns the accessor's index.
pub fn push_accessor(
    b: &mut Binary,
    data: Vec<u8>,
    count: usize,
    component_type: ComponentType,
    kind: AccessorKind,
    min: Vec<u32>,
    max: Vec<u32>,
) -> (r: usize)
    ensures
        r == old(b).accessors.len(),
        final(b).accessors.len() == r + 1,
        final(b).buffer_views.len() == old(b).buffer_views.len() + 1,
        extends(*old(b), *final(b)),
        holds(*final(b), r as int, data@),
        final(b).accessors@[r as int].count == count,
        final(b).accessors@[r as int].component_type == component_type,
        final(b).accessors@[r as int].kind == kind,
        final(b).accessors@[r as int].min@ == min@,
        final(b).accessors@[r as int].max@ == max@,
        final(b).buffer.len() == old(b).buffer.len() + padding(
            old(b).buffer.len() as int,
            component_size(component_type),
        ) + data@.len(),
{
    let ghost before = *b;
    let n: usize = match component_type {
        ComponentType::U8 => 1,
        ComponentType::U16 => 2,
        ComponentType::F32 => 4,
    };
    align_to(&mut b.buffer, n);
    let offset = b.buffer.len();
    let mut data = data;
    let length = data.len();
    let ghost bytes = data@;
    b.buffer.append(&mut data);
    let view = b.buffer_views.len();
    b.buffer_views.push(BufferView { byte_offset: offset, byte_length: length });
    let r = b.accessors.len();
    b.accessors.push(Accessor { buffer_view: view, count, component_type, kind, min, max });
    assert(b.buffer@.subrange(offset as int, offset + length) =~= bytes);
    assert(b.buffer@.subrange(0, before.buffer.len() as int) =~= before.buffer@);
    r
}


// ---------------------------------------------------------------------------
// The bytes of each accessor.

/// The vertex attributes of a mesh primitive.
#[derive(Clone, Copy, Debug, PartialEq, Eq, Structural)]
pub enum Attribute {
    Position,
    Normal,
    Uv,
    Joint,
    Weight,
}

/// The bytes of one vertex's attribute. Normals are written at unit length;
/// the joint is one byte out of four, its weight one float out of four.
pub open spec fn attribute_le(attribute: Attribute, v: Vertex) -> Seq<u8> {
    match attribute {
        Attribute::Position => vec3_le(v.position),
        Attribute::Normal => vec3_le(normalized(v.normal)),
        Attribute::Uv => vec2_le(v.uv),
        Attribute::Joint => seq![
            match v.joint {
                Some(j) => j as u8,
                None => 0u8,
            },
            0u8,
            0u8,
            0u8,
        ],
        Attribute::Weight => u32_le(
            if v.joint is Some {
                ONE
            } else {
                0
            },
        ) + u32_le(0) + u32_le(0) + u32_le(0),
    }
}

pub open spec fn attribute_enc(attribute: Attribute) -> spec_fn(Vertex) -> Seq<u8> {
    |v: Vertex| attribute_le(attribute, v)
}

pub open spec fn index_enc() -> spec_fn(usize) -> Seq<u8> {
    |i: usize| u16_le(i as u16)
}

pub open spec fn bits_enc() -> spec_fn(u32) -> Seq<u8> {
    |v: u32| u32_le(v)
}

/// The column-major matrix that moves a point by `-w`.
pub open spec fn inverse_bind_matrix(w: Vec3) -> Seq<u32> {
    seq![
        ONE,
        0u32,
        0u32,
        0u32,
        0u32,
        ONE,
        0u32,
        0u32,
        0u32,
        0u32,
        ONE,
        0u32,
        crate::geometry::neg_bits(w.x),
        crate::geometry::neg_bits(w.y),
        crate::geometry::neg_bits(w.z),
        ONE,
    ]
}

/// The inverse bind matrices of the first `k` joints.
pub open spec fn inverse_binds_le(skeleton: Seq<Joint>, k: int) -> Seq<u8>
    decreases k,
{
    if k <= 0 {
        seq![]
    } else {
        inverse_binds_le(skeleton, k - 1) + flatten(
            inverse_bind_matrix(world_translation(skeleton, k - 1)),
            bits_enc(),
        )
    }
}

/// The times of the first `k` frames.
pub open spec fn times_le(k: int) -> Seq<u8>
    decreases k,
{
    if k <= 0 {
        seq![]
    } else {
        times_le(k - 1) + u32_le(frame_time((k - 1) as u32, 55))
    }
}

pub open spec fn translation_enc() -> spec_fn(crate::scene::Keyframe) -> Seq<u8> {
    |f: crate::scene::Keyframe| vec3_le(f.translation)
}

pub open spec fn rotation_enc(j: int) -> spec_fn(crate::scene::Keyframe) -> Seq<u8> {
    |f: crate::scene::Keyframe| flatten(rotation_of(f.transforms@[j]@), bits_enc())
}

/// The order of single-precision values, read off their bits: by magnitude,
/// negated when the sign is set, so that both zeros compare equal.
pub open spec fn float_key(v: u32) -> int {
    let magnitude = (v & 0x7fff_ffffu32) as int;
    if v & 0x8000_0000u32 != 0 {
        -magnitude
    } else {
        magnitude
    }
}

/// The first of the smallest values; zero when there are none.
pub open spec fn first_min(s: Seq<u32>) -> u32
    decreases s.len(),
{
    if s.len() == 0 {
        0
    } else if s.len() == 1 {
        s[0]
    } else {
        let m = first_min(s.drop_last());
        if float_key(s.last()) < float_key(m) {
            s.last()
        } else {
            m
        }
    }
}

/// The last of the largest values; zero when there are none.
pub open spec fn last_max(s: Seq<u32>) -> u32
    decreases s.len(),
{
    if s.len() == 0 {
        0
    } else if s.len() == 1 {
        s[0]
    } else {
        let m = last_max(s.drop_last());
        if float_key(s.last()) >= float_key(m) {
            s.last()
        } else {
            m
        }
    }
}

fn key_of(v: u32) -> (r: i64)
    ensures
        r == float_key(v),
{
    let magnitude = (v & 0x7fff_ffffu32) as i64;
    if v & 0x8000_0000u32 != 0 {
        -magnitude
    } else {
        magnitude
    }
}

/// The smallest and largest of `values`, as `Iterator::min_by` and `max_by`
/// choose them: the first of equal smallest, the last of equal largest. A NaN
/// is ordered by its bits, like the number of the same magnitude.
fn bounds(values: &Vec<u32>) -> (r: (u32, u32))
    ensures
        r.0 == first_min(values@),
        r.1 == last_max(values@),
{
    if values.len() == 0 {
        return (0, 0);
    }
    let mut lo = values[0];
    let mut hi = values[0];
    let mut k: usize = 1;
    assert(values@.take(1).drop_last() =~= seq![]);
    while k < values.len()
        invariant
            1 <= k <= values@.len(),
            lo == first_min(values@.take(k as int)),
            hi == last_max(values@.take(k as int)),
        decreases values.len() - k,
    {
        let v = values[k];
        assert(values@.take(k + 1).drop_last() =~= values@.take(k as int));
        if key_of(v) < key_of(lo) {
            lo = v;
        }
        if key_of(v) >= key_of(hi) {
            hi = v;
        }
        k = k + 1;
    }
    assert(values@.take(k as int) =~= values@);
    (lo, hi)
}

pub open spec fn component_values(vs: Seq<Vertex>, axis: int) -> Seq<u32> {
    vs.map_values(
        |v: Vertex|
            if axis == 0 {
                v.position.x
            } else if axis == 1 {
                v.position.y
            } else {
                v.position.z
            },
    )
}

fn position_bounds(vertices: &Vec<Vertex>) -> (r: (Vec<u32>, Vec<u32>))
    ensures
        r.0@ == seq![
            first_min(component_values(vertices@, 0)),
            first_min(component_values(vertices@, 1)),
            first_min(component_values(vertices@, 2)),
        ],
        r.1@ == seq![
            last_max(component_values(vertices@, 0)),
            last_max(component_values(vertices@, 1)),
            last_max(component_values(vertices@, 2)),
        ],
{
    let mut lo: Vec<u32> = Vec::new();
    let mut hi: Vec<u32> = Vec::new();
    let mut axis: usize = 0;
    while axis < 3
        invariant
            axis <= 3,
            lo@.len() == axis,
            hi@.len() == axis,
            forall|a: int| 0 <= a < axis ==> lo@[a] == first_min(component_values(vertices@, a)),
            forall|a: int| 0 <= a < axis ==> hi@[a] == last_max(component_values(vertices@, a)),
        decreases 3 - axis,
    {
        let mut values: Vec<u32> = Vec::new();
        let mut k: usize = 0;
        while k < vertices.len()
            invariant
                k <= vertices@.len(),
                values@ == component_values(vertices@, axis as int).take(k as int),
            decreases vertices.len() - k,
        {
            let p = vertices[k].position;
            values.push(
                if axis == 0 {
                    p.x
                } else if axis == 1 {
                    p.y
                } else {
                    p.z
                },
            );
            k = k + 1;
            assert(values@ =~= component_values(vertices@, axis as int).take(k as int));
        }
        assert(component_values(vertices@, axis as int).take(k as int) =~= component_values(
            vertices@,
            axis as int,
        ));
        let (l, h) = bounds(&values);
        lo.push(l);
        hi.push(h);
        axis = axis + 1;
    }
    assert(lo@ =~= seq![
        first_min(component_values(vertices@, 0)),
        first_min(component_values(vertices@, 1)),
        first_min(component_values(vertices@, 2)),
    ]);
    assert(hi@ =~= seq![
        last_max(component_values(vertices@, 0)),
        last_max(component_values(vertices@, 1)),
        last_max(component_values(vertices@, 2)),
    ]);
    (lo, hi)
}

fn attribute_bytes(vertices: &Vec<Vertex>, attribute: Attribute) -> (r: Vec<u8>)
    ensures
        r@ == flatten(vertices@, attribute_enc(attribute)),
{
    let mut out: Vec<u8> = Vec::new();
    let mut k: usize = 0;
    while k < vertices.len()
        invariant
            k <= vertices@.len(),
            out@ == flatten(vertices@.take(k as int), attribute_enc(attribute)),
        decreases vertices.len() - k,
    {
        let v = vertices[k];
        let ghost start = out@;
        match attribute {
            Attribute::Position => write_vec3(&mut out, v.position),
            Attribute::Normal => write_vec3(&mut out, normalize_or_zero(v.normal)),
            Attribute::Uv => write_vec2(&mut out, v.uv),
            Attribute::Joint => {
                let j: u8 = match v.joint {
                    Some(j) => j as u8,
                    None => 0,
                };
                out.push(j);
                out.push(0);
                out.push(0);
                out.push(0);
            },
            Attribute::Weight => {
                write_u32(
                    &mut out,
                    if v.joint.is_some() {
                        ONE
                    } else {
                        0
                    },
                );
                write_u32(&mut out, 0);
                write_u32(&mut out, 0);
                write_u32(&mut out, 0);
            },
        }
        assert(out@ =~= start + attribute_le(attribute, v));
        proof {
            lemma_flatten_push(vertices@, attribute_enc(attribute), k as int);
        }
        k = k + 1;
    }
    assert(vertices@.take(k as int) =~= vertices@);
    out
}

fn index_bytes(indices: &Vec<usize>) -> (r: Vec<u8>)
    ensures
        r@ == flatten(indices@, index_enc()),
{
    let mut out: Vec<u8> = Vec::new();
    let mut k: usize = 0;
    while k < indices.len()
        invariant
            k <= indices@.len(),
            out@ == flatten(indices@.take(k as int), index_enc()),
        decreases indices.len() - k,
    {
        write_u16(&mut out, indices[k] as u16);
        proof {
            lemma_flatten_push(indices@, index_enc(), k as int);
        }
        k = k + 1;
    }
    assert(indices@.take(k as int) =~= indices@);
    out
}

fn write_bits(out: &mut Vec<u8>, values: &Vec<u32>)
    ensures
        final(out)@ == old(out)@ + flatten(values@, bits_enc()),
{
    let ghost start = out@;
    let mut k: usize = 0;
    while k < values.len()
        invariant
            k <= values@.len(),
            out@ == start + flatten(values@.take(k as int), bits_enc()),
        decreases values.len() - k,
    {
        write_u32(out, values[k]);
        proof {
            lemma_flatten_push(values@, bits_enc(), k as int);
        }
        k = k + 1;
    }
    assert(values@.take(k as int) =~= values@);
}

fn inverse_bind_bytes(skeleton: &Vec<Joint>) -> (r: Vec<u8>)
    requires
        parents_valid(skeleton@),
    ensures
        r@ == inverse_binds_le(skeleton@, skeleton@.len() as int),
{
    let mut out: Vec<u8> = Vec::new();
    let mut i: usize = 0;
    while i < skeleton.len()
        invariant
            parents_valid(skeleton@),
            i <= skeleton@.len(),
            out@ == inverse_binds_le(skeleton@, i as int),
        decreases skeleton.len() - i,
    {
        let w = skeleton_world_translation(skeleton, i);
        let n = crate::geometry::negate(w);
        let m: Vec<u32> = vec![ONE, 0, 0, 0, 0, ONE, 0, 0, 0, 0, ONE, 0, n.x, n.y, n.z, ONE];
        assert(m@ =~= inverse_bind_matrix(w));
        write_bits(&mut out, &m);
        i = i + 1;
    }
    out
}

fn time_bytes(num_frames: usize) -> (r: Vec<u8>)
    requires
        num_frames <= u32::MAX,
    ensures
        r@ == times_le(num_frames as int),
{
    let mut out: Vec<u8> = Vec::new();
    let mut i: usize = 0;
    while i < num_frames
        invariant
            num_frames <= u32::MAX,
            i <= num_frames,
            out@ == times_le(i as int),
        decreases num_frames - i,
    {
        write_u32(&mut out, time_of_frame(i as u32, SAMPLING_RATE));
        i = i + 1;
    }
    out
}

fn translation_bytes(animation: &Animation) -> (r: Vec<u8>)
    ensures
        r@ == flatten(animation.frames@, translation_enc()),
{
    let mut out: Vec<u8> = Vec::new();
    let mut k: usize = 0;
    while k < animation.frames.len()
        invariant
            k <= animation.frames@.len(),
            out@ == flatten(animation.frames@.take(k as int), translation_enc()),
        decreases animation.frames.len() - k,
    {
        write_vec3(&mut out, animation.frames[k].translation);
        proof {
            lemma_flatten_push(animation.frames@, translation_enc(), k as int);
        }
        k = k + 1;
    }
    assert(animation.frames@.take(k as int) =~= animation.frames@);
    out
}

/// `k` has at least `tracks` transforms, each of 16 components.
pub open spec fn frame_has_tracks(k: crate::scene::Keyframe, tracks: int) -> bool {
    &&& tracks <= k.transforms.len()
    &&& forall|j: int| 0 <= j < tracks ==> (#[trigger] k.transforms@[j])@.len() == 16
}

/// Every frame of `a` has at least `tracks` transforms of 16 components.
pub open spec fn frames_have_tracks(a: Animation, tracks: int) -> bool {
    forall|f: int| 0 <= f < a.frames.len() ==> frame_has_tracks(#[trigger] a.frames@[f], tracks)
}

fn rotation_bytes(animation: &Animation, j: usize, tracks: usize) -> (r: Vec<u8>)
    requires
        j < tracks,
        frames_have_tracks(*animation, tracks as int),
    ensures
        r@ == flatten(animation.frames@, rotation_enc(j as int)),
{
    let mut out: Vec<u8> = Vec::new();
    let mut k: usize = 0;
    while k < animation.frames.len()
        invariant
            j < tracks,
            frames_have_tracks(*animation, tracks as int),
            k <= animation.frames@.len(),
            out@ == flatten(animation.frames@.take(k as int), rotation_enc(j as int)),
        decreases animation.frames.len() - k,
    {
        assert(animation.frames@[k as int].transforms@[j as int]@.len() == 16);
        let q = matrix_rotation(&animation.frames[k].transforms[j]);
        write_bits(&mut out, &q);
        proof {
            lemma_flatten_push(animation.frames@, rotation_enc(j as int), k as int);
        }
        k = k + 1;
    }
    assert(animation.frames@.take(k as int) =~= animation.frames@);
    out
}


// ---------------------------------------------------------------------------
// The document.

pub open spec fn accessor_is(b: Binary, a: int, count: int, c: ComponentType, k: AccessorKind) -> bool {
    &&& 0 <= a < b.accessors.len()
    &&& b.accessors@[a].count == count
    &&& b.accessors@[a].component_type == c
    &&& b.accessors@[a].kind == k
}

/// The accessors of `e` hold the attributes and indices of `m`.
pub open spec fn mesh_holds(b: Binary, e: MeshEntry, m: Mesh) -> bool {
    let nv = m.vertices.len() as int;
    &&& e.name@ == m.name@
    &&& holds(b, e.positions as int, flatten(m.vertices@, attribute_enc(Attribute::Position)))
    &&& accessor_is(b, e.positions as int, nv, ComponentType::F32, AccessorKind::Vec3)
    &&& b.accessors@[e.positions as int].min@ == seq![
        first_min(component_values(m.vertices@, 0)),
        first_min(component_values(m.vertices@, 1)),
        first_min(component_values(m.vertices@, 2)),
    ]
    &&& b.accessors@[e.positions as int].max@ == seq![
        last_max(component_values(m.vertices@, 0)),
        last_max(component_values(m.vertices@, 1)),
        last_max(component_values(m.vertices@, 2)),
    ]
    &&& holds(b, e.normals as int, flatten(m.vertices@, attribute_enc(Attribute::Normal)))
    &&& accessor_is(b, e.normals as int, nv, ComponentType::F32, AccessorKind::Vec3)
    &&& holds(b, e.uvs as int, flatten(m.vertices@, attribute_enc(Attribute::Uv)))
    &&& accessor_is(b, e.uvs as int, nv, ComponentType::F32, AccessorKind::Vec2)
    &&& holds(b, e.joints as int, flatten(m.vertices@, attribute_enc(Attribute::Joint)))
    &&& accessor_is(b, e.joints as int, nv, ComponentType::U8, AccessorKind::Vec4)
    &&& holds(b, e.weights as int, flatten(m.vertices@, attribute_enc(Attribute::Weight)))
    &&& accessor_is(b, e.weights as int, nv, ComponentType::F32, AccessorKind::Vec4)
    &&& holds(b, e.indices as int, flatten(m.indices@, index_enc()))
    &&& accessor_is(
        b,
        e.indices as int,
        m.indices.len() as int,
        ComponentType::U16,
        AccessorKind::Scalar,
    )
}

proof fn lemma_mesh_holds_extends(b: Binary, c: Binary, e: MeshEntry, m: Mesh)
    requires
        mesh_holds(b, e, m),
        extends(b, c),
    ensures
        mesh_holds(c, e, m),
{
    lemma_holds_extends(b, c, e.positions as int, flatten(m.vertices@, attribute_enc(Attribute::Position)));
    lemma_holds_extends(b, c, e.normals as int, flatten(m.vertices@, attribute_enc(Attribute::Normal)));
    lemma_holds_extends(b, c, e.uvs as int, flatten(m.vertices@, attribute_enc(Attribute::Uv)));
    lemma_holds_extends(b, c, e.joints as int, flatten(m.vertices@, attribute_enc(Attribute::Joint)));
    lemma_holds_extends(b, c, e.weights as int, flatten(m.vertices@, attribute_enc(Attribute::Weight)));
    lemma_holds_extends(b, c, e.indices as int, flatten(m.indices@, index_enc()));
}

/// The number of joints whose rotations are animated: those of the skeleton
/// that the first frame has transforms for.
pub open spec fn track_count(a: Animation, skeleton_len: int) -> int {
    let t = if a.frames.len() == 0 {
        0
    } else {
        a.frames@[0].transforms.len() as int
    };
    if t < skeleton_len {
        t
    } else {
        skeleton_len
    }
}

pub open spec fn frame_times(n: int) -> Seq<u32> {
    Seq::new(n as nat, |i: int| frame_time(i as u32, 55))
}

/// The samplers and channels of `e` animate the skeleton's root translation
/// and the rotation of each of the first `tracks` joints, from the frames of
/// `a` at the scene's frame rate.
pub open spec fn animation_holds(
    b: Binary,
    e: AnimationEntry,
    a: Animation,
    skeleton_index: int,
    tracks: int,
) -> bool {
    let nf = a.frames.len() as int;
    let time = e.samplers@[0].input as int;
    &&& e.name@ == a.name@
    &&& e.samplers.len() == 1 + tracks
    &&& e.channels.len() == 1 + tracks
    &&& holds(b, time, times_le(nf))
    &&& accessor_is(b, time, nf, ComponentType::F32, AccessorKind::Scalar)
    &&& b.accessors@[time].min@ == seq![first_min(frame_times(nf))]
    &&& b.accessors@[time].max@ == seq![last_max(frame_times(nf))]
    &&& holds(b, e.samplers@[0].output as int, flatten(a.frames@, translation_enc()))
    &&& accessor_is(b, e.samplers@[0].output as int, nf, ComponentType::F32, AccessorKind::Vec3)
    &&& e.channels@[0] == Channel {
        sampler: 0,
        node: skeleton_index as usize,
        property: Property::Translation,
    }
    &&& forall|j: int|
        0 <= j < tracks ==> {
            &&& (#[trigger] e.samplers@[1 + j]).input == time
            &&& holds(b, e.samplers@[1 + j].output as int, flatten(a.frames@, rotation_enc(j)))
            &&& accessor_is(
                b,
                e.samplers@[1 + j].output as int,
                nf,
                ComponentType::F32,
                AccessorKind::Vec4,
            )
            &&& e.channels@[1 + j] == Channel {
                sampler: (1 + j) as usize,
                node: j as usize,
                property: Property::Rotation,
            }
        }
}

proof fn lemma_animation_holds_extends(
    b: Binary,
    c: Binary,
    e: AnimationEntry,
    a: Animation,
    skeleton_index: int,
    tracks: int,
)
    requires
        animation_holds(b, e, a, skeleton_index, tracks),
        extends(b, c),
    ensures
        animation_holds(c, e, a, skeleton_index, tracks),
{
    let nf = a.frames.len() as int;
    lemma_holds_extends(b, c, e.samplers@[0].input as int, times_le(nf));
    lemma_holds_extends(b, c, e.samplers@[0].output as int, flatten(a.frames@, translation_enc()));
    assert forall|j: int| 0 <= j < tracks implies holds(
        c,
        (#[trigger] e.samplers@[1 + j]).output as int,
        flatten(a.frames@, rotation_enc(j)),
    ) by {
        lemma_holds_extends(b, c, e.samplers@[1 + j].output as int, flatten(a.frames@, rotation_enc(j)));
    }
}

fn copy_indices(s: &Vec<usize>) -> (r: Vec<usize>)
    ensures
        r@ == s@,
{
    let mut out: Vec<usize> = Vec::new();
    let mut k: usize = 0;
    while k < s.len()
        invariant
            k <= s@.len(),
            out@ == s@.take(k as int),
        decreases s.len() - k,
    {
        out.push(s[k]);
        k = k + 1;
        assert(out@ =~= s@.take(k as int));
    }
    assert(s@.take(k as int) =~= s@);
    out
}

/// The nodes of the document: one per joint, named by its index, then the
/// node holding the skeleton's roots, then one per mesh, skinned by the
/// first skin.
pub open spec fn nodes_of(nodes: Seq<Node>, scene_nodes: Seq<usize>, skeleton: Seq<Joint>, meshes: Seq<Mesh>) -> bool {
    let nj = skeleton.len() as int;
    &&& nodes.len() == nj + 1 + meshes.len()
    &&& forall|i: int|
        0 <= i < nj ==> {
            &&& (#[trigger] nodes[i]).name == NodeName::Bone(i as usize)
            &&& nodes[i].children@ == skeleton[i].children@
            &&& nodes[i].translation == Some(skeleton[i].translation)
            &&& nodes[i].mesh is None
            &&& nodes[i].skin is None
        }
    &&& nodes[nj].name == NodeName::Skeleton
    &&& nodes[nj].children@ == roots(skeleton, nj)
    &&& nodes[nj].translation is None
    &&& nodes[nj].mesh is None
    &&& nodes[nj].skin is None
    &&& forall|m: int|
        0 <= m < meshes.len() ==> {
            &&& (#[trigger] nodes[nj + 1 + m]).name matches NodeName::Mesh(s) && s@
                == meshes[m].name@
            &&& nodes[nj + 1 + m].children@.len() == 0
            &&& nodes[nj + 1 + m].translation is None
            &&& nodes[nj + 1 + m].mesh == Some(m as usize)
            &&& nodes[nj + 1 + m].skin == Some(0usize)
        }
    &&& scene_nodes.len() == 1 + meshes.len()
    &&& scene_nodes[0] == nj
    &&& forall|m: int| 0 <= m < meshes.len() ==> #[trigger] scene_nodes[1 + m] == nj + 1 + m
}

/// The node graph of a document with one scene.
#[derive(Clone, Debug, PartialEq)]
pub struct SceneGraph {
    /// The index of the default scene.
    pub scene: usize,
    pub nodes: Vec<Node>,
    /// The nodes of the scene.
    pub scene_nodes: Vec<usize>,
    /// The index of the node holding the skeleton's roots.
    pub skeleton: usize,
}

/// Builds the node graph of the only scene.
pub fn insert_scene(skeleton: &Vec<Joint>, meshes: &Vec<Mesh>) -> (r: SceneGraph)
    requires
        skeleton.len() + 1 + meshes.len() <= usize::MAX,
    ensures
        r.scene == 0,
        nodes_of(r.nodes@, r.scene_nodes@, skeleton@, meshes@),
        r.skeleton == skeleton.len(),
{
    let nj = skeleton.len();
    let mut nodes: Vec<Node> = Vec::new();
    let mut roots_list: Vec<usize> = Vec::new();
    let mut i: usize = 0;
    while i < nj
        invariant
            nj == skeleton@.len(),
            i <= nj,
            nodes.len() == i,
            roots_list@ == roots(skeleton@, i as int),
            forall|k: int|
                0 <= k < i ==> {
                    &&& (#[trigger] nodes@[k]).name == NodeName::Bone(k as usize)
                    &&& nodes@[k].children@ == skeleton@[k].children@
                    &&& nodes@[k].translation == Some(skeleton@[k].translation)
                    &&& nodes@[k].mesh is None
                    &&& nodes@[k].skin is None
                },
        decreases nj - i,
    {
        let joint = &skeleton[i];
        if joint.parent.is_none() {
            roots_list.push(i);
        }
        nodes.push(
            Node {
                name: NodeName::Bone(i),
                children: copy_indices(&joint.children),
                translation: Some(joint.translation),
                mesh: None,
                skin: None,
            },
        );
        i = i + 1;
    }
    nodes.push(
        Node {
            name: NodeName::Skeleton,
            children: roots_list,
            translation: None,
            mesh: None,
            skin: None,
        },
    );
    let mut scene_nodes: Vec<usize> = Vec::new();
    scene_nodes.push(nj);
    let mut m: usize = 0;
    while m < meshes.len()
        invariant
            nj == skeleton@.len(),
            nj + 1 + meshes@.len() <= usize::MAX,
            m <= meshes@.len(),
            nodes.len() == nj + 1 + m,
            scene_nodes.len() == 1 + m,
            scene_nodes@[0] == nj,
            forall|k: int| 0 <= k < m ==> #[trigger] scene_nodes@[1 + k] == nj + 1 + k,
            forall|k: int|
                0 <= k < i ==> {
                    &&& (#[trigger] nodes@[k]).name == NodeName::Bone(k as usize)
                    &&& nodes@[k].children@ == skeleton@[k].children@
                    &&& nodes@[k].translation == Some(skeleton@[k].translation)
                    &&& nodes@[k].mesh is None
                    &&& nodes@[k].skin is None
                },
            i == nj,
            nodes@[nj as int].name == NodeName::Skeleton,
            nodes@[nj as int].children@ == roots(skeleton@, nj as int),
            nodes@[nj as int].translation is None,
            nodes@[nj as int].mesh is None,
            nodes@[nj as int].skin is None,
            forall|k: int|
                0 <= k < m ==> {
                    &&& (#[trigger] nodes@[nj + 1 + k]).name matches NodeName::Mesh(s) && s@
                        == meshes@[k].name@
                    &&& nodes@[nj + 1 + k].children@.len() == 0
                    &&& nodes@[nj + 1 + k].translation is None
                    &&& nodes@[nj + 1 + k].mesh == Some(k as usize)
                    &&& nodes@[nj + 1 + k].skin == Some(0usize)
                },
        decreases meshes.len() - m,
    {
        let index = nodes.len();
        nodes.push(
            Node {
                name: NodeName::Mesh(meshes[m].name.clone()),
                children: Vec::new(),
                translation: None,
                mesh: Some(m),
                skin: Some(0),
            },
        );
        scene_nodes.push(index);
        m = m + 1;
    }
    SceneGraph { scene: 0, nodes, scene_nodes, skeleton: nj }
}


/// The number of accessors that the animations take: times and root
/// translations, then one rotation track per animated joint.
pub open spec fn animation_accessors(animations: Seq<Animation>, skeleton_len: int) -> int
    decreases animations.len(),
{
    if animations.len() == 0 {
        0
    } else {
        animation_accessors(animations.drop_last(), skeleton_len) + 2 + track_count(
            animations.last(),
            skeleton_len,
        )
    }
}

/// Writes the attributes and indices of each mesh.
pub fn insert_meshes(b: &mut Binary, meshes: &Vec<Mesh>) -> (r: Vec<MeshEntry>)
    ensures
        extends(*old(b), *final(b)),
        r.len() == meshes.len(),
        forall|m: int| 0 <= m < meshes.len() ==> mesh_holds(*final(b), #[trigger] r@[m], meshes@[m]),
        final(b).accessors.len() == old(b).accessors.len() + 6 * meshes.len(),
        final(b).buffer_views.len() == old(b).buffer_views.len() + 6 * meshes.len(),
{
    let ghost start = *b;
    proof {
        lemma_extends_refl(start);
    }
    let mut entries: Vec<MeshEntry> = Vec::new();
    let mut i: usize = 0;
    while i < meshes.len()
        invariant
            extends(start, *b),
            i <= meshes@.len(),
            entries.len() == i,
            b.accessors.len() == start.accessors.len() + 6 * i,
            b.buffer_views.len() == start.buffer_views.len() + 6 * i,
            forall|m: int| 0 <= m < i ==> mesh_holds(*b, #[trigger] entries@[m], meshes@[m]),
        decreases meshes.len() - i,
    {
        let mesh = &meshes[i];
        let ghost b0 = *b;
        let (lo, hi) = position_bounds(&mesh.vertices);
        let n = mesh.vertices.len();
        let positions = push_accessor(
            b,
            attribute_bytes(&mesh.vertices, Attribute::Position),
            n,
            ComponentType::F32,
            AccessorKind::Vec3,
            lo,
            hi,
        );
        let ghost b1 = *b;
        let normals = push_accessor(
            b,
            attribute_bytes(&mesh.vertices, Attribute::Normal),
            n,
            ComponentType::F32,
            AccessorKind::Vec3,
            Vec::new(),
            Vec::new(),
        );
        let ghost b2 = *b;
        let uvs = push_accessor(
            b,
            attribute_bytes(&mesh.vertices, Attribute::Uv),
            n,
            ComponentType::F32,
            AccessorKind::Vec2,
            Vec::new(),
            Vec::new(),
        );
        let ghost b3 = *b;
        let joints = push_accessor(
            b,
            attribute_bytes(&mesh.vertices, Attribute::Joint),
            n,
            ComponentType::U8,
            AccessorKind::Vec4,
            Vec::new(),
            Vec::new(),
        );
        let ghost b4 = *b;
        let weights = push_accessor(
            b,
            attribute_bytes(&mesh.vertices, Attribute::Weight),
            n,
            ComponentType::F32,
            AccessorKind::Vec4,
            Vec::new(),
            Vec::new(),
        );
        let ghost b5 = *b;
        let indices = push_accessor(
            b,
            index_bytes(&mesh.indices),
            mesh.indices.len(),
            ComponentType::U16,
            AccessorKind::Scalar,
            Vec::new(),
            Vec::new(),
        );
        let entry = MeshEntry {
            name: mesh.name.clone(),
            positions,
            normals,
            uvs,
            joints,
            weights,
            indices,
        };
        proof {
            lemma_extends_trans(b0, b1, b2);
            lemma_extends_trans(b0, b2, b3);
            lemma_extends_trans(b0, b3, b4);
            lemma_extends_trans(b0, b4, b5);
            lemma_extends_trans(b0, b5, *b);
            lemma_extends_trans(start, b0, *b);
            lemma_extends_trans(b1, b2, b3);
            lemma_extends_trans(b1, b3, b4);
            lemma_extends_trans(b1, b4, b5);
            lemma_extends_trans(b1, b5, *b);
            lemma_extends_trans(b2, b3, b4);
            lemma_extends_trans(b2, b4, b5);
            lemma_extends_trans(b2, b5, *b);
            lemma_extends_trans(b3, b4, b5);
            lemma_extends_trans(b3, b5, *b);
            lemma_extends_trans(b4, b5, *b);
            lemma_holds_extends(b1, *b, positions as int, flatten(mesh.vertices@, attribute_enc(Attribute::Position)));
            lemma_holds_extends(b2, *b, normals as int, flatten(mesh.vertices@, attribute_enc(Attribute::Normal)));
            lemma_holds_extends(b3, *b, uvs as int, flatten(mesh.vertices@, attribute_enc(Attribute::Uv)));
            lemma_holds_extends(b4, *b, joints as int, flatten(mesh.vertices@, attribute_enc(Attribute::Joint)));
            lemma_holds_extends(b5, *b, weights as int, flatten(mesh.vertices@, attribute_enc(Attribute::Weight)));
            assert forall|m: int| 0 <= m < i implies mesh_holds(*b, #[trigger] entries@[m], meshes@[m]) by {
                lemma_mesh_holds_extends(b0, *b, entries@[m], meshes@[m]);
            }
        }
        entries.push(entry);
        i = i + 1;
    }
    entries
}

/// The skin over the whole skeleton, when there is one: its joints are the
/// first nodes, its inverse bind matrices undo each joint's world translation.
pub fn insert_skins(b: &mut Binary, skeleton: &Vec<Joint>, skeleton_index: usize) -> (r: Vec<Skin>)
    requires
        parents_valid(skeleton@),
    ensures
        extends(*old(b), *final(b)),
        final(b).accessors.len() == old(b).accessors.len() + if skeleton.len() > 0 {
            1int
        } else {
            0
        },
        final(b).buffer_views.len() == old(b).buffer_views.len() + if skeleton.len() > 0 {
            1int
        } else {
            0
        },
        skeleton.len() == 0 ==> r.len() == 0,
        skeleton.len() > 0 ==> {
            &&& r.len() == 1
            &&& r@[0].joints@ == Seq::new(skeleton.len() as nat, |i: int| i as usize)
            &&& r@[0].skeleton == skeleton_index
            &&& holds(
                *final(b),
                r@[0].inverse_bind_matrices as int,
                inverse_binds_le(skeleton@, skeleton.len() as int),
            )
            &&& accessor_is(
                *final(b),
                r@[0].inverse_bind_matrices as int,
                skeleton.len() as int,
                ComponentType::F32,
                AccessorKind::Mat4,
            )
        },
{
    let mut skins: Vec<Skin> = Vec::new();
    if skeleton.len() == 0 {
        proof {
            lemma_extends_refl(*b);
        }
        return skins;
    }
    let a = push_accessor(
        b,
        inverse_bind_bytes(skeleton),
        skeleton.len(),
        ComponentType::F32,
        AccessorKind::Mat4,
        Vec::new(),
        Vec::new(),
    );
    let mut joints: Vec<usize> = Vec::new();
    let mut i: usize = 0;
    while i < skeleton.len()
        invariant
            i <= skeleton@.len(),
            joints@ == Seq::new(i as nat, |k: int| k as usize),
        decreases skeleton.len() - i,
    {
        joints.push(i);
        i = i + 1;
        assert(joints@ =~= Seq::new(i as nat, |k: int| k as usize));
    }
    skins.push(Skin { inverse_bind_matrices: a, joints, skeleton: skeleton_index });
    skins
}

fn frame_time_values(n: usize) -> (r: Vec<u32>)
    requires
        n <= u32::MAX,
    ensures
        r@ == frame_times(n as int),
{
    let mut out: Vec<u32> = Vec::new();
    let mut i: usize = 0;
    while i < n
        invariant
            n <= u32::MAX,
            i <= n,
            out@ == frame_times(n as int).take(i as int),
        decreases n - i,
    {
        out.push(time_of_frame(i as u32, SAMPLING_RATE));
        i = i + 1;
        assert(out@ =~= frame_times(n as int).take(i as int));
    }
    assert(frame_times(n as int).take(i as int) =~= frame_times(n as int));
    out
}

/// Every animation has fewer frames than a `u32` counts, and its frames
/// have a transform of 16 components for each animated joint.
pub open spec fn animations_fit(animations: Seq<Animation>, skeleton_len: int) -> bool {
    forall|i: int|
        0 <= i < animations.len() ==> {
            &&& (#[trigger] animations[i]).frames.len() <= u32::MAX
            &&& frames_have_tracks(animations[i], track_count(animations[i], skeleton_len))
        }
}

/// One sampler and channel for the skeleton's root translation, then one per
/// animated joint for its rotation, all over the same times.
pub fn insert_animations(
    b: &mut Binary,
    animations: &Vec<Animation>,
    skeleton_len: usize,
    skeleton_index: usize,
) -> (r: Vec<AnimationEntry>)
    requires
        animations_fit(animations@, skeleton_len as int),
    ensures
        extends(*old(b), *final(b)),
        final(b).accessors.len() == old(b).accessors.len() + animation_accessors(
            animations@,
            skeleton_len as int,
        ),
        final(b).buffer_views.len() == old(b).buffer_views.len() + animation_accessors(
            animations@,
            skeleton_len as int,
        ),
        r.len() == animations.len(),
        forall|i: int|
            0 <= i < animations.len() ==> animation_holds(
                *final(b),
                #[trigger] r@[i],
                animations@[i],
                skeleton_index as int,
                track_count(animations@[i], skeleton_len as int),
            ),
{
    let ghost start = *b;
    proof {
        lemma_extends_refl(start);
    }
    let mut entries: Vec<AnimationEntry> = Vec::new();
    let mut i: usize = 0;
    while i < animations.len()
        invariant
            animations_fit(animations@, skeleton_len as int),
            extends(start, *b),
            i <= animations@.len(),
            entries.len() == i,
            b.accessors.len() == start.accessors.len() + animation_accessors(
                animations@.take(i as int),
                skeleton_len as int,
            ),
            b.buffer_views.len() == start.buffer_views.len() + animation_accessors(
                animations@.take(i as int),
                skeleton_len as int,
            ),
            forall|k: int|
                0 <= k < i ==> animation_holds(
                    *b,
                    #[trigger] entries@[k],
                    animations@[k],
                    skeleton_index as int,
                    track_count(animations@[k], skeleton_len as int),
                ),
        decreases animations.len() - i,
    {
        let animation = &animations[i];
        let nf = animation.frames.len();
        assert(animations@[i as int].frames.len() <= u32::MAX);
        let ghost b0 = *b;
        let times = frame_time_values(nf);
        let (lo, hi) = bounds(&times);
        let mut min: Vec<u32> = Vec::new();
        min.push(lo);
        let mut max: Vec<u32> = Vec::new();
        max.push(hi);
        let time = push_accessor(
            b,
            time_bytes(nf),
            nf,
            ComponentType::F32,
            AccessorKind::Scalar,
            min,
            max,
        );
        let ghost b1 = *b;
        let translations = push_accessor(
            b,
            translation_bytes(animation),
            nf,
            ComponentType::F32,
            AccessorKind::Vec3,
            Vec::new(),
            Vec::new(),
        );
        let ghost b2 = *b;
        proof {
            lemma_extends_trans(b0, b1, b2);
            lemma_holds_extends(b1, b2, time as int, times_le(nf as int));
            assert(min@ =~= seq![first_min(frame_times(nf as int))]);
        }
        let mut samplers: Vec<Sampler> = Vec::new();
        let mut channels: Vec<Channel> = Vec::new();
        samplers.push(Sampler { input: time, output: translations });
        channels.push(Channel { sampler: 0, node: skeleton_index, property: Property::Translation });
        let first = if nf == 0 {
            0
        } else {
            animation.frames[0].transforms.len()
        };
        let tracks = if first < skeleton_len {
            first
        } else {
            skeleton_len
        };
        assert(tracks == track_count(animations@[i as int], skeleton_len as int));
        assert(frames_have_tracks(*animation, tracks as int));
        proof {
            lemma_extends_refl(b2);
        }
        let mut j: usize = 0;
        while j < tracks
            invariant
                animations_fit(animations@, skeleton_len as int),
                *animation == animations@[i as int],
                frames_have_tracks(*animation, tracks as int),
                i < animations@.len(),
                tracks == track_count(*animation, skeleton_len as int),
                extends(b0, *b),
                extends(b2, *b),
                b.accessors.len() == b0.accessors.len() + 2 + j,
                b.buffer_views.len() == b0.buffer_views.len() + 2 + j,
                j <= tracks,
                samplers.len() == 1 + j,
                channels.len() == 1 + j,
                samplers@[0] == (Sampler { input: time, output: translations }),
                channels@[0] == (Channel { sampler: 0, node: skeleton_index, property: Property::Translation }),
                holds(*b, time as int, times_le(nf as int)),
                accessor_is(*b, time as int, nf as int, ComponentType::F32, AccessorKind::Scalar),
                b.accessors@[time as int].min@ == seq![first_min(frame_times(nf as int))],
                b.accessors@[time as int].max@ == seq![last_max(frame_times(nf as int))],
                holds(*b, translations as int, flatten(animation.frames@, translation_enc())),
                accessor_is(*b, translations as int, nf as int, ComponentType::F32, AccessorKind::Vec3),
                nf == animation.frames.len(),
                forall|k: int|
                    0 <= k < j ==> {
                        &&& (#[trigger] samplers@[1 + k]).input == time
                        &&& holds(*b, samplers@[1 + k].output as int, flatten(animation.frames@, rotation_enc(k)))
                        &&& accessor_is(*b, samplers@[1 + k].output as int, nf as int, ComponentType::F32, AccessorKind::Vec4)
                        &&& channels@[1 + k] == Channel {
                            sampler: (1 + k) as usize,
                            node: k as usize,
                            property: Property::Rotation,
                        }
                    },
            decreases tracks - j,
        {
            let ghost bj = *b;
            let rotations = push_accessor(
                b,
                rotation_bytes(animation, j, tracks),
                nf,
                ComponentType::F32,
                AccessorKind::Vec4,
                Vec::new(),
                Vec::new(),
            );
            proof {
                lemma_extends_trans(b0, bj, *b);
                lemma_extends_trans(b2, bj, *b);
                lemma_holds_extends(bj, *b, time as int, times_le(nf as int));
                lemma_holds_extends(bj, *b, translations as int, flatten(animation.frames@, translation_enc()));
                assert forall|k: int| 0 <= k < j implies holds(*b, (#[trigger] samplers@[1 + k]).output as int, flatten(animation.frames@, rotation_enc(k))) && accessor_is(*b, samplers@[1 + k].output as int, nf as int, ComponentType::F32, AccessorKind::Vec4) by {
                    lemma_holds_extends(bj, *b, samplers@[1 + k].output as int, flatten(animation.frames@, rotation_enc(k)));
                    assert(b.accessors@[samplers@[1 + k].output as int] == bj.accessors@[samplers@[1 + k].output as int]);
                }
                assert(b.accessors@[time as int] == bj.accessors@[time as int]);
                assert(b.accessors@[translations as int] == bj.accessors@[translations as int]);
            }
            let index = channels.len();
            let ghost old_samplers = samplers@;
            let ghost old_channels = channels@;
            samplers.push(Sampler { input: time, output: rotations });
            channels.push(Channel { sampler: index, node: j, property: Property::Rotation });
            assert forall|k: int| 0 <= k < j implies #[trigger] samplers@[1 + k] == old_samplers[1 + k] && channels@[1 + k] == old_channels[1 + k] by {}
            assert(samplers@[1 + j as int].input == time);
            assert(holds(*b, samplers@[1 + j as int].output as int, flatten(animation.frames@, rotation_enc(j as int))));
            assert(accessor_is(*b, samplers@[1 + j as int].output as int, nf as int, ComponentType::F32, AccessorKind::Vec4));
            assert(channels@[1 + j as int] == Channel { sampler: (1 + j) as usize, node: j, property: Property::Rotation });
            j = j + 1;
        }
        let entry = AnimationEntry { name: animation.name.clone(), samplers, channels };
        assert(animation_holds(
            *b,
            entry,
            animations@[i as int],
            skeleton_index as int,
            track_count(animations@[i as int], skeleton_len as int),
        ));
        proof {
            lemma_extends_trans(start, b0, *b);
            assert forall|k: int| 0 <= k < i implies animation_holds(
                *b,
                #[trigger] entries@[k],
                animations@[k],
                skeleton_index as int,
                track_count(animations@[k], skeleton_len as int),
            ) by {
                lemma_animation_holds_extends(b0, *b, entries@[k], animations@[k], skeleton_index as int, track_count(animations@[k], skeleton_len as int));
            }
        }
        proof {
            let t = animations@.take(i + 1);
            assert(t.drop_last() =~= animations@.take(i as int));
            assert(t.last() == animations@[i as int]);
        }
        entries.push(entry);
        i = i + 1;
    }
    assert(animations@.take(animations@.len() as int) =~= animations@);
    entries
}


/// `doc` is the document of `s`, a scene already in glTF's coordinates.
pub open spec fn document_of(doc: GltfDocument, s: Scene) -> bool {
    let nj = s.skeleton.len() as int;
    &&& nodes_of(doc.nodes@, doc.scene_nodes@, s.skeleton@, s.meshes@)
    &&& doc.meshes.len() == s.meshes.len()
    &&& forall|m: int|
        0 <= m < s.meshes.len() ==> mesh_holds(doc.binary, #[trigger] doc.meshes@[m], s.meshes@[m])
    &&& nj == 0 ==> doc.skins.len() == 0
    &&& nj > 0 ==> {
        &&& doc.skins.len() == 1
        &&& doc.skins@[0].joints@ == Seq::new(nj as nat, |i: int| i as usize)
        &&& doc.skins@[0].skeleton == nj
        &&& holds(
            doc.binary,
            doc.skins@[0].inverse_bind_matrices as int,
            inverse_binds_le(s.skeleton@, nj),
        )
        &&& accessor_is(
            doc.binary,
            doc.skins@[0].inverse_bind_matrices as int,
            nj,
            ComponentType::F32,
            AccessorKind::Mat4,
        )
    }
    &&& doc.binary.accessors.len() == 6 * s.meshes.len() + (if nj > 0 {
        1int
    } else {
        0
    }) + animation_accessors(s.animations@, nj)
    &&& doc.binary.buffer_views.len() == doc.binary.accessors.len()
    &&& doc.animations.len() == s.animations.len()
    &&& forall|i: int|
        0 <= i < s.animations.len() ==> animation_holds(
            doc.binary,
            #[trigger] doc.animations@[i],
            s.animations@[i],
            nj,
            track_count(s.animations@[i], nj),
        )
}

/// The scene's joints name their parents, its animations fit, and its nodes
/// can be counted.
pub open spec fn exportable(s: Scene) -> bool {
    &&& parents_valid(s.skeleton@)
    &&& animations_fit(s.animations@, s.skeleton.len() as int)
    &&& s.skeleton.len() + 1 + s.meshes.len() <= usize::MAX
}

/// Builds the document of a scene already in glTF's coordinates: the node
/// graph, then the meshes, then the skin, then the animations, in one buffer.
pub fn export_document(scene: &Scene) -> (r: GltfDocument)
    requires
        exportable(*scene),
    ensures
        document_of(r, *scene),
{
    let graph = insert_scene(&scene.skeleton, &scene.meshes);
    let nodes = graph.nodes;
    let scene_nodes = graph.scene_nodes;
    let skeleton_index = graph.skeleton;
    let mut binary = Binary { accessors: Vec::new(), buffer_views: Vec::new(), buffer: Vec::new() };
    let meshes = insert_meshes(&mut binary, &scene.meshes);
    let ghost b1 = binary;
    let skins = insert_skins(&mut binary, &scene.skeleton, skeleton_index);
    let ghost b2 = binary;
    let animations = insert_animations(
        &mut binary,
        &scene.animations,
        scene.skeleton.len(),
        skeleton_index,
    );
    proof {
        lemma_extends_trans(b1, b2, binary);
        assert forall|m: int| 0 <= m < scene.meshes.len() implies mesh_holds(
            binary,
            #[trigger] meshes@[m],
            scene.meshes@[m],
        ) by {
            lemma_mesh_holds_extends(b1, binary, meshes@[m], scene.meshes@[m]);
        }
        if scene.skeleton.len() > 0 {
            lemma_holds_extends(
                b2,
                binary,
                skins@[0].inverse_bind_matrices as int,
                inverse_binds_le(scene.skeleton@, scene.skeleton.len() as int),
            );
            assert(binary.accessors@[skins@[0].inverse_bind_matrices as int]
                == b2.accessors@[skins@[0].inverse_bind_matrices as int]);
        }
    }
    GltfDocument { nodes, scene_nodes, meshes, skins, animations, binary }
}

proof fn lemma_flipped_exportable(a: Scene, b: Scene)
    requires
        exportable(a),
        scene_flipped(a, b),
    ensures
        exportable(b),
{
    assert forall|i: int| 0 <= i < b.skeleton.len() implies match (#[trigger] b.skeleton@[i]).parent {
        Some(p) => p < b.skeleton.len(),
        None => true,
    } by {
        assert(crate::transform::joint_flipped(a.skeleton@[i], b.skeleton@[i]));
        assert(match a.skeleton@[i].parent {
            Some(p) => p < a.skeleton.len(),
            None => true,
        });
    }
    assert forall|i: int| 0 <= i < b.animations.len() implies {
        &&& (#[trigger] b.animations@[i]).frames.len() <= u32::MAX
        &&& frames_have_tracks(b.animations@[i], track_count(b.animations@[i], b.skeleton.len() as int))
    } by {
        let (x, y) = (a.animations@[i], b.animations@[i]);
        assert(crate::transform::animation_flipped(x, y));
        lemma_flipped_tracks(x, y, a.skeleton.len() as int);
    }
}

proof fn lemma_flipped_tracks(x: Animation, y: Animation, n: int)
    requires
        crate::transform::animation_flipped(x, y),
        x.frames.len() <= u32::MAX,
        frames_have_tracks(x, track_count(x, n)),
    ensures
        y.frames.len() <= u32::MAX,
        frames_have_tracks(y, track_count(y, n)),
{
    if y.frames.len() > 0 {
        assert(crate::transform::keyframe_flipped(x.frames@[0], y.frames@[0]));
    }
    let tc = track_count(x, n);
    assert(track_count(y, n) == tc);
    assert forall|f: int| 0 <= f < y.frames.len() implies frame_has_tracks(
        #[trigger] y.frames@[f],
        tc,
    ) by {
        let (xf, yf) = (x.frames@[f], y.frames@[f]);
        assert(crate::transform::keyframe_flipped(xf, yf));
        assert(frame_has_tracks(xf, tc));
        assert forall|j: int| 0 <= j < tc implies (#[trigger] yf.transforms@[j])@.len() == 16 by {
            assert(xf.transforms@[j]@.len() == 16);
            assert(yf.transforms@[j]@ == crate::transform::flip_matrix(xf.transforms@[j]@));
        }
    }
    assert(frames_have_tracks(y, tc));
}

/// Exports a scene: it is moved into glTF's coordinates, then laid out as a
/// document.
pub fn export_gltf(scene: &Scene) -> (r: GltfDocument)
    requires
        exportable(*scene),
    ensures
        exists|t: Scene| scene_flipped(*scene, t) && document_of(r, t),
{
    let flipped = transform(scene);
    proof {
        lemma_flipped_exportable(*scene, flipped);
    }
    export_document(&flipped)
}

/// The file name of an exported scene, without extension: the first mesh's
/// name, else the first animation's, else `model`.
pub fn export_name(scene: &Scene) -> (r: String)
    ensures
        scene.meshes.len() > 0 ==> r@ == scene.meshes@[0].name@,
        scene.meshes.len() == 0 && scene.animations.len() > 0 ==> r@
            == scene.animations@[0].name@,
        scene.meshes.len() == 0 && scene.animations.len() == 0 ==> r@ == "model"@,
{
    if scene.meshes.len() > 0 {
        scene.meshes[0].name.clone()
    } else if scene.animations.len() > 0 {
        scene.animations[0].name.clone()
    } else {
        "model".to_owned()
    }
}


/// Exports scenes as glTF documents.
#[derive(Clone, Copy, Debug, Default, PartialEq, Eq)]
pub struct GltfExporter {}

impl GltfExporter {
    pub fn export(&self, scene: &Scene) -> (r: GltfDocument)
        requires
            exportable(*scene),
        ensures
            exists|t: Scene| scene_flipped(*scene, t) && document_of(r, t),
    {
        export_gltf(scene)
    }
}

/// The `asset` entry of a glTF document.
#[derive(Clone, Debug, PartialEq)]
pub struct GltfAsset {
    pub generator: String,
    pub version: String,
}

impl GltfAsset {
    /// This library's name and version as the generator, of glTF 2.0.
    pub fn new() -> (r: GltfAsset)
        ensures
            r.generator@ == "chaseconv 0.1.0"@,
            r.version@ == "2.0"@,
    {
        GltfAsset {
            generator: String::from_str("chaseconv 0.1.0"),
            version: String::from_str("2.0"),
        }
    }
}

/// A scene of a glTF document: its name, if any, and its nodes.
#[derive(Clone, Debug, PartialEq)]
pub struct GltfScene {
    pub name: Option<String>,
    pub nodes: Vec<u32>,
}

} // verus!
