//! The `.frm` keyframe format, in its two versions.
//!
//! Version 1.0 starts with one-byte frame and bone counts. Version 1.1 starts
//! with the marker `"Frm Ver 1.1\0"` and two-byte counts, and ends with one
//! z offset per frame. In both, each frame holds an option byte, the root's x
//! offset (relative to the previous frame) and y position, then one 4x4
//! matrix per bone, row by row.

use vstd::prelude::*;

use crate::convert::ConversionError;
use crate::geometry::lemma_u32_at_sub;
use crate::le::{
    lemma_concat_prefix, lemma_concat_suffix, lemma_u16_at, lemma_flatten_chunks, lemma_u16_bytes,
    lemma_u32_bytes,
    flatten, lemma_flatten_fixed, lemma_flatten_item, lemma_flatten_push, lemma_u32_at,
    read_u16, read_u32, u16_at, u16_le, u32_at, u32_le, write_u16, write_u32,
};

verus! {

/// The size of the version 1.1 marker.
pub const FRM_MARKER_LEN: usize = 12;

/// The version 1.1 marker, `"Frm Ver 1.1\0"`.
pub open spec fn frm_marker() -> Seq<u8> {
    seq![0x46u8, 0x72, 0x6d, 0x20, 0x56, 0x65, 0x72, 0x20, 0x31, 0x2e, 0x31, 0x00]
}

fn marker_bytes() -> (r: Vec<u8>)
    ensures
        r@ == frm_marker(),
{
    let r: Vec<u8> = vec![0x46u8, 0x72, 0x6d, 0x20, 0x56, 0x65, 0x72, 0x20, 0x31, 0x2e, 0x31, 0x00];
    assert(r@ =~= frm_marker());
    r
}

/// The version of an `.frm` file.
#[derive(Clone, Copy, Debug, PartialEq, Eq, Structural)]
pub enum FrmVersion {
    V1_0,
    V1_1,
}

/// One frame of an animation.
#[derive(Clone, Debug, PartialEq)]
pub struct Frame {
    /// Unused, zero in practice.
    pub option: u8,
    /// The root's x offset from the previous frame.
    pub pos_x: u32,
    /// The root's y position.
    pub pos_y: u32,
    /// The root's z position; version 1.1 only, zero otherwise.
    pub pos_z: u32,
    /// One matrix of 16 components per bone, row by row.
    pub bones: Vec<Vec<u32>>,
}

/// The contents of an `.frm` file.
#[derive(Clone, Debug, PartialEq)]
pub struct Frm {
    pub version: FrmVersion,
    pub frames: Vec<Frame>,
}

pub open spec fn u32_enc() -> spec_fn(u32) -> Seq<u8> {
    |v: u32| u32_le(v)
}

pub open spec fn matrix_le(m: Vec<u32>) -> Seq<u8> {
    flatten(m@, u32_enc())
}

pub open spec fn matrix_enc() -> spec_fn(Vec<u32>) -> Seq<u8> {
    |m: Vec<u32>| matrix_le(m)
}

/// The 16 components that the 64 bytes `r` hold.
pub open spec fn matrix_of(r: Seq<u8>) -> Seq<u32> {
    Seq::new(16, |k: int| u32_at(r, 4 * k))
}

pub open spec fn frame_le(f: Frame) -> Seq<u8> {
    seq![f.option] + u32_le(f.pos_x) + u32_le(f.pos_y) + flatten(f.bones@, matrix_enc())
}

pub open spec fn frame_enc() -> spec_fn(Frame) -> Seq<u8> {
    |f: Frame| frame_le(f)
}

pub open spec fn z_enc() -> spec_fn(Frame) -> Seq<u8> {
    |f: Frame| u32_le(f.pos_z)
}

pub open spec fn frame_size(num_bones: int) -> int {
    9 + 64 * num_bones
}

/// `f` is what the frame record `r` with `num_bones` matrices decodes to,
/// apart from the z position.
pub open spec fn frame_of(f: Frame, r: Seq<u8>, num_bones: int) -> bool {
    &&& f.option == r[0]
    &&& f.pos_x == u32_at(r, 1)
    &&& f.pos_y == u32_at(r, 5)
    &&& f.bones.len() == num_bones
    &&& forall|j: int|
        0 <= j < num_bones ==> (#[trigger] f.bones@[j])@ == matrix_of(
            r.subrange(9 + 64 * j, 9 + 64 * j + 64),
        )
}

/// The number of bones, read off the first frame.
pub open spec fn frm_num_bones(f: Frm) -> int {
    if f.frames.len() == 0 {
        0
    } else {
        f.frames@[0].bones.len() as int
    }
}

/// Every frame has one 16-component matrix per bone, and the counts fit the
/// version's fields.
pub open spec fn frm_wf(f: Frm) -> bool {
    let max: int = if f.version == FrmVersion::V1_0 {
        0xff
    } else {
        0xffff
    };
    &&& f.frames.len() <= max
    &&& frm_num_bones(f) <= max
    &&& forall|i: int|
        0 <= i < f.frames.len() ==> (#[trigger] f.frames@[i]).bones.len() == frm_num_bones(f)
    &&& forall|i: int, j: int|
        0 <= i < f.frames.len() && 0 <= j < frm_num_bones(f) ==> (
        #[trigger] f.frames@[i].bones@[j])@.len() == 16
}

/// The bytes of a whole file.
#[verifier::opaque]
pub open spec fn frm_le(f: Frm) -> Seq<u8> {
    let frames = flatten(f.frames@, frame_enc());
    if f.version == FrmVersion::V1_0 {
        seq![f.frames.len() as u8, frm_num_bones(f) as u8] + frames
    } else {
        frm_marker() + u16_le(f.frames.len() as u16) + u16_le(frm_num_bones(f) as u16) + frames
            + flatten(f.frames@, z_enc())
    }
}

/// `s` starts with the version 1.1 marker.
pub open spec fn frm_is_v1_1(s: Seq<u8>) -> bool {
    s.len() >= 12 && s.subrange(0, 12) == frm_marker()
}

pub open spec fn frm_frames_pos(s: Seq<u8>) -> int {
    if frm_is_v1_1(s) {
        16
    } else {
        2
    }
}

pub open spec fn frm_num_frames_of(s: Seq<u8>) -> int {
    if frm_is_v1_1(s) {
        u16_at(s, 12) as int
    } else {
        s[0] as int
    }
}

pub open spec fn frm_num_bones_of(s: Seq<u8>) -> int {
    if frm_is_v1_1(s) {
        u16_at(s, 14) as int
    } else {
        s[1] as int
    }
}

pub open spec fn frm_z_pos(s: Seq<u8>) -> int {
    frm_frames_pos(s) + frm_num_frames_of(s) * frame_size(frm_num_bones_of(s))
}

/// `s` holds every byte that its counts call for. Even a version 1.0 file
/// must be as long as the marker.
pub open spec fn frm_complete(s: Seq<u8>) -> bool {
    &&& s.len() >= 12
    &&& s.len() >= frm_z_pos(s) + if frm_is_v1_1(s) {
        4 * frm_num_frames_of(s)
    } else {
        0
    }
}

/// `f` is what the complete file `s` decodes to.
pub open spec fn frm_of(f: Frm, s: Seq<u8>) -> bool {
    let fs = frame_size(frm_num_bones_of(s));
    let p0 = frm_frames_pos(s);
    &&& f.version == (if frm_is_v1_1(s) {
        FrmVersion::V1_1
    } else {
        FrmVersion::V1_0
    })
    &&& f.frames.len() == frm_num_frames_of(s)
    &&& forall|i: int|
        0 <= i < f.frames.len() ==> frame_of(
            #[trigger] f.frames@[i],
            s.subrange(p0 + fs * i, p0 + fs * i + fs),
            frm_num_bones_of(s),
        )
    &&& forall|i: int|
        0 <= i < f.frames.len() ==> (#[trigger] f.frames@[i]).pos_z == if frm_is_v1_1(s) {
            u32_at(s, frm_z_pos(s) + 4 * i)
        } else {
            0
        }
}

fn read_matrix(b: &[u8], pos: usize) -> (r: Vec<u32>)
    requires
        pos + 64 <= b@.len(),
    ensures
        r@ == matrix_of(b@.subrange(pos as int, pos + 64)),
{
    let _len = b.len();
    let mut m: Vec<u32> = Vec::new();
    let mut k: usize = 0;
    while k < 16
        invariant
            pos + 64 <= b@.len(),
            _len == b@.len(),
            k <= 16,
            m@ == matrix_of(b@.subrange(pos as int, pos + 64)).take(k as int),
        decreases 16 - k,
    {
        m.push(read_u32(b, pos + 4 * k));
        proof {
            let r = b@.subrange(pos as int, pos + 64);
            assert(u32_at(r, 4 * k as int) == u32_at(b@, pos + 4 * k));
        }
        k = k + 1;
        assert(m@ =~= matrix_of(b@.subrange(pos as int, pos + 64)).take(k as int));
    }
    assert(matrix_of(b@.subrange(pos as int, pos + 64)).take(16) =~= matrix_of(
        b@.subrange(pos as int, pos + 64),
    ));
    m
}

fn write_matrix(out: &mut Vec<u8>, m: &Vec<u32>)
    ensures
        final(out)@ == old(out)@ + matrix_le(*m),
{
    let ghost start = out@;
    let mut k: usize = 0;
    while k < m.len()
        invariant
            k <= m@.len(),
            out@ == start + flatten(m@.take(k as int), u32_enc()),
        decreases m.len() - k,
    {
        write_u32(out, m[k]);
        proof {
            lemma_flatten_push(m@, u32_enc(), k as int);
        }
        k = k + 1;
    }
    assert(m@.take(k as int) =~= m@);
}

impl Frame {
    /// A frame at the origin with no bones.
    pub fn new() -> (r: Frame)
        ensures
            r.option == 0 && r.pos_x == 0 && r.pos_y == 0 && r.pos_z == 0,
            r.bones@.len() == 0,
    {
        Frame { option: 0, pos_x: 0, pos_y: 0, pos_z: 0, bones: Vec::new() }
    }

    /// Reads a frame record of `num_bones` matrices; the z position is left zero.
    pub fn from_reader(b: &[u8], pos: usize, num_bones: usize) -> (r: Frame)
        requires
            pos + frame_size(num_bones as int) <= b@.len(),
        ensures
            frame_of(r, b@.subrange(pos as int, pos + frame_size(num_bones as int)), num_bones as int),
            r.pos_z == 0,
    {
        let _len = b.len();
        let ghost r = b@.subrange(pos as int, pos + frame_size(num_bones as int));
        let option = b[pos];
        let pos_x = read_u32(b, pos + 1);
        let pos_y = read_u32(b, pos + 5);
        let mut bones: Vec<Vec<u32>> = Vec::new();
        let mut j: usize = 0;
        while j < num_bones
            invariant
                pos + frame_size(num_bones as int) <= b@.len(),
                _len == b@.len(),
                r == b@.subrange(pos as int, pos + frame_size(num_bones as int)),
                j <= num_bones,
                bones.len() == j,
                forall|k: int|
                    0 <= k < j ==> (#[trigger] bones@[k])@ == matrix_of(
                        r.subrange(9 + 64 * k, 9 + 64 * k + 64),
                    ),
            decreases num_bones - j,
        {
            let m = read_matrix(b, pos + 9 + 64 * j);
            assert(r.subrange(9 + 64 * j, 9 + 64 * j + 64) =~= b@.subrange(
                pos + 9 + 64 * j,
                pos + 9 + 64 * j + 64,
            ));
            bones.push(m);
            j = j + 1;
        }
        Frame { option, pos_x, pos_y, pos_z: 0, bones }
    }

    /// Writes the frame record: all but the z position.
    pub fn into_bytes(&self, out: &mut Vec<u8>)
        ensures
            final(out)@ == old(out)@ + frame_le(*self),
    {
        out.push(self.option);
        write_u32(out, self.pos_x);
        write_u32(out, self.pos_y);
        let ghost start = out@;
        let mut j: usize = 0;
        while j < self.bones.len()
            invariant
                j <= self.bones@.len(),
                out@ == start + flatten(self.bones@.take(j as int), matrix_enc()),
            decreases self.bones.len() - j,
        {
            write_matrix(out, &self.bones[j]);
            proof {
                lemma_flatten_push(self.bones@, matrix_enc(), j as int);
            }
            j = j + 1;
        }
        assert(self.bones@.take(j as int) =~= self.bones@);
        assert(out@ =~= old(out)@ + frame_le(*self));
    }
}


fn starts_with_marker(bytes: &[u8]) -> (r: bool)
    requires
        bytes@.len() >= 12,
    ensures
        r == frm_is_v1_1(bytes@),
{
    let marker = marker_bytes();
    let mut same = true;
    let mut k: usize = 0;
    while k < 12
        invariant
            bytes@.len() >= 12,
            marker@ == frm_marker(),
            k <= 12,
            same <==> forall|j: int| 0 <= j < k ==> bytes@[j] == frm_marker()[j],
        decreases 12 - k,
    {
        if bytes[k] != marker[k] {
            same = false;
        }
        k = k + 1;
    }
    if same {
        assert(bytes@.subrange(0, 12) =~= frm_marker());
    } else {
        let ghost j = choose|j: int| 0 <= j < 12 && bytes@[j] != frm_marker()[j];
        assert(bytes@.subrange(0, 12)[j] != frm_marker()[j]);
    }
    same
}

impl Frm {
    pub fn new(version: FrmVersion) -> (r: Frm)
        ensures
            r.version == version,
            r.frames@.len() == 0,
    {
        Frm { version, frames: Vec::new() }
    }

    /// The number of bones of the first frame, or zero without frames.
    pub fn num_bones(&self) -> (r: usize)
        ensures
            r == frm_num_bones(*self),
    {
        if self.frames.len() == 0 {
            0
        } else {
            self.frames[0].bones.len()
        }
    }

    /// Decodes a file of either version; the version is told by the marker. It
    /// fails when `bytes` is shorter than the marker or than its counts call for.
    pub fn from_bytes(bytes: &[u8]) -> (r: Result<Frm, ConversionError>)
        ensures
            r is Ok <==> frm_complete(bytes@),
            r matches Ok(f) ==> frm_of(f, bytes@),
            r matches Err(e) ==> e == ConversionError::Deserialization,
    {
        let n = bytes.len();
        if n < FRM_MARKER_LEN {
            return Err(ConversionError::Deserialization);
        }
        let ghost s = bytes@;
        let v1_1 = starts_with_marker(bytes);
        if v1_1 && n < 16 {
            return Err(ConversionError::Deserialization);
        }
        let start: usize = if v1_1 {
            16
        } else {
            2
        };
        let nf: usize = if v1_1 {
            read_u16(bytes, 12) as usize
        } else {
            bytes[0] as usize
        };
        let nb: usize = if v1_1 {
            read_u16(bytes, 14) as usize
        } else {
            bytes[1] as usize
        };
        let fsize: usize = 9 + 64 * nb;
        assert(nf <= 0xffff && nb <= 0xffff);
        assert((fsize as u64) * (nf as u64) <= 0x100_0000_0000u64) by (nonlinear_arith)
            requires
                fsize <= 9 + 64 * 0xffff,
                nf <= 0xffff,
        ;
        let frames_len: u64 = (fsize as u64) * (nf as u64);
        let tail: u64 = if v1_1 {
            4 * (nf as u64)
        } else {
            0
        };
        assert(frm_z_pos(s) == start + nf * fsize);
        assert(nf * fsize == fsize * nf) by (nonlinear_arith);
        if (n as u64) < start as u64 + frames_len + tail {
            return Err(ConversionError::Deserialization);
        }
        let z_at: usize = start + fsize * nf;
        let mut frames: Vec<Frame> = Vec::new();
        let mut i: usize = 0;
        while i < nf
            invariant
                s == bytes@,
                n == s.len(),
                v1_1 == frm_is_v1_1(s),
                start == frm_frames_pos(s),
                nf == frm_num_frames_of(s),
                nb == frm_num_bones_of(s),
                fsize == frame_size(nb as int),
                z_at == start + fsize * nf,
                z_at + (if v1_1 {
                    4 * nf
                } else {
                    0
                }) <= n,
                i <= nf,
                frames.len() == i,
                forall|k: int|
                    0 <= k < i ==> frame_of(
                        #[trigger] frames@[k],
                        s.subrange(start + fsize * k, start + fsize * k + fsize),
                        nb as int,
                    ),
                forall|k: int|
                    0 <= k < i ==> (#[trigger] frames@[k]).pos_z == if v1_1 {
                        u32_at(s, z_at + 4 * k)
                    } else {
                        0
                    },
            decreases nf - i,
        {
            assert(fsize * i + fsize <= fsize * nf) by (nonlinear_arith)
                requires
                    i < nf,
            ;
            let mut frame = Frame::from_reader(bytes, start + fsize * i, nb);
            if v1_1 {
                frame.pos_z = read_u32(bytes, z_at + 4 * i);
            }
            frames.push(frame);
            i = i + 1;
        }
        let version = if v1_1 {
            FrmVersion::V1_1
        } else {
            FrmVersion::V1_0
        };
        Ok(Frm { version, frames })
    }

    /// Encodes the animation in its version.
    pub fn to_bytes(&self) -> (r: Vec<u8>)
        requires
            frm_wf(*self),
        ensures
            r@ == frm_le(*self),
    {
        let mut out: Vec<u8> = Vec::new();
        let nb = self.num_bones();
        match self.version {
            FrmVersion::V1_0 => {
                out.push(self.frames.len() as u8);
                out.push(nb as u8);
            },
            FrmVersion::V1_1 => {
                out = marker_bytes();
                write_u16(&mut out, self.frames.len() as u16);
                write_u16(&mut out, nb as u16);
            },
        }
        let ghost start = out@;
        let mut i: usize = 0;
        while i < self.frames.len()
            invariant
                i <= self.frames@.len(),
                out@ == start + flatten(self.frames@.take(i as int), frame_enc()),
            decreases self.frames.len() - i,
        {
            self.frames[i].into_bytes(&mut out);
            proof {
                lemma_flatten_push(self.frames@, frame_enc(), i as int);
            }
            i = i + 1;
        }
        assert(self.frames@.take(i as int) =~= self.frames@);
        if self.version == FrmVersion::V1_1 {
            let ghost mid = out@;
            let mut i: usize = 0;
            while i < self.frames.len()
                invariant
                    i <= self.frames@.len(),
                    out@ == mid + flatten(self.frames@.take(i as int), z_enc()),
                decreases self.frames.len() - i,
            {
                write_u32(&mut out, self.frames[i].pos_z);
                proof {
                    lemma_flatten_push(self.frames@, z_enc(), i as int);
                }
                i = i + 1;
            }
            assert(self.frames@.take(i as int) =~= self.frames@);
        }
        proof {
            reveal(frm_le);
            if self.version == FrmVersion::V1_0 {
                assert(start =~= seq![self.frames.len() as u8, frm_num_bones(*self) as u8]);
            }
        }
        out
    }
}


// ---------------------------------------------------------------------------
// Round trip.

proof fn lemma_matrix_round_trip(m: Vec<u32>)
    requires
        m@.len() == 16,
    ensures
        matrix_of(matrix_le(m)) == m@,
{
    let e = matrix_le(m);
    lemma_flatten_fixed(m@, u32_enc(), 4);
    assert(e.subrange(0, 64) =~= e);
    assert forall|k: int| 0 <= k < 16 implies #[trigger] matrix_of(e)[k] == m@[k] by {
        lemma_flatten_item(e, 0, m@, u32_enc(), 4, k);
        lemma_u32_at_sub(e, 4 * k, m@[k]);
    }
    assert(matrix_of(e) =~= m@);
}

proof fn lemma_frame_round_trip(f: Frame, g: Frame, nb: int)
    requires
        f.bones.len() == nb,
        forall|j: int| 0 <= j < nb ==> (#[trigger] f.bones@[j])@.len() == 16,
        frame_of(g, frame_le(f), nb),
    ensures
        g.option == f.option,
        g.pos_x == f.pos_x,
        g.pos_y == f.pos_y,
        g.bones.len() == f.bones.len(),
        forall|j: int| 0 <= j < nb ==> (#[trigger] g.bones@[j])@ == f.bones@[j]@,
{
    let e = frame_le(f);
    let bones = flatten(f.bones@, matrix_enc());
    let head = seq![f.option] + u32_le(f.pos_x) + u32_le(f.pos_y);
    assert forall|j: int| 0 <= j < f.bones.len() implies (#[trigger] matrix_enc()(
        f.bones@[j],
    )).len() == 64 by {
        lemma_flatten_fixed(f.bones@[j]@, u32_enc(), 4);
    }
    lemma_flatten_fixed(f.bones@, matrix_enc(), 64);
    lemma_concat_suffix(head, bones);
    assert(e.subrange(1, 5) =~= u32_le(f.pos_x));
    lemma_u32_at_sub(e, 1, f.pos_x);
    assert(e.subrange(5, 9) =~= u32_le(f.pos_y));
    lemma_u32_at_sub(e, 5, f.pos_y);
    assert forall|j: int| 0 <= j < nb implies (#[trigger] g.bones@[j])@ == f.bones@[j]@ by {
        lemma_flatten_item(e, 9, f.bones@, matrix_enc(), 64, j);
        lemma_matrix_round_trip(f.bones@[j]);
    }
}

/// `g` holds the same version and frames as `f`.
pub open spec fn same_animation(f: Frm, g: Frm) -> bool {
    &&& g.version == f.version
    &&& g.frames.len() == f.frames.len()
    &&& forall|i: int|
        #![trigger g.frames@[i]]
        0 <= i < f.frames.len() ==> {
            let (a, b) = (f.frames@[i], g.frames@[i]);
            &&& b.option == a.option
            &&& b.pos_x == a.pos_x
            &&& b.pos_y == a.pos_y
            &&& b.pos_z == a.pos_z
            &&& b.bones.len() == a.bones.len()
            &&& forall|j: int| 0 <= j < a.bones.len() ==> (#[trigger] b.bones@[j])@ == a.bones@[j]@
        }
}

/// Where the parts of an encoded animation lie.
proof fn lemma_frm_layout(f: Frm)
    requires
        frm_wf(f),
        f.version == FrmVersion::V1_0 ==> frm_le(f).len() >= 12 && !frm_is_v1_1(frm_le(f)),
    ensures
        ({
            let e = frm_le(f);
            let nf = f.frames.len() as int;
            let nb = frm_num_bones(f);
            let fs = frame_size(nb);
            let p0 = if f.version == FrmVersion::V1_1 {
                16int
            } else {
                2
            };
            &&& frm_is_v1_1(e) == (f.version == FrmVersion::V1_1)
            &&& frm_frames_pos(e) == p0
            &&& frm_num_frames_of(e) == nf
            &&& frm_num_bones_of(e) == nb
            &&& fs * nf == nf * fs
            &&& e.subrange(p0, p0 + fs * nf) == flatten(f.frames@, frame_enc())
            &&& f.version == FrmVersion::V1_1 ==> e.len() == p0 + fs * nf + 4 * nf && e.subrange(
                p0 + fs * nf,
                p0 + fs * nf + 4 * nf,
            ) == flatten(f.frames@, z_enc())
            &&& f.version == FrmVersion::V1_0 ==> e.len() == p0 + fs * nf
            &&& forall|i: int|
                0 <= i < nf ==> (#[trigger] frame_enc()(f.frames@[i])).len() == fs
        }),
{
    reveal(frm_le);
    let e = frm_le(f);
    let nf = f.frames.len() as int;
    let nb = frm_num_bones(f);
    let fs = frame_size(nb);
    let frames = flatten(f.frames@, frame_enc());
    assert forall|i: int| 0 <= i < nf implies (#[trigger] frame_enc()(f.frames@[i])).len()
        == fs by {
        let fr = f.frames@[i];
        assert forall|j: int| 0 <= j < fr.bones.len() implies (#[trigger] matrix_enc()(
            fr.bones@[j],
        )).len() == 64 by {
            lemma_flatten_fixed(fr.bones@[j]@, u32_enc(), 4);
        }
        lemma_flatten_fixed(fr.bones@, matrix_enc(), 64);
    }
    lemma_flatten_fixed(f.frames@, frame_enc(), fs as nat);
    assert(fs * nf == nf * fs) by (nonlinear_arith);
    if f.version == FrmVersion::V1_1 {
        let zs = flatten(f.frames@, z_enc());
        lemma_flatten_fixed(f.frames@, z_enc(), 4);
        let h = frm_marker() + u16_le(nf as u16) + u16_le(nb as u16);
        assert(e == h + frames + zs);
        lemma_concat_prefix(h + frames, zs, 0, 16);
        lemma_concat_prefix(h, frames, 0, 16);
        assert(e.subrange(0, 16) == h.subrange(0, 16));
        assert(e.subrange(0, 12) =~= h.subrange(0, 12));
        assert(h.subrange(0, 12) =~= frm_marker());
        assert(h =~= frm_marker() + u16_le(nf as u16) + (u16_le(nb as u16) + frames + zs).subrange(
            0,
            2,
        ));
        assert(e =~= frm_marker() + u16_le(nf as u16) + (u16_le(nb as u16) + frames + zs));
        lemma_u16_at(frm_marker(), nf as u16, u16_le(nb as u16) + frames + zs);
        assert(e =~= (frm_marker() + u16_le(nf as u16)) + u16_le(nb as u16) + (frames + zs));
        lemma_u16_at(frm_marker() + u16_le(nf as u16), nb as u16, frames + zs);
        lemma_concat_suffix(h, frames);
        lemma_concat_prefix(h + frames, zs, 16, 16 + fs * nf);
        lemma_concat_suffix(h + frames, zs);
    } else {
        let h = seq![nf as u8, nb as u8];
        assert(e == h + frames);
        lemma_concat_suffix(h, frames);
    }
}

/// An animation decoded from bytes, encoded again in its version, decodes
/// again. A version 1.0 encoding must not be shorter than the marker nor start
/// with it, or it would not decode as version 1.0.
pub proof fn lemma_frm_reencode_decodes(bytes: Seq<u8>, f: Frm)
    requires
        frm_complete(bytes),
        frm_of(f, bytes),
        f.version == FrmVersion::V1_0 ==> frm_le(f).len() >= 12 && !frm_is_v1_1(frm_le(f)),
    ensures
        frm_wf(f),
        frm_complete(frm_le(f)),
{
    let nf = f.frames.len() as int;
    let nbs = frm_num_bones_of(bytes);
    assert(nf <= 0xffff && nbs <= 0xffff);
    if nf > 0 {
        assert(frm_num_bones(f) == nbs);
    }
    assert forall|i: int, j: int| 0 <= i < nf && 0 <= j < frm_num_bones(f) implies (
    #[trigger] f.frames@[i].bones@[j])@.len() == 16 by {
        assert(frame_of(
            f.frames@[i],
            bytes.subrange(
                frm_frames_pos(bytes) + frame_size(nbs) * i,
                frm_frames_pos(bytes) + frame_size(nbs) * i + frame_size(nbs),
            ),
            nbs,
        ));
    }
    assert(frm_wf(f));
    lemma_frm_layout(f);
}

/// An animation decoded from bytes, encoded again in its version, decodes to
/// the same version and frames. A version 1.0 encoding must not be shorter
/// than the marker nor start with it, or it would not decode as version 1.0.
#[verifier::rlimit(40)]
pub proof fn lemma_frm_round_trip(bytes: Seq<u8>, f: Frm, g: Frm)
    requires
        frm_complete(bytes),
        frm_of(f, bytes),
        f.version == FrmVersion::V1_0 ==> frm_le(f).len() >= 12 && !frm_is_v1_1(frm_le(f)),
        frm_of(g, frm_le(f)),
    ensures
        frm_wf(f),
        frm_complete(frm_le(f)),
        same_animation(f, g),
{
    lemma_frm_reencode_decodes(bytes, f);
    let nf = f.frames.len() as int;
    lemma_frm_layout(f);
    let e = frm_le(f);
    let nb = frm_num_bones(f);
    let fs = frame_size(nb);
    let p0 = frm_frames_pos(e);
    assert forall|i: int| 0 <= i < nf implies {
        let (a, b) = (f.frames@[i], #[trigger] g.frames@[i]);
        &&& b.option == a.option
        &&& b.pos_x == a.pos_x
        &&& b.pos_y == a.pos_y
        &&& b.pos_z == a.pos_z
        &&& b.bones.len() == a.bones.len()
        &&& forall|j: int| 0 <= j < a.bones.len() ==> (#[trigger] b.bones@[j])@ == a.bones@[j]@
    } by {
        assert(fs * nf <= e.len()) by (nonlinear_arith)
            requires
                e.len() >= p0 + fs * nf,
                p0 >= 0,
        ;
        lemma_flatten_item(e, p0, f.frames@, frame_enc(), fs as nat, i);
        let fr = f.frames@[i];
        assert(fr.bones.len() == nb);
        lemma_frame_round_trip(fr, g.frames@[i], nb);
        if f.version == FrmVersion::V1_1 {
            lemma_flatten_fixed(f.frames@, z_enc(), 4);
            lemma_flatten_item(e, p0 + fs * nf, f.frames@, z_enc(), 4, i);
            lemma_u32_at_sub(e, p0 + fs * nf + 4 * i, fr.pos_z);
        }
    }
}


// ---------------------------------------------------------------------------
// Byte for byte.

/// The length that the counts of `s` call for.
pub open spec fn frm_end(s: Seq<u8>) -> int {
    frm_z_pos(s) + if frm_is_v1_1(s) {
        4 * frm_num_frames_of(s)
    } else {
        0
    }
}

proof fn lemma_matrix_bytes(r: Seq<u8>)
    requires
        r.len() == 64,
    ensures
        flatten(matrix_of(r), u32_enc()) == r,
{
    assert forall|k: int| 0 <= k < 16 implies #[trigger] u32_enc()(matrix_of(r)[k]) == r.subrange(
        4 * k,
        4 * k + 4,
    ) by {
        lemma_u32_bytes(r, 4 * k);
    }
    lemma_flatten_chunks(matrix_of(r), u32_enc(), 4, r);
}

proof fn lemma_frame_bytes(fr: Frame, r: Seq<u8>, nb: int)
    requires
        0 <= nb,
        r.len() == frame_size(nb),
        frame_of(fr, r, nb),
    ensures
        frame_le(fr) == r,
{
    let tail = r.subrange(9, 9 + 64 * nb);
    assert forall|j: int| 0 <= j < fr.bones.len() implies #[trigger] matrix_enc()(fr.bones@[j])
        == tail.subrange(64 * j, 64 * j + 64) by {
        assert(tail.subrange(64 * j, 64 * j + 64) =~= r.subrange(9 + 64 * j, 9 + 64 * j + 64));
        lemma_matrix_bytes(r.subrange(9 + 64 * j, 9 + 64 * j + 64));
    }
    lemma_flatten_chunks(fr.bones@, matrix_enc(), 64, tail);
    lemma_u32_bytes(r, 1);
    lemma_u32_bytes(r, 5);
    assert(frame_le(fr) =~= r);
}

/// A file whose length is what its counts call for, and which counts no bones
/// when it has no frames, is encoded again byte for byte.
pub proof fn lemma_frm_canonical_reencode(bytes: Seq<u8>, f: Frm)
    requires
        frm_complete(bytes),
        frm_of(f, bytes),
        bytes.len() == frm_end(bytes),
        frm_num_frames_of(bytes) == 0 ==> frm_num_bones_of(bytes) == 0,
    ensures
        frm_le(f) == bytes,
{
    reveal(frm_le);
    let nf = frm_num_frames_of(bytes);
    let nb = frm_num_bones_of(bytes);
    let fs = frame_size(nb);
    let p0 = frm_frames_pos(bytes);
    let z0 = frm_z_pos(bytes);
    assert(nb >= 0 && nf >= 0);
    if nf > 0 {
        assert(frm_num_bones(f) == nb);
    }
    assert(nf * fs == fs * nf) by (nonlinear_arith);
    assert(0 <= fs * nf) by (nonlinear_arith)
        requires
            0 <= nf,
            0 <= fs,
    ;
    let frames = bytes.subrange(p0, p0 + fs * nf);
    assert forall|i: int| 0 <= i < f.frames.len() implies #[trigger] frame_enc()(f.frames@[i])
        == frames.subrange(fs * i, fs * i + fs) by {
        assert(fs * i + fs <= fs * nf) by (nonlinear_arith)
            requires
                i < nf,
                0 <= fs,
        ;
        assert(0 <= fs * i) by (nonlinear_arith)
            requires
                0 <= i,
                0 <= fs,
        ;
        assert(frames.subrange(fs * i, fs * i + fs) =~= bytes.subrange(p0 + fs * i, p0 + fs * i + fs));
        lemma_frame_bytes(f.frames@[i], bytes.subrange(p0 + fs * i, p0 + fs * i + fs), nb);
    }
    lemma_flatten_chunks(f.frames@, frame_enc(), fs as nat, frames);
    if frm_is_v1_1(bytes) {
        let zs = bytes.subrange(z0, z0 + 4 * nf);
        assert forall|i: int| 0 <= i < f.frames.len() implies #[trigger] z_enc()(f.frames@[i])
            == zs.subrange(4 * i, 4 * i + 4) by {
            assert(zs.subrange(4 * i, 4 * i + 4) =~= bytes.subrange(z0 + 4 * i, z0 + 4 * i + 4));
            lemma_u32_bytes(bytes, z0 + 4 * i);
        }
        lemma_flatten_chunks(f.frames@, z_enc(), 4, zs);
        lemma_u16_bytes(bytes, 12);
        lemma_u16_bytes(bytes, 14);
        assert(bytes =~= bytes.subrange(0, 12) + bytes.subrange(12, 14) + bytes.subrange(14, 16)
            + frames + zs);
    } else {
        assert(bytes =~= seq![bytes[0], bytes[1]] + frames);
    }
}

} // verus!
