//! Conversion between `.frm` frames and scene keyframes. The file stores the
//! root's x as an offset from the previous frame and its y and z as positions;
//! keyframes hold the position on every axis.

use vstd::prelude::*;

use crate::frm::{Frame, Frm, FrmVersion};
use crate::geometry::{add_float, float_difference, float_sum, sub_float, Vec3};
use crate::scene::{Animation, Keyframe};

verus! {

/// The root's x position at frame `k - 1`: the sum of the first `k` offsets,
/// starting from `+0.0`.
pub open spec fn accumulated_x(frames: Seq<Frame>, k: int) -> u32
    decreases k,
{
    if k <= 0 {
        0
    } else {
        float_sum(accumulated_x(frames, k - 1), frames[k - 1].pos_x)
    }
}

/// The matrices of `m`, one by one.
pub open spec fn same_matrices(a: Seq<Vec<u32>>, b: Seq<Vec<u32>>) -> bool {
    a.len() == b.len() && forall|j: int| 0 <= j < a.len() ==> (#[trigger] a[j])@ == b[j]@
}

pub fn copy_matrices(m: &Vec<Vec<u32>>) -> (r: Vec<Vec<u32>>)
    ensures
        same_matrices(r@, m@),
{
    let mut out: Vec<Vec<u32>> = Vec::new();
    let mut j: usize = 0;
    while j < m.len()
        invariant
            j <= m@.len(),
            out.len() == j,
            forall|k: int| 0 <= k < j ==> (#[trigger] out@[k])@ == m@[k]@,
        decreases m.len() - j,
    {
        let source = &m[j];
        let mut copy: Vec<u32> = Vec::new();
        let mut k: usize = 0;
        while k < source.len()
            invariant
                k <= source@.len(),
                copy@ == source@.take(k as int),
            decreases source.len() - k,
        {
            copy.push(source[k]);
            k = k + 1;
            assert(copy@ =~= source@.take(k as int));
        }
        assert(source@.take(k as int) =~= source@);
        out.push(copy);
        j = j + 1;
    }
    out
}

/// Turns frames into keyframes: x accumulates the offsets, y and z are taken
/// as they are, and each bone matrix becomes a joint transform.
pub fn convert_frames(frm: &Frm) -> (r: Vec<Keyframe>)
    ensures
        r.len() == frm.frames.len(),
        forall|i: int|
            0 <= i < r.len() ==> {
                &&& (#[trigger] r@[i]).translation == (Vec3 {
                    x: accumulated_x(frm.frames@, i + 1),
                    y: frm.frames@[i].pos_y,
                    z: frm.frames@[i].pos_z,
                })
                &&& same_matrices(r@[i].transforms@, frm.frames@[i].bones@)
            },
{
    let mut out: Vec<Keyframe> = Vec::new();
    let mut x: u32 = 0;
    let mut i: usize = 0;
    while i < frm.frames.len()
        invariant
            i <= frm.frames@.len(),
            out.len() == i,
            x == accumulated_x(frm.frames@, i as int),
            forall|k: int|
                0 <= k < i ==> {
                    &&& (#[trigger] out@[k]).translation == (Vec3 {
                        x: accumulated_x(frm.frames@, k + 1),
                        y: frm.frames@[k].pos_y,
                        z: frm.frames@[k].pos_z,
                    })
                    &&& same_matrices(out@[k].transforms@, frm.frames@[k].bones@)
                },
        decreases frm.frames.len() - i,
    {
        let frame = &frm.frames[i];
        x = add_float(x, frame.pos_x);
        out.push(
            Keyframe {
                translation: Vec3 { x, y: frame.pos_y, z: frame.pos_z },
                transforms: copy_matrices(&frame.bones),
            },
        );
        i = i + 1;
    }
    out
}

/// Turns keyframes into version 1.1 frames: x becomes the offset from the
/// previous keyframe (from `+0.0` for the first), y and z are kept.
pub fn export_frames(animation: &Animation) -> (r: Frm)
    ensures
        r.version == FrmVersion::V1_1,
        r.frames.len() == animation.frames.len(),
        forall|i: int|
            0 <= i < r.frames.len() ==> {
                let k = animation.frames@[i];
                &&& (#[trigger] r.frames@[i]).option == 0
                &&& r.frames@[i].pos_x == float_difference(
                    k.translation.x,
                    if i == 0 {
                        0u32
                    } else {
                        animation.frames@[i - 1].translation.x
                    },
                )
                &&& r.frames@[i].pos_y == k.translation.y
                &&& r.frames@[i].pos_z == k.translation.z
                &&& same_matrices(r.frames@[i].bones@, k.transforms@)
            },
{
    let mut frames: Vec<Frame> = Vec::new();
    let mut prev: u32 = 0;
    let mut i: usize = 0;
    while i < animation.frames.len()
        invariant
            i <= animation.frames@.len(),
            frames.len() == i,
            prev == if i == 0 {
                0u32
            } else {
                animation.frames@[i - 1].translation.x
            },
            forall|m: int|
                0 <= m < i ==> {
                    let k = animation.frames@[m];
                    &&& (#[trigger] frames@[m]).option == 0
                    &&& frames@[m].pos_x == float_difference(
                        k.translation.x,
                        if m == 0 {
                            0u32
                        } else {
                            animation.frames@[m - 1].translation.x
                        },
                    )
                    &&& frames@[m].pos_y == k.translation.y
                    &&& frames@[m].pos_z == k.translation.z
                    &&& same_matrices(frames@[m].bones@, k.transforms@)
                },
        decreases animation.frames.len() - i,
    {
        let key = &animation.frames[i];
        frames.push(
            Frame {
                option: 0,
                pos_x: sub_float(key.translation.x, prev),
                pos_y: key.translation.y,
                pos_z: key.translation.z,
                bones: copy_matrices(&key.transforms),
            },
        );
        prev = key.translation.x;
        i = i + 1;
    }
    Frm { version: FrmVersion::V1_1, frames }
}

} // verus!
