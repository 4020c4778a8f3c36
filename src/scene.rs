//! The scene that every format is converted through: meshes, one skeleton of
//! translation-only joints, and keyframe animations. It uses a left-handed,
//! Y-up coordinate system.

use vstd::prelude::*;

use crate::geometry::{add_vec3, vec3_sum, Vec2, Vec3};

verus! {

/// A node of the skeleton. It carries a translation only.
#[derive(Clone, Debug, PartialEq)]
pub struct Joint {
    /// The translation relative to the parent.
    pub translation: Vec3,
    /// The index of the parent in the skeleton.
    pub parent: Option<usize>,
    /// The indices of the children in the skeleton; at most ten.
    pub children: Vec<usize>,
}

/// A vertex bound to at most one joint, with full weight.
#[derive(Clone, Copy, Debug, PartialEq, Eq, Structural)]
pub struct Vertex {
    pub position: Vec3,
    pub normal: Vec3,
    pub uv: Vec2,
    pub joint: Option<usize>,
}

/// A triangle mesh: three indices per face, clockwise.
#[derive(Clone, Debug, PartialEq)]
pub struct Mesh {
    pub name: String,
    pub vertices: Vec<Vertex>,
    pub indices: Vec<usize>,
}

/// One frame of an animation.
#[derive(Clone, Debug, PartialEq)]
pub struct Keyframe {
    /// The translation of the whole skeleton.
    pub translation: Vec3,
    /// One matrix of 16 components, column by column, per joint.
    pub transforms: Vec<Vec<u32>>,
}

/// A keyframe animation, sampled at a fixed rate.
#[derive(Clone, Debug, PartialEq)]
pub struct Animation {
    pub name: String,
    pub frames: Vec<Keyframe>,
}

/// Meshes, a skeleton and animations.
#[derive(Clone, Debug, PartialEq)]
pub struct Scene {
    pub meshes: Vec<Mesh>,
    pub skeleton: Vec<Joint>,
    pub animations: Vec<Animation>,
}

/// The bits of `1.0`.
pub const ONE_BITS: u32 = 0x3f80_0000;

/// The column-major matrix that moves a point by `t`.
pub open spec fn translation_matrix(t: Vec3) -> Seq<u32> {
    seq![
        ONE_BITS,
        0u32,
        0u32,
        0u32,
        0u32,
        ONE_BITS,
        0u32,
        0u32,
        0u32,
        0u32,
        ONE_BITS,
        0u32,
        t.x,
        t.y,
        t.z,
        ONE_BITS,
    ]
}

/// The frame rate of every animation.
pub const SAMPLING_RATE: u32 = 55;

impl Joint {
    /// A root joint at the origin without children.
    pub fn new() -> (r: Joint)
        ensures
            r.translation == (Vec3 { x: 0, y: 0, z: 0 }),
            r.parent.is_none(),
            r.children@.len() == 0,
    {
        Joint { translation: Vec3 { x: 0, y: 0, z: 0 }, parent: None, children: Vec::new() }
    }
}

/// Every parent index of `skeleton` names one of its joints.
pub open spec fn parents_valid(skeleton: Seq<Joint>) -> bool {
    forall|i: int|
        0 <= i < skeleton.len() ==> match (#[trigger] skeleton[i]).parent {
            Some(p) => p < skeleton.len(),
            None => true,
        }
}

/// Every joint index of the scene names a joint of its skeleton: parents,
/// children, and the joints of mesh vertices.
pub open spec fn scene_wf(s: Scene) -> bool {
    &&& parents_valid(s.skeleton@)
    &&& forall|i: int, k: int|
        0 <= i < s.skeleton.len() && 0 <= k < s.skeleton@[i].children.len() ==> (
        #[trigger] s.skeleton@[i].children@[k]) < s.skeleton.len()
    &&& forall|m: int, v: int|
        0 <= m < s.meshes.len() && 0 <= v < s.meshes@[m].vertices.len() ==> match (
        #[trigger] s.meshes@[m].vertices@[v]).joint {
            Some(j) => j < s.skeleton.len(),
            None => true,
        }
}

/// `acc` plus the translations of joint `i`'s ancestors, nearest first, over at
/// most `steps` of them.
pub open spec fn ancestors_sum(skeleton: Seq<Joint>, i: int, acc: Vec3, steps: nat) -> Vec3
    decreases steps,
{
    if steps == 0 {
        acc
    } else {
        match skeleton[i].parent {
            None => acc,
            Some(p) => ancestors_sum(
                skeleton,
                p as int,
                vec3_sum(acc, skeleton[p as int].translation),
                (steps - 1) as nat,
            ),
        }
    }
}

/// The translation of joint `i` from the scene's origin: its own translation
/// plus those of its ancestors. A walk up a tree never takes more steps than
/// there are joints.
pub open spec fn world_translation(skeleton: Seq<Joint>, i: int) -> Vec3 {
    ancestors_sum(skeleton, i, skeleton[i].translation, skeleton.len())
}

/// The translation of joint `index` of `skeleton` relative to the origin.
pub fn skeleton_world_translation(skeleton: &Vec<Joint>, index: usize) -> (r: Vec3)
    requires
        index < skeleton.len(),
        parents_valid(skeleton@),
    ensures
        r == world_translation(skeleton@, index as int),
{
    let ghost sk = skeleton@;
    let mut current = index;
    let mut translation = skeleton[index].translation;
    let mut steps = skeleton.len();
    while steps > 0
        invariant
            sk == skeleton@,
            parents_valid(sk),
            current < sk.len(),
            steps <= sk.len(),
            ancestors_sum(sk, current as int, translation, steps as nat) == world_translation(
                sk,
                index as int,
            ),
        decreases steps,
    {
        match skeleton[current].parent {
            None => {
                return translation;
            },
            Some(p) => {
                translation = add_vec3(translation, skeleton[p].translation);
                current = p;
                steps = steps - 1;
            },
        }
    }
    translation
}


impl Scene {
    pub fn new() -> (r: Scene)
        ensures
            scene_wf(r),
            r.meshes@.len() == 0,
            r.skeleton@.len() == 0,
            r.animations@.len() == 0,
    {
        Scene { meshes: Vec::new(), skeleton: Vec::new(), animations: Vec::new() }
    }

    /// The translation of joint `index` relative to the scene's origin.
    pub fn joint_world_translation(&self, index: usize) -> (r: Vec3)
        requires
            index < self.skeleton.len(),
            parents_valid(self.skeleton@),
        ensures
            r == world_translation(self.skeleton@, index as int),
    {
        skeleton_world_translation(&self.skeleton, index)
    }

    /// The transform of joint `index` relative to the scene's origin, column by
    /// column. Joints carry no rotation, so it is the move by the joint's world
    /// translation.
    pub fn joint_world_transform(&self, index: usize) -> (r: Vec<u32>)
        requires
            index < self.skeleton.len(),
            parents_valid(self.skeleton@),
        ensures
            r@ == translation_matrix(world_translation(self.skeleton@, index as int)),
    {
        let t = skeleton_world_translation(&self.skeleton, index);
        let r: Vec<u32> = vec![
            ONE_BITS, 0, 0, 0, 0, ONE_BITS, 0, 0, 0, 0, ONE_BITS, 0, t.x, t.y, t.z, ONE_BITS,
        ];
        assert(r@ =~= translation_matrix(t));
        r
    }

    /// Merges `other` into this scene: the meshes and animations of both, in
    /// order, and the first non-empty skeleton of the two.
    pub fn merge(self, other: Scene) -> (r: Scene)
        ensures
            r.skeleton == (if self.skeleton@.len() == 0 {
                other.skeleton
            } else {
                self.skeleton
            }),
            r.meshes@ == self.meshes@ + other.meshes@,
            r.animations@ == self.animations@ + other.animations@,
    {
        let mut this = self;
        let mut other = other;
        if this.skeleton.len() == 0 {
            this.skeleton = other.skeleton;
        }
        this.meshes.append(&mut other.meshes);
        this.animations.append(&mut other.animations);
        this
    }
}

impl Animation {
    /// The transforms of each joint over the frames: entry `j` holds every
    /// frame's transform `j`. Every frame must have as many transforms.
    pub fn joints(&self) -> (r: Vec<Vec<Vec<u32>>>)
        requires
            forall|f: int|
                0 <= f < self.frames.len() ==> (#[trigger] self.frames@[f]).transforms.len()
                    == self.frames@[0].transforms.len(),
        ensures
            r.len() == (if self.frames.len() == 0 {
                0
            } else {
                self.frames@[0].transforms.len() as int
            }),
            forall|j: int|
                0 <= j < r.len() ==> (#[trigger] r@[j]).len() == self.frames.len() && forall|f: int|
                    0 <= f < self.frames.len() ==> (#[trigger] r@[j]@[f])@
                        == self.frames@[f].transforms@[j]@,
    {
        let mut result: Vec<Vec<Vec<u32>>> = Vec::new();
        if self.frames.len() == 0 {
            return result;
        }
        let count = self.frames[0].transforms.len();
        let mut j: usize = 0;
        while j < count
            invariant
                count == self.frames@[0].transforms.len(),
                self.frames.len() > 0,
                forall|f: int|
                    0 <= f < self.frames.len() ==> (#[trigger] self.frames@[f]).transforms.len()
                        == count,
                j <= count,
                result.len() == j,
                forall|k: int|
                    0 <= k < j ==> (#[trigger] result@[k]).len() == self.frames.len() && forall|f: int|
                        0 <= f < self.frames.len() ==> (#[trigger] result@[k]@[f])@
                            == self.frames@[f].transforms@[k]@,
            decreases count - j,
        {
            let mut track: Vec<Vec<u32>> = Vec::new();
            let mut f: usize = 0;
            while f < self.frames.len()
                invariant
                    j < count,
                    forall|g: int|
                        0 <= g < self.frames.len() ==> (#[trigger] self.frames@[g]).transforms.len()
                            == count,
                    f <= self.frames.len(),
                    track.len() == f,
                    forall|g: int| 0 <= g < f ==> (#[trigger] track@[g])@ == self.frames@[g].transforms@[j as int]@,
                decreases self.frames.len() - f,
            {
                let source = &self.frames[f].transforms[j];
                let mut copy: Vec<u32> = Vec::new();
                let mut k: usize = 0;
                while k < source.len()
                    invariant
                        k <= source@.len(),
                        copy@ == source@.take(k as int),
                    decreases source.len() - k,
                {
                    copy.push(source[k]);
                    k = k + 1;
                    assert(copy@ =~= source@.take(k as int));
                }
                assert(source@.take(k as int) =~= source@);
                track.push(copy);
                f = f + 1;
            }
            result.push(track);
            j = j + 1;
        }
        result
    }

    /// The frame rate, in frames per second.
    pub fn sampling_rate(&self) -> (r: u32)
        ensures
            r == SAMPLING_RATE,
    {
        SAMPLING_RATE
    }
}

} // verus!
