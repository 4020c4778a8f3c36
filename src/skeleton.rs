//! Conversion between the `.p3m` two-list bone encoding and the scene's single
//! joint tree.
//!
//! A position bone translates the angle bones it lists; an angle bone lists
//! position bones as its children. A joint is made of each angle bone, its
//! children are the angle bones reached through one position bone, and its
//! parent is whoever lists it as a child.

use vstd::prelude::*;

use crate::convert::ConversionError;
use crate::geometry::{zero3, Vec3};
use crate::p3m::{AngleBone, PositionBone, INVALID_BONE_INDEX, MAX_NUM_BONES};
use crate::scene::Joint;

verus! {

/// `children` lists `c`.
pub open spec fn lists(children: Seq<u8>, c: int) -> bool {
    exists|j: int| 0 <= j < children.len() && children[j] as int == c
}

/// The translation of angle bone `c`: that of the last position bone listing
/// it, or zero.
pub open spec fn bone_translation(position_bones: Seq<PositionBone>, c: int) -> Vec3
    decreases position_bones.len(),
{
    if position_bones.len() == 0 {
        zero3()
    } else if lists(position_bones.last().children@, c) {
        position_bones.last().position
    } else {
        bone_translation(position_bones.drop_last(), c)
    }
}

pub open spec fn widen(s: Seq<u8>) -> Seq<usize> {
    s.map_values(|b: u8| b as usize)
}

/// The angle bones reached from the position bones `through`, in order.
pub open spec fn squashed_children(position_bones: Seq<PositionBone>, through: Seq<u8>) -> Seq<
    usize,
>
    decreases through.len(),
{
    if through.len() == 0 {
        seq![]
    } else {
        squashed_children(position_bones, through.drop_last()) + widen(
            position_bones[through.last() as int].children@,
        )
    }
}

/// The last of the first `n` joints whose children hold `c`.
pub open spec fn last_parent(children: spec_fn(int) -> Seq<usize>, n: int, c: int) -> Option<
    usize,
>
    decreases n,
{
    if n <= 0 {
        None
    } else if children(n - 1).contains(c as usize) {
        Some((n - 1) as usize)
    } else {
        last_parent(children, n - 1, c)
    }
}

/// Every index that one list gives into the other is in range.
pub open spec fn bones_valid(position_bones: Seq<PositionBone>, angle_bones: Seq<AngleBone>) -> bool {
    &&& forall|i: int, j: int|
        0 <= i < position_bones.len() && 0 <= j < position_bones[i].children.len() ==> (
        #[trigger] position_bones[i].children@[j]) < angle_bones.len()
    &&& forall|i: int, j: int|
        0 <= i < angle_bones.len() && 0 <= j < angle_bones[i].children.len() ==> (
        #[trigger] angle_bones[i].children@[j]) < position_bones.len()
}

/// `joints` is the tree that the two bone lists describe.
pub open spec fn joints_of(
    joints: Seq<Joint>,
    position_bones: Seq<PositionBone>,
    angle_bones: Seq<AngleBone>,
) -> bool {
    &&& joints.len() == angle_bones.len()
    &&& forall|i: int|
        0 <= i < joints.len() ==> {
            &&& (#[trigger] joints[i]).translation == bone_translation(position_bones, i)
            &&& joints[i].children@ == squashed_children(position_bones, angle_bones[i].children@)
            &&& joints[i].parent == last_parent(
                |k: int| squashed_children(position_bones, angle_bones[k].children@),
                joints.len() as int,
                i,
            )
        }
}

fn list_has(children: &Vec<u8>, c: usize) -> (r: bool)
    ensures
        r == lists(children@, c as int),
{
    let mut k: usize = 0;
    while k < children.len()
        invariant
            k <= children@.len(),
            forall|j: int| 0 <= j < k ==> children@[j] as int != c,
        decreases children.len() - k,
    {
        if children[k] as usize == c {
            return true;
        }
        k = k + 1;
    }
    false
}

/// Builds the joint tree from the two bone lists. It fails when a bone lists
/// an index that the other list does not have.
pub fn convert_joints(position_bones: &Vec<PositionBone>, angle_bones: &Vec<AngleBone>) -> (r:
    Result<Vec<Joint>, ConversionError>)
    ensures
        r is Ok <==> bones_valid(position_bones@, angle_bones@),
        r matches Ok(joints) ==> joints_of(joints@, position_bones@, angle_bones@),
        r matches Err(e) ==> e == ConversionError::Deserialization,
{
    let ghost pbs = position_bones@;
    let ghost abs = angle_bones@;
    let np = position_bones.len();
    let na = angle_bones.len();

    // Check every index.
    let mut i: usize = 0;
    while i < np
        invariant
            pbs == position_bones@,
            abs == angle_bones@,
            np == pbs.len(),
            na == abs.len(),
            i <= np,
            forall|a: int, j: int|
                0 <= a < i && 0 <= j < pbs[a].children.len() ==> (#[trigger] pbs[a].children@[j])
                    < na,
        decreases np - i,
    {
        let children = &position_bones[i].children;
        let mut j: usize = 0;
        while j < children.len()
            invariant
                pbs == position_bones@,
                abs == angle_bones@,
                np == pbs.len(),
                na == abs.len(),
                i < np,
                children@ == pbs[i as int].children@,
                j <= children@.len(),
                forall|a: int, k: int|
                    0 <= a < i && 0 <= k < pbs[a].children.len() ==> (
                    #[trigger] pbs[a].children@[k]) < na,
                forall|k: int| 0 <= k < j ==> children@[k] < na,
            decreases children.len() - j,
        {
            if children[j] as usize >= na {
                assert(!bones_valid(pbs, abs)) by {
                    assert(0 <= j < pbs[i as int].children@.len());
                    assert(pbs[i as int].children@[j as int] >= abs.len());
                }
                return Err(ConversionError::Deserialization);
            }
            j = j + 1;
        }
        i = i + 1;
    }
    let mut i: usize = 0;
    while i < na
        invariant
            abs == angle_bones@,
            pbs == position_bones@,
            np == pbs.len(),
            na == abs.len(),
            i <= na,
            forall|a: int, j: int|
                0 <= a < pbs.len() && 0 <= j < pbs[a].children.len() ==> (
                #[trigger] pbs[a].children@[j]) < na,
            forall|a: int, j: int|
                0 <= a < i && 0 <= j < abs[a].children.len() ==> (#[trigger] abs[a].children@[j])
                    < np,
        decreases na - i,
    {
        let children = &angle_bones[i].children;
        let mut j: usize = 0;
        while j < children.len()
            invariant
                abs == angle_bones@,
                pbs == position_bones@,
                np == pbs.len(),
                na == abs.len(),
                i < na,
                children@ == abs[i as int].children@,
                j <= children@.len(),
                forall|a: int, k: int|
                    0 <= a < i && 0 <= k < abs[a].children.len() ==> (
                    #[trigger] abs[a].children@[k]) < np,
                forall|k: int| 0 <= k < j ==> children@[k] < np,
            decreases children.len() - j,
        {
            if children[j] as usize >= np {
                assert(!bones_valid(pbs, abs)) by {
                    assert(0 <= j < abs[i as int].children@.len());
                    assert(abs[i as int].children@[j as int] >= pbs.len());
                }
                return Err(ConversionError::Deserialization);
            }
            j = j + 1;
        }
        i = i + 1;
    }
    assert(bones_valid(pbs, abs));

    // Translations: the last position bone that lists a joint wins.
    let mut translations: Vec<Vec3> = Vec::new();
    let mut c: usize = 0;
    while c < na
        invariant
            pbs == position_bones@,
            na == abs.len(),
            np == pbs.len(),
            c <= na,
            translations.len() == c,
            forall|k: int| 0 <= k < c ==> #[trigger] translations@[k] == bone_translation(pbs, k),
        decreases na - c,
    {
        let mut t = Vec3 { x: 0, y: 0, z: 0 };
        let mut k: usize = 0;
        while k < np
            invariant
                pbs == position_bones@,
                np == pbs.len(),
                k <= np,
                t == bone_translation(pbs.take(k as int), c as int),
            decreases np - k,
        {
            if list_has(&position_bones[k as usize].children, c) {
                t = position_bones[k].position;
            }
            assert(pbs.take(k + 1).drop_last() =~= pbs.take(k as int));
            k = k + 1;
        }
        assert(pbs.take(np as int) =~= pbs);
        translations.push(t);
        c = c + 1;
    }

    // Children: through each listed position bone, its angle bones.
    let mut children: Vec<Vec<usize>> = Vec::new();
    let mut a: usize = 0;
    while a < na
        invariant
            pbs == position_bones@,
            abs == angle_bones@,
            na == abs.len(),
            bones_valid(pbs, abs),
            a <= na,
            children.len() == a,
            forall|k: int|
                0 <= k < a ==> (#[trigger] children@[k])@ == squashed_children(
                    pbs,
                    abs[k].children@,
                ),
        decreases na - a,
    {
        let through = &angle_bones[a].children;
        let mut list: Vec<usize> = Vec::new();
        let mut j: usize = 0;
        while j < through.len()
            invariant
                pbs == position_bones@,
                abs == angle_bones@,
                bones_valid(pbs, abs),
                a < na,
                na == abs.len(),
                through@ == abs[a as int].children@,
                j <= through@.len(),
                list@ == squashed_children(pbs, through@.take(j as int)),
            decreases through.len() - j,
        {
            let x = through[j] as usize;
            let reached = &position_bones[x].children;
            let ghost before = list@;
            let mut k: usize = 0;
            while k < reached.len()
                invariant
                    reached@ == pbs[x as int].children@,
                    k <= reached@.len(),
                    list@ == before + widen(reached@.take(k as int)),
                decreases reached.len() - k,
            {
                list.push(reached[k] as usize);
                k = k + 1;
                assert(list@ =~= before + widen(reached@.take(k as int)));
            }
            assert(reached@.take(k as int) =~= reached@);
            assert(through@.take(j + 1).drop_last() =~= through@.take(j as int));
            j = j + 1;
        }
        assert(through@.take(j as int) =~= through@);
        children.push(list);
        a = a + 1;
    }

    // Parents: the last joint that lists a joint as its child.
    let ghost kids = |k: int| squashed_children(pbs, abs[k].children@);
    let mut joints: Vec<Joint> = Vec::new();
    let mut c: usize = 0;
    while c < na
        invariant
            pbs == position_bones@,
            abs == angle_bones@,
            na == abs.len(),
            children.len() == na,
            translations.len() == na,
            forall|k: int| 0 <= k < na ==> (#[trigger] children@[k])@ == kids(k),
            forall|k: int| 0 <= k < na ==> #[trigger] translations@[k] == bone_translation(pbs, k),
            c <= na,
            joints.len() == c,
            forall|k: int|
                0 <= k < c ==> {
                    &&& (#[trigger] joints@[k]).translation == bone_translation(pbs, k)
                    &&& joints@[k].children@ == kids(k)
                    &&& joints@[k].parent == last_parent(kids, na as int, k)
                },
        decreases na - c,
    {
        let mut parent: Option<usize> = None;
        let mut k: usize = 0;
        while k < na
            invariant
                children.len() == na,
                forall|m: int| 0 <= m < na ==> (#[trigger] children@[m])@ == kids(m),
                k <= na,
                parent == last_parent(kids, k as int, c as int),
            decreases na - k,
        {
            let mut found = false;
            let mut m: usize = 0;
            while m < children[k].len()
                invariant
                    k < na,
                    children.len() == na,
                    m <= children@[k as int]@.len(),
                    found == (exists|q: int| 0 <= q < m && children@[k as int]@[q] == c),
                decreases children[k as int]@.len() - m,
            {
                if children[k][m] == c {
                    found = true;
                }
                m = m + 1;
            }
            assert(found == kids(k as int).contains(c));
            if found {
                parent = Some(k);
            }
            k = k + 1;
        }
        let mut list: Vec<usize> = Vec::new();
        let mut m: usize = 0;
        while m < children[c].len()
            invariant
                c < na,
                children.len() == na,
                m <= children@[c as int]@.len(),
                list@ == children@[c as int]@.take(m as int),
            decreases children[c as int]@.len() - m,
        {
            list.push(children[c][m]);
            m = m + 1;
            assert(list@ =~= children@[c as int]@.take(m as int));
        }
        assert(children@[c as int]@.take(m as int) =~= children@[c as int]@);
        joints.push(Joint { translation: translations[c], parent, children: list });
        c = c + 1;
    }
    Ok(joints)
}


// ---------------------------------------------------------------------------
// Export.

/// The number of joints that become bones.
pub open spec fn bone_count(joints: Seq<Joint>) -> int {
    if joints.len() < 255 {
        joints.len() as int
    } else {
        255
    }
}

/// The joints among the first `k` without a parent, in order.
pub open spec fn roots(joints: Seq<Joint>, k: int) -> Seq<usize>
    decreases k,
{
    if k <= 0 {
        seq![]
    } else if joints[k - 1].parent is None {
        roots(joints, k - 1).push((k - 1) as usize)
    } else {
        roots(joints, k - 1)
    }
}

/// The roots after the first one; their position bones are merged into the
/// first position bone.
pub open spec fn extra_roots(joints: Seq<Joint>) -> Seq<usize> {
    let r = roots(joints, bone_count(joints));
    if r.len() > 1 {
        r.drop_first()
    } else {
        seq![]
    }
}

/// How many of `s` are below `x`.
pub open spec fn below(s: Seq<usize>, x: int) -> int
    decreases s.len(),
{
    if s.len() == 0 {
        0
    } else {
        below(s.drop_last(), x) + if (s.last() as int) < x {
            1int
        } else {
            0
        }
    }
}

/// Where position bone `x` ends up once the merged ones are taken out.
pub open spec fn shifted(joints: Seq<Joint>, x: int) -> int {
    x - below(extra_roots(joints), x)
}

/// The children of a joint that a child slot can hold, renumbered.
pub open spec fn exported_children(joints: Seq<Joint>, children: Seq<usize>) -> Seq<u8>
    decreases children.len(),
{
    if children.len() == 0 {
        seq![]
    } else if children.last() < 255 {
        exported_children(joints, children.drop_last()).push(
            shifted(joints, children.last() as int) as u8,
        )
    } else {
        exported_children(joints, children.drop_last())
    }
}

/// The children of the position bone of joint `i`.
pub open spec fn exported_position_children(joints: Seq<Joint>, i: int) -> Seq<u8> {
    if i == 0 {
        seq![0u8] + extra_roots(joints).map_values(|r: usize| r as u8)
    } else {
        seq![i as u8]
    }
}

proof fn lemma_roots(joints: Seq<Joint>, k: int)
    requires
        0 <= k <= joints.len(),
        k <= 255,
    ensures
        forall|a: int| 0 <= a < roots(joints, k).len() ==> roots(joints, k)[a] < k,
        forall|a: int, b: int|
            0 <= a < b < roots(joints, k).len() ==> roots(joints, k)[a] < roots(joints, k)[b],
        forall|x: int|
            0 <= x < k ==> (roots(joints, k).contains(x as usize) <==> joints[x].parent is None),
    decreases k,
{
    if k > 0 {
        lemma_roots(joints, k - 1);
        let r = roots(joints, k - 1);
        let rk = roots(joints, k);
        if joints[k - 1].parent is None {
            assert(rk == r.push((k - 1) as usize));
            assert forall|x: int| 0 <= x < k implies (rk.contains(x as usize)
                <==> joints[x].parent is None) by {
                if x < k - 1 {
                    if rk.contains(x as usize) {
                        let a = choose|a: int| 0 <= a < rk.len() && rk[a] == x as usize;
                        if a == r.len() {
                            assert(rk[a] == (k - 1) as usize);
                        }
                        assert(r[a] == x as usize);
                    }
                    if r.contains(x as usize) {
                        let a = choose|a: int| 0 <= a < r.len() && r[a] == x as usize;
                        assert(rk[a] == x as usize);
                    }
                } else {
                    assert(rk[r.len() as int] == x as usize);
                }
            }
        } else {
            assert forall|x: int| 0 <= x < k implies (rk.contains(x as usize)
                <==> joints[x].parent is None) by {
                if x == k - 1 && rk.contains(x as usize) {
                    let a = choose|a: int| 0 <= a < rk.len() && rk[a] == x as usize;
                    assert(r[a] < k - 1);
                }
            }
        }
    }
}

proof fn lemma_below_step(s: Seq<usize>, k: int)
    requires
        0 <= k <= 255,
        forall|a: int, b: int| 0 <= a < b < s.len() ==> s[a] < s[b],
    ensures
        below(s, k + 1) == below(s, k) + if s.contains(k as usize) {
            1int
        } else {
            0
        },
    decreases s.len(),
{
    if s.len() > 0 {
        let init = s.drop_last();
        lemma_below_step(init, k);
        if init.contains(k as usize) {
            let a = choose|a: int| 0 <= a < init.len() && init[a] == k as usize;
            assert(s[a] < s.last());
            assert(s.contains(k as usize));
        }
        if s.contains(k as usize) && s.last() != k as usize {
            let a = choose|a: int| 0 <= a < s.len() && s[a] == k as usize;
            assert(init[a] == k as usize);
        }
        if s.last() == k as usize {
            assert(s.contains(k as usize));
        }
    }
}

proof fn lemma_below_zero(s: Seq<usize>)
    ensures
        below(s, 0) == 0,
    decreases s.len(),
{
    if s.len() > 0 {
        lemma_below_zero(s.drop_last());
    }
}

proof fn lemma_sorted_ge_index(s: Seq<usize>)
    requires
        forall|a: int, b: int| 0 <= a < b < s.len() ==> s[a] < s[b],
    ensures
        forall|a: int| 0 <= a < s.len() ==> s[a] >= a,
    decreases s.len(),
{
    if s.len() > 0 {
        let init = s.drop_last();
        lemma_sorted_ge_index(init);
        assert forall|a: int| 0 <= a < s.len() implies s[a] >= a by {
            if a < init.len() {
                assert(init[a] == s[a]);
            } else if a > 0 {
                assert(init[a - 1] == s[a - 1]);
                assert(s[a - 1] < s[a]);
            }
        }
    }
}

proof fn lemma_below_bound(s: Seq<usize>, x: int)
    requires
        0 <= x,
        forall|a: int, b: int| 0 <= a < b < s.len() ==> s[a] < s[b],
    ensures
        0 <= below(s, x) <= x,
    decreases s.len(),
{
    if s.len() > 0 {
        let init = s.drop_last();
        lemma_below_bound(init, x);
        if (s.last() as int) < x {
            assert forall|a: int| 0 <= a < init.len() implies init[a] < x by {
                assert(s[a] < s.last());
            }
            lemma_below_all(init, x);
            lemma_sorted_ge_index(s);
        }
    }
}

fn find_roots(joints: &Vec<Joint>, n: usize) -> (r: Vec<usize>)
    requires
        n == bone_count(joints@),
    ensures
        r@ == roots(joints@, n as int),
{
    let mut r: Vec<usize> = Vec::new();
    let mut i: usize = 0;
    while i < n
        invariant
            n == bone_count(joints@),
            i <= n,
            r@ == roots(joints@, i as int),
        decreases n - i,
    {
        if joints[i].parent.is_none() {
            r.push(i);
        }
        i = i + 1;
    }
    r
}

fn count_below(s: &Vec<usize>, x: usize) -> (r: usize)
    ensures
        r == below(s@, x as int),
{
    let mut count: usize = 0;
    let mut k: usize = 0;
    while k < s.len()
        invariant
            k <= s@.len(),
            count == below(s@.take(k as int), x as int),
            count <= k,
        decreases s.len() - k,
    {
        assert(s@.take(k + 1).drop_last() =~= s@.take(k as int));
        if s[k] < x {
            count = count + 1;
        }
        k = k + 1;
    }
    assert(s@.take(k as int) =~= s@);
    count
}

/// `pbs` and `abs` are the bone lists that `js` is exported to.
pub open spec fn exported_bones(js: Seq<Joint>, pbs: Seq<PositionBone>, abs: Seq<AngleBone>) -> bool {
    let extra = extra_roots(js);
    &&& abs.len() == bone_count(js)
    &&& forall|i: int|
        0 <= i < bone_count(js) ==> {
            &&& (#[trigger] abs[i]).position == zero3()
            &&& abs[i].scale == 0
            &&& abs[i].children@ == exported_children(js, js[i].children@)
        }
    &&& pbs.len() == bone_count(js) - extra.len()
    &&& forall|i: int|
        0 <= i < bone_count(js) && !extra.contains(i as usize) ==> {
            &&& 0 <= #[trigger] shifted(js, i) < pbs.len()
            &&& pbs[shifted(js, i)].position == js[i].translation
            &&& pbs[shifted(js, i)].children@ == exported_position_children(js, i)
        }
}

/// Builds the two bone lists of the first 255 joints: one position bone and
/// one angle bone per joint, the angle bone listing the joint's children that
/// a child slot can hold. When several joints have no parent, the position
/// bones of all roots but the first are merged into the first position bone,
/// and the children are renumbered past the removed bones.
pub fn export_joints(joints: &Vec<Joint>) -> (r: (Vec<PositionBone>, Vec<AngleBone>))
    ensures
        exported_bones(joints@, r.0@, r.1@),
{
    let ghost js = joints@;
    let n: usize = if joints.len() < MAX_NUM_BONES {
        joints.len()
    } else {
        MAX_NUM_BONES
    };
    let all_roots = find_roots(joints, n);
    proof {
        lemma_roots(js, n as int);
        lemma_below_zero(extra_roots(js));
    }
    let mut extra: Vec<usize> = Vec::new();
    if all_roots.len() > 1 {
        let mut k: usize = 1;
        while k < all_roots.len()
            invariant
                1 <= k <= all_roots@.len(),
                extra@ == all_roots@.subrange(1, k as int),
            decreases all_roots.len() - k,
        {
            extra.push(all_roots[k]);
            k = k + 1;
            assert(extra@ =~= all_roots@.subrange(1, k as int));
        }
        assert(all_roots@.subrange(1, k as int) =~= all_roots@.drop_first());
    }
    assert(extra@ == extra_roots(js));
    proof {
        lemma_below_zero(extra@);
    }
    assert forall|a: int, b: int| 0 <= a < b < extra@.len() implies extra@[a] < extra@[b] by {
        assert(extra@[a] == all_roots@[a + 1] && extra@[b] == all_roots@[b + 1]);
    }
    assert forall|a: int| 0 <= a < extra@.len() implies extra@[a] < n by {
        assert(extra@[a] == all_roots@[a + 1]);
    }

    // Position bones of the joints that stay.
    let mut position_bones: Vec<PositionBone> = Vec::new();
    let mut i: usize = 0;
    while i < n
        invariant
            js == joints@,
            n == bone_count(js),
            n <= js.len(),
            n <= 255,
            extra@ == extra_roots(js),
            forall|a: int, b: int| 0 <= a < b < extra@.len() ==> extra@[a] < extra@[b],
            forall|a: int| 0 <= a < extra@.len() ==> extra@[a] < n,
            i <= n,
            position_bones.len() == i - below(extra@, i as int),
            forall|k: int|
                0 <= k < i && !extra@.contains(k as usize) ==> {
                    &&& 0 <= #[trigger] shifted(js, k) < position_bones.len()
                    &&& position_bones@[shifted(js, k)].position == js[k].translation
                    &&& position_bones@[shifted(js, k)].children@
                        == exported_position_children(js, k)
                },
        decreases n - i,
    {
        proof {
            lemma_below_step(extra@, i as int);
            lemma_below_bound(extra@, i as int);
        }
        let mut skip = false;
        let mut k: usize = 0;
        while k < extra.len()
            invariant
                k <= extra@.len(),
                skip == (exists|a: int| 0 <= a < k && extra@[a] == i),
            decreases extra.len() - k,
        {
            if extra[k] == i {
                skip = true;
            }
            k = k + 1;
        }
        assert(skip == extra@.contains(i));
        if !skip {
            let mut children: Vec<u8> = Vec::new();
            children.push(i as u8);
            if i == 0 {
                let mut k: usize = 0;
                while k < extra.len()
                    invariant
                        k <= extra@.len(),
                        children@ == seq![0u8] + extra@.take(k as int).map_values(
                            |r: usize| r as u8,
                        ),
                    decreases extra.len() - k,
                {
                    children.push(extra[k] as u8);
                    k = k + 1;
                    assert(children@ =~= seq![0u8] + extra@.take(k as int).map_values(
                        |r: usize| r as u8,
                    ));
                }
                assert(extra@.take(k as int) =~= extra@);
            }
            let ghost before = position_bones@;
            position_bones.push(PositionBone { position: joints[i].translation, children });
            assert(shifted(js, i as int) == before.len());
        }
        i = i + 1;
    }
    proof {
        if extra@.len() > 0 {
            assert forall|a: int| 0 <= a < extra@.len() implies extra@[a] < n by {}
        }
    }
    assert(below(extra@, n as int) == extra@.len()) by {
        lemma_below_all(extra@, n as int);
    }

    // Angle bones with renumbered children.
    let mut angle_bones: Vec<AngleBone> = Vec::new();
    let mut i: usize = 0;
    while i < n
        invariant
            js == joints@,
            n == bone_count(js),
            n <= js.len(),
            extra@ == extra_roots(js),
            forall|a: int, b: int| 0 <= a < b < extra@.len() ==> extra@[a] < extra@[b],
            i <= n,
            angle_bones.len() == i,
            forall|k: int|
                0 <= k < i ==> {
                    &&& (#[trigger] angle_bones@[k]).position == zero3()
                    &&& angle_bones@[k].scale == 0
                    &&& angle_bones@[k].children@ == exported_children(js, js[k].children@)
                },
        decreases n - i,
    {
        let source = &joints[i].children;
        let mut children: Vec<u8> = Vec::new();
        let mut k: usize = 0;
        while k < source.len()
            invariant
                extra@ == extra_roots(js),
                forall|a: int, b: int| 0 <= a < b < extra@.len() ==> extra@[a] < extra@[b],
                k <= source@.len(),
                children@ == exported_children(js, source@.take(k as int)),
            decreases source.len() - k,
        {
            let c = source[k];
            assert(source@.take(k + 1).drop_last() =~= source@.take(k as int));
            if c < 255 {
                let below_c = count_below(&extra, c);
                proof {
                    lemma_below_bound(extra@, c as int);
                }
                children.push((c - below_c) as u8);
            }
            k = k + 1;
        }
        assert(source@.take(k as int) =~= source@);
        angle_bones.push(AngleBone { position: Vec3 { x: 0, y: 0, z: 0 }, scale: 0, children });
        i = i + 1;
    }
    (position_bones, angle_bones)
}

proof fn lemma_below_all(s: Seq<usize>, x: int)
    requires
        forall|a: int| 0 <= a < s.len() ==> s[a] < x,
    ensures
        below(s, x) == s.len(),
    decreases s.len(),
{
    if s.len() > 0 {
        lemma_below_all(s.drop_last(), x);
    }
}


// ---------------------------------------------------------------------------
// Export, then import.

/// A tree that fits the bone lists: child indices name joints, and each
/// joint's parent is the joint that lists it as a child.
pub open spec fn tree_wf(js: Seq<Joint>) -> bool {
    &&& js.len() <= 255
    &&& forall|i: int, k: int|
        0 <= i < js.len() && 0 <= k < js[i].children.len() ==> (#[trigger] js[i].children@[k])
            < js.len()
    &&& forall|c: int, i: int|
        #![trigger js[i].children@.contains(c as usize)]
        #![trigger js[c].parent, js[i]]
        0 <= c < js.len() && 0 <= i < js.len() ==> (js[c].parent == Some(i as usize)
            <==> js[i].children@.contains(c as usize))
    &&& forall|c: int|
        0 <= c < js.len() ==> match (#[trigger] js[c].parent) {
            Some(p) => p < js.len(),
            None => true,
        }
}

proof fn lemma_exported_children_plain(js: Seq<Joint>, children: Seq<usize>)
    requires
        extra_roots(js).len() == 0,
        forall|k: int| 0 <= k < children.len() ==> children[k] < 255,
    ensures
        widen(exported_children(js, children)) == children,
        exported_children(js, children).len() == children.len(),
        forall|k: int|
            0 <= k < children.len() ==> exported_children(js, children)[k] as int == children[k],
    decreases children.len(),
{
    if children.len() > 0 {
        lemma_exported_children_plain(js, children.drop_last());
        let e = exported_children(js, children);
        let init = exported_children(js, children.drop_last());
        assert(below(extra_roots(js), children.last() as int) == 0);
        assert(shifted(js, children.last() as int) == children.last());
        assert(e == init.push(children.last() as u8));
        assert(widen(e) =~= widen(init).push(children.last()));
        assert(children =~= children.drop_last().push(children.last()));
    }
}

proof fn lemma_squash_single(pbs: Seq<PositionBone>, through: Seq<u8>)
    requires
        forall|k: int| 0 <= k < through.len() ==> through[k] < pbs.len(),
        forall|x: int| 0 <= x < pbs.len() ==> (#[trigger] pbs[x]).children@ == seq![x as u8],
    ensures
        squashed_children(pbs, through) == widen(through),
    decreases through.len(),
{
    if through.len() > 0 {
        lemma_squash_single(pbs, through.drop_last());
        assert(pbs[through.last() as int].children@ == seq![through.last()]);
        assert(squashed_children(pbs, through) =~= widen(through));
    }
}

proof fn lemma_translation_single(pbs: Seq<PositionBone>, c: int, k: int)
    requires
        0 <= c < pbs.len(),
        0 <= k <= pbs.len(),
        pbs.len() <= 255,
        forall|x: int| 0 <= x < pbs.len() ==> (#[trigger] pbs[x]).children@ == seq![x as u8],
    ensures
        bone_translation(pbs.take(k), c) == if c < k {
            pbs[c].position
        } else {
            zero3()
        },
    decreases k,
{
    if k > 0 {
        lemma_translation_single(pbs, c, k - 1);
        assert(pbs.take(k).drop_last() =~= pbs.take(k - 1));
        assert(pbs.take(k).last() == pbs[k - 1]);
        if lists(pbs[k - 1].children@, c) {
            let ch = pbs[k - 1].children@;
            let j = choose|j: int| 0 <= j < ch.len() && #[trigger] ch[j] as int == c;
            assert(ch[j] == (k - 1) as u8);
        }
        if c == k - 1 {
            assert(pbs[k - 1].children@[0] as int == c);
        }
    }
}

proof fn lemma_last_parent_tree(js: Seq<Joint>, kids: spec_fn(int) -> Seq<usize>, m: int, c: int)
    requires
        tree_wf(js),
        0 <= c < js.len(),
        0 <= m <= js.len(),
        forall|k: int| 0 <= k < js.len() ==> #[trigger] kids(k) == js[k].children@,
    ensures
        last_parent(kids, m, c) == match js[c].parent {
            Some(p) => if p < m {
                Some(p)
            } else {
                None
            },
            None => None,
        },
    decreases m,
{
    if m > 0 {
        lemma_last_parent_tree(js, kids, m - 1, c);
        assert(kids(m - 1) == js[m - 1].children@);
        assert(js[c].parent == Some((m - 1) as usize) <==> js[m - 1].children@.contains(
            c as usize,
        ));
    }
}

/// The bone lists exported from a tree with at most one root name only bones
/// they have, so they resolve again; each position bone lists its own joint.
pub proof fn lemma_exported_bones_valid(js: Seq<Joint>, pbs: Seq<PositionBone>, abs: Seq<AngleBone>)
    requires
        tree_wf(js),
        roots(js, js.len() as int).len() <= 1,
        exported_bones(js, pbs, abs),
    ensures
        bones_valid(pbs, abs),
        pbs.len() == js.len(),
        abs.len() == js.len(),
        extra_roots(js).len() == 0,
        forall|x: int| 0 <= x < pbs.len() ==> (#[trigger] pbs[x]).children@ == seq![x as u8],
        forall|i: int|
            0 <= i < js.len() ==> (#[trigger] abs[i]).children@.len() == js[i].children@.len()
                && forall|k: int|
                0 <= k < js[i].children@.len() ==> abs[i].children@[k] as int == js[i].children@[k],
{
    let n = js.len() as int;
    assert(bone_count(js) == n);
    assert(extra_roots(js).len() == 0);
    assert forall|x: int| 0 <= x < n implies shifted(js, x) == x by {}
    assert forall|x: int| 0 <= x < pbs.len() implies (#[trigger] pbs[x]).children@ == seq![
        x as u8,
    ] by {
        assert(shifted(js, x) == x);
        assert(!extra_roots(js).contains(x as usize));
        if x == 0 {
            assert(seq![0u8] + extra_roots(js).map_values(|r: usize| r as u8) =~= seq![0u8]);
        }
    }
    assert forall|i: int| 0 <= i < n implies (#[trigger] abs[i]).children@.len()
        == js[i].children@.len() && forall|k: int|
        0 <= k < js[i].children@.len() ==> abs[i].children@[k] as int == js[i].children@[k] by {
        assert forall|k: int| 0 <= k < js[i].children.len() implies js[i].children@[k]
            < 255 by {
            assert(js[i].children@[k] < n);
        }
        lemma_exported_children_plain(js, js[i].children@);
    }
    assert forall|i: int, j: int|
        0 <= i < pbs.len() && 0 <= j < pbs[i].children.len() implies (
        #[trigger] pbs[i].children@[j]) < abs.len() by {
        assert(pbs[i].children@ == seq![i as u8]);
    }
    assert forall|i: int, j: int|
        0 <= i < abs.len() && 0 <= j < abs[i].children.len() implies (
        #[trigger] abs[i].children@[j]) < pbs.len() by {
        assert(abs[i].children@[j] as int == js[i].children@[j]);
        assert(js[i].children@[j] < n);
    }
}

/// Exporting a tree with at most one root to the two bone lists, then
/// resolving them again, gives back every joint's translation, parent and
/// children.
pub proof fn lemma_bones_round_trip(
    js: Seq<Joint>,
    pbs: Seq<PositionBone>,
    abs: Seq<AngleBone>,
    out: Seq<Joint>,
)
    requires
        tree_wf(js),
        roots(js, js.len() as int).len() <= 1,
        exported_bones(js, pbs, abs),
        joints_of(out, pbs, abs),
    ensures
        bones_valid(pbs, abs),
        out.len() == js.len(),
        forall|i: int|
            0 <= i < js.len() ==> {
                &&& (#[trigger] out[i]).translation == js[i].translation
                &&& out[i].parent == js[i].parent
                &&& out[i].children@ == js[i].children@
            },
{
    let n = js.len() as int;
    lemma_exported_bones_valid(js, pbs, abs);
    assert(bone_count(js) == n);
    assert forall|x: int| 0 <= x < n implies shifted(js, x) == x by {}
    let kids = |k: int| squashed_children(pbs, abs[k].children@);
    assert forall|k: int| 0 <= k < n implies #[trigger] kids(k) == js[k].children@ by {
        assert forall|j: int| 0 <= j < abs[k].children.len() implies abs[k].children@[j]
            < pbs.len() by {
            assert(abs[k].children@[j] as int == js[k].children@[j]);
        }
        lemma_squash_single(pbs, abs[k].children@);
        assert(widen(abs[k].children@) =~= js[k].children@);
    }
    assert forall|i: int| 0 <= i < n implies {
        &&& (#[trigger] out[i]).translation == js[i].translation
        &&& out[i].parent == js[i].parent
        &&& out[i].children@ == js[i].children@
    } by {
        lemma_translation_single(pbs, i, n);
        assert(pbs.take(n) =~= pbs);
        assert(!extra_roots(js).contains(i as usize));
        assert(shifted(js, i) == i);
        assert(kids(i) == js[i].children@);
        lemma_last_parent_tree(js, kids, n, i);
    }
}


/// Merging only takes position bones away.
pub proof fn lemma_extra_roots_len(js: Seq<Joint>)
    ensures
        extra_roots(js).len() <= bone_count(js),
{
    let n = bone_count(js);
    lemma_roots(js, n);
    let r = roots(js, n);
    if r.len() > n {
        lemma_sorted_ge_index(r);
        assert(r[n] >= n);
    }
}

} // verus!
