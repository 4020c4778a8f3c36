//! What the glTF importer decides from plain values: which nodes are joints,
//! which node is the skeleton's root, and where a buffer's bytes come from.

use vstd::prelude::*;
use vstd::string::{StrSliceExecFns, StringExecFns};

use crate::geometry::{
    is_nan_bits, rotation_matrix, rotation_matrix_of, sub_vec3, vec3_difference, zero3, Vec3,
};
use crate::gltf::float_key;
use crate::scene::{Animation, Joint, Keyframe};

verus! {

/// The value of decimal digits, if every character is one.
pub open spec fn digits_value(s: Seq<char>) -> Option<nat>
    decreases s.len(),
{
    if s.len() == 0 {
        Some(0)
    } else if '0' <= s.last() && s.last() <= '9' {
        match digits_value(s.drop_last()) {
            Some(v) => Some((v * 10 + (s.last() as u32 - '0' as u32)) as nat),
            None => None,
        }
    } else {
        None
    }
}

/// The `usize` that `s` spells, as `str::parse` reads it: digits after an
/// optional `+`, at least one, and a value that fits.
pub open spec fn parsed_index(s: Seq<char>) -> Option<usize> {
    let digits = if s.len() > 0 && s[0] == '+' {
        s.skip(1)
    } else {
        s
    };
    if digits.len() == 0 {
        None
    } else {
        match digits_value(digits) {
            Some(v) => if v <= usize::MAX {
                Some(v as usize)
            } else {
                None
            },
            None => None,
        }
    }
}

/// The joint that a node named `bone_<index>` stands for.
pub open spec fn bone_of_name(name: Seq<char>) -> Option<usize> {
    if name.len() >= 5 && name.take(5) == "bone_"@ {
        parsed_index(name.skip(5))
    } else {
        None
    }
}

/// The name of a node, or nothing.
pub open spec fn name_or_empty(name: Option<String>) -> Seq<char> {
    match name {
        Some(s) => s@,
        None => seq![],
    }
}

/// Reads a `usize` as `str::parse` does: an optional `+`, then at least one
/// decimal digit, with a value that fits.
pub fn parse_index(s: &str) -> (r: Option<usize>)
    ensures
        r == parsed_index(s@),
{
    let n = s.unicode_len();
    let start: usize = if n > 0 && s.get_char(0) == '+' {
        1
    } else {
        0
    };
    let ghost digits = s@.skip(start as int);
    assert(digits =~= s@.subrange(start as int, n as int));
    assert(s@.skip(0) =~= s@);
    assert(digits == (if s@.len() > 0 && s@[0] == '+' {
        s@.skip(1)
    } else {
        s@
    }));
    if start >= n {
        return None;
    }
    let mut value: usize = 0;
    let mut i: usize = start;
    while i < n
        invariant
            start <= i <= n,
            n == s@.len(),
            digits == s@.subrange(start as int, n as int),
            digits == (if s@.len() > 0 && s@[0] == '+' {
                s@.skip(1)
            } else {
                s@
            }),
            digits.len() > 0,
            digits_value(s@.subrange(start as int, i as int)) == Some(value as nat),
        decreases n - i,
    {
        let c = s.get_char(i);
        let ghost prefix = s@.subrange(start as int, i + 1);
        assert(prefix.drop_last() =~= s@.subrange(start as int, i as int));
        if c < '0' || c > '9' {
            proof {
                lemma_digits_none(digits, i - start);
            }
            return None;
        }
        let d = (c as u32 - '0' as u32) as usize;
        if value > (usize::MAX - d) / 10 {
            proof {
                assert(value * 10 + d > usize::MAX) by (nonlinear_arith)
                    requires
                        value > (usize::MAX - d) / 10,
                        d <= 9,
                ;
                assert(digits.take(i + 1 - start) =~= prefix);
                lemma_digits_monotone(digits, (i + 1 - start) as int);
            }
            return None;
        }
        value = value * 10 + d;
        i = i + 1;
    }
    assert(s@.subrange(start as int, i as int) =~= digits);
    Some(value)
}

proof fn lemma_digits_none(s: Seq<char>, k: int)
    requires
        0 <= k < s.len(),
        !('0' <= s[k] && s[k] <= '9'),
    ensures
        digits_value(s) is None,
    decreases s.len(),
{
    if k < s.len() - 1 {
        lemma_digits_none(s.drop_last(), k);
    }
}

/// A prefix of digits has no larger value than the whole.
proof fn lemma_digits_monotone(s: Seq<char>, k: int)
    requires
        0 <= k <= s.len(),
    ensures
        digits_value(s) matches Some(v) ==> digits_value(s.take(k)) matches Some(w) && w <= v,
    decreases s.len() - k,
{
    if k < s.len() {
        lemma_digits_monotone(s, k + 1);
        let t = s.take(k + 1);
        assert(t.drop_last() =~= s.take(k));
        if digits_value(s) is Some && digits_value(t) is Some && digits_value(s.take(k)) is Some {
            let w2 = digits_value(t)->Some_0;
            let w = digits_value(s.take(k))->Some_0;
            let d = (t.last() as u32 - '0' as u32) as nat;
            assert(w2 == (w * 10 + d) as nat);
            assert(w <= w2) by (nonlinear_arith)
                requires
                    w2 == w * 10 + d,
            ;
        }
    } else {
        assert(s.take(k) =~= s);
    }
}

fn starts_with(s: &str, prefix: &str) -> (r: bool)
    ensures
        r == (s@.len() >= prefix@.len() && s@.take(prefix@.len() as int) == prefix@),
{
    let n = s.unicode_len();
    let m = prefix.unicode_len();
    if n < m {
        return false;
    }
    let mut i: usize = 0;
    while i < m
        invariant
            n == s@.len(),
            m == prefix@.len(),
            m <= n,
            i <= m,
            forall|k: int| 0 <= k < i ==> s@[k] == prefix@[k],
        decreases m - i,
    {
        if s.get_char(i) != prefix.get_char(i) {
            assert(s@.take(m as int)[i as int] != prefix@[i as int]);
            return false;
        }
        i = i + 1;
    }
    assert(s@.take(m as int) =~= prefix@);
    true
}

/// For each node, the joint that its name stands for.
pub fn make_joint_map(names: &Vec<Option<String>>) -> (r: Vec<Option<usize>>)
    ensures
        r.len() == names.len(),
        forall|i: int| 0 <= i < names.len() ==> #[trigger] r@[i] == bone_of_name(name_or_empty(names@[i])),
{
    let mut out: Vec<Option<usize>> = Vec::new();
    let mut i: usize = 0;
    while i < names.len()
        invariant
            i <= names@.len(),
            out.len() == i,
            forall|k: int| 0 <= k < i ==> #[trigger] out@[k] == bone_of_name(name_or_empty(names@[k])),
        decreases names.len() - i,
    {
        let joint = match &names[i] {
            Some(name) => {
                proof {
                    reveal_strlit("bone_");
                }
                let s = name.as_str();
                if starts_with(s, "bone_") {
                    let rest = s.substring_char(5, s.unicode_len());
                    assert(rest@ =~= s@.skip(5));
                    parse_index(rest)
                } else {
                    None
                }
            },
            None => None,
        };
        out.push(joint);
        i = i + 1;
    }
    out
}

/// The first node named `root`, whose translation moves the whole skeleton.
pub fn get_skeleton_root_index(names: &Vec<Option<String>>) -> (r: Option<usize>)
    ensures
        match r {
            Some(i) => i < names.len() && name_or_empty(names@[i as int]) == "root"@ && forall|k: int|
                0 <= k < i ==> name_or_empty(#[trigger] names@[k]) != "root"@,
            None => forall|k: int| 0 <= k < names.len() ==> name_or_empty(#[trigger] names@[k]) != "root"@,
        },
{
    let mut i: usize = 0;
    while i < names.len()
        invariant
            i <= names@.len(),
            forall|k: int| 0 <= k < i ==> name_or_empty(#[trigger] names@[k]) != "root"@,
        decreases names.len() - i,
    {
        let is_root = match &names[i] {
            Some(name) => {
                proof {
                    reveal_strlit("root");
                }
                let s = name.as_str();
                s.unicode_len() == 4 && starts_with(s, "root")
            },
            None => {
                proof {
                    reveal_strlit("root");
                }
                false
            },
        };
        if is_root {
            proof {
                reveal_strlit("root");
                assert(names@[i as int]->Some_0@.take(4) =~= names@[i as int]->Some_0@);
            }
            return Some(i);
        }
        proof {
            reveal_strlit("root");
            assert("root"@.len() == 4);
            match names@[i as int] {
                Some(name) => {
                    if name@ == "root"@ {
                        assert(name@.take(4) =~= name@);
                    }
                },
                None => {
                    assert(name_or_empty(names@[i as int]).len() == 0);
                },
            }
            assert(name_or_empty(names@[i as int]) != "root"@);
        }
        i = i + 1;
    }
    None
}

/// The first node whose name starts with `root`.
pub fn get_skeleton_index(names: &Vec<Option<String>>) -> (r: Option<usize>)
    ensures
        match r {
            Some(i) => i < names.len() && has_root_prefix(name_or_empty(names@[i as int]))
                && forall|k: int| 0 <= k < i ==> !has_root_prefix(name_or_empty(#[trigger] names@[k])),
            None => forall|k: int| 0 <= k < names.len() ==> !has_root_prefix(name_or_empty(#[trigger] names@[k])),
        },
{
    let mut i: usize = 0;
    while i < names.len()
        invariant
            i <= names@.len(),
            forall|k: int| 0 <= k < i ==> !has_root_prefix(name_or_empty(#[trigger] names@[k])),
        decreases names.len() - i,
    {
        let found = match &names[i] {
            Some(name) => starts_with(name.as_str(), "root"),
            None => {
                proof {
                    reveal_strlit("root");
                }
                false
            },
        };
        if found {
            return Some(i);
        }
        i = i + 1;
    }
    None
}

/// `name` starts with `root`.
pub open spec fn has_root_prefix(name: Seq<char>) -> bool {
    name.len() >= "root"@.len() && name.take("root"@.len() as int) == "root"@
}

/// The joint of each entry of the skin: the skin's list itself, by position.
pub fn make_skin_map(skin_joints: &Vec<usize>) -> (r: Vec<usize>)
    ensures
        r@ == skin_joints@,
{
    let mut out: Vec<usize> = Vec::new();
    let mut i: usize = 0;
    while i < skin_joints.len()
        invariant
            i <= skin_joints@.len(),
            out@ == skin_joints@.take(i as int),
        decreases skin_joints.len() - i,
    {
        out.push(skin_joints[i]);
        i = i + 1;
        assert(out@ =~= skin_joints@.take(i as int));
    }
    assert(skin_joints@.take(i as int) =~= skin_joints@);
    out
}

/// The index of the first `c` in `s`, or -1.
pub open spec fn first_index_of(s: Seq<char>, c: char) -> int
    decreases s.len(),
{
    if s.len() == 0 {
        -1
    } else if s[0] == c {
        0
    } else if first_index_of(s.drop_first(), c) < 0 {
        -1
    } else {
        first_index_of(s.drop_first(), c) + 1
    }
}

proof fn lemma_first_index(s: Seq<char>, c: char, k: int)
    requires
        0 <= k <= s.len(),
        forall|j: int| 0 <= j < k ==> s[j] != c,
    ensures
        k < s.len() && s[k] == c ==> first_index_of(s, c) == k,
        k == s.len() ==> first_index_of(s, c) == -1,
    decreases k,
{
    if k > 0 {
        lemma_first_index(s.drop_first(), c, k - 1);
    } else if s.len() > 0 && s[0] != c {
    }
}

/// Splits `input` at the first `delimiter`, which neither part holds.
pub fn split_once<'a>(input: &'a str, delimiter: char) -> (r: Option<(&'a str, &'a str)>)
    ensures
        first_index_of(input@, delimiter) < 0 ==> r is None,
        first_index_of(input@, delimiter) >= 0 ==> (r matches Some((a, b)) && a@ == input@.take(
            first_index_of(input@, delimiter),
        ) && b@ == input@.skip(first_index_of(input@, delimiter) + 1)),
{
    let n = input.unicode_len();
    let mut i: usize = 0;
    while i < n
        invariant
            n == input@.len(),
            i <= n,
            forall|j: int| 0 <= j < i ==> input@[j] != delimiter,
        decreases n - i,
    {
        if input.get_char(i) == delimiter {
            proof {
                lemma_first_index(input@, delimiter, i as int);
            }
            let a = input.substring_char(0, i);
            let b = input.substring_char(i + 1, n);
            assert(a@ =~= input@.take(i as int));
            assert(b@ =~= input@.skip(i + 1));
            return Some((a, b));
        }
        i = i + 1;
    }
    proof {
        lemma_first_index(input@, delimiter, n as int);
    }
    None
}


// ---------------------------------------------------------------------------
// The skeleton of a glTF document.

/// The largest joint index among the first `k` nodes, or zero.
pub open spec fn max_joint(joint_map: Seq<Option<usize>>, k: int) -> int
    decreases k,
{
    if k <= 0 {
        0
    } else {
        let m = max_joint(joint_map, k - 1);
        match joint_map[k - 1] {
            Some(j) => if j > m {
                j as int
            } else {
                m
            },
            None => m,
        }
    }
}

/// The last of the first `k` nodes that stands for joint `j`, or -1.
pub open spec fn last_node(joint_map: Seq<Option<usize>>, j: int, k: int) -> int
    decreases k,
{
    if k <= 0 {
        -1
    } else if joint_map[k - 1] == Some(j as usize) {
        k - 1
    } else {
        last_node(joint_map, j, k - 1)
    }
}

/// The joints that the nodes `nodes` stand for, in order, skipping the others.
pub open spec fn joints_of_nodes(joint_map: Seq<Option<usize>>, nodes: Seq<usize>) -> Seq<usize>
    decreases nodes.len(),
{
    if nodes.len() == 0 {
        seq![]
    } else {
        let init = joints_of_nodes(joint_map, nodes.drop_last());
        match joint_map[nodes.last() as int] {
            Some(j) => init.push(j),
            None => init,
        }
    }
}

/// The node graph of a document, over its nodes: each one's parent, its
/// origin in the scene, its children, and the joint it stands for.
pub open spec fn node_graph_valid(
    parents: Seq<Option<usize>>,
    origins: Seq<Vec3>,
    children: Seq<Vec<usize>>,
    joint_map: Seq<Option<usize>>,
) -> bool {
    let n = joint_map.len();
    &&& parents.len() == n
    &&& origins.len() == n
    &&& children.len() == n
    &&& forall|i: int| 0 <= i < n ==> match #[trigger] parents[i] {
        Some(p) => p < n,
        None => true,
    }
    &&& forall|i: int, k: int|
        0 <= i < n && 0 <= k < children[i].len() ==> (#[trigger] children[i]@[k]) < n
    &&& forall|i: int| 0 <= i < n ==> match #[trigger] joint_map[i] {
        Some(j) => j < usize::MAX,
        None => true,
    }
}

/// The joint `j` that the node graph gives: from the last node standing for
/// it, the offset of its origin past its parent's, its parent's joint, and the
/// joints of its children; a default joint when no node stands for it.
pub open spec fn gltf_joint_of(
    r: Joint,
    j: int,
    parents: Seq<Option<usize>>,
    origins: Seq<Vec3>,
    children: Seq<Vec<usize>>,
    joint_map: Seq<Option<usize>>,
) -> bool {
    let n = last_node(joint_map, j, joint_map.len() as int);
    if n < 0 {
        r.translation == zero3() && r.parent is None && r.children@.len() == 0
    } else {
        &&& r.translation == vec3_difference(
            origins[n],
            match parents[n] {
                Some(p) => origins[p as int],
                None => zero3(),
            },
        )
        &&& r.parent == match parents[n] {
            Some(p) => joint_map[p as int],
            None => None,
        }
        &&& r.children@ == joints_of_nodes(joint_map, children[n]@)
    }
}

proof fn lemma_max_joint(joint_map: Seq<Option<usize>>, k: int)
    requires
        0 <= k <= joint_map.len(),
    ensures
        max_joint(joint_map, k) >= 0,
        forall|i: int| 0 <= i < k ==> match #[trigger] joint_map[i] {
            Some(j) => j <= max_joint(joint_map, k),
            None => true,
        },
    decreases k,
{
    if k > 0 {
        lemma_max_joint(joint_map, k - 1);
    }
}

proof fn lemma_max_joint_below(joint_map: Seq<Option<usize>>, k: int)
    requires
        0 <= k <= joint_map.len(),
        forall|i: int| 0 <= i < joint_map.len() ==> match #[trigger] joint_map[i] {
            Some(j) => j < usize::MAX,
            None => true,
        },
    ensures
        max_joint(joint_map, k) < usize::MAX,
    decreases k,
{
    if k > 0 {
        lemma_max_joint_below(joint_map, k - 1);
        assert(match joint_map[k - 1] {
            Some(j) => j < usize::MAX,
            None => true,
        });
    }
}

proof fn lemma_last_node(joint_map: Seq<Option<usize>>, j: int, k: int)
    requires
        0 <= k <= joint_map.len(),
    ensures
        -1 <= last_node(joint_map, j, k) < k,
    decreases k,
{
    if k > 0 {
        lemma_last_node(joint_map, j, k - 1);
    }
}

/// Builds the skeleton from the node graph: one joint per index up to the
/// largest that a node stands for, at least one.
pub fn gltf_joints(
    parents: &Vec<Option<usize>>,
    origins: &Vec<Vec3>,
    children: &Vec<Vec<usize>>,
    joint_map: &Vec<Option<usize>>,
) -> (r: Vec<Joint>)
    requires
        node_graph_valid(parents@, origins@, children@, joint_map@),
    ensures
        r.len() == max_joint(joint_map@, joint_map.len() as int) + 1,
        forall|j: int|
            0 <= j < r.len() ==> gltf_joint_of(
                #[trigger] r@[j],
                j,
                parents@,
                origins@,
                children@,
                joint_map@,
            ),
{
    let n = joint_map.len();
    let mut largest: usize = 0;
    let mut i: usize = 0;
    while i < n
        invariant
            n == joint_map@.len(),
            node_graph_valid(parents@, origins@, children@, joint_map@),
            i <= n,
            largest == max_joint(joint_map@, i as int),
        decreases n - i,
    {
        if let Some(j) = joint_map[i] {
            if j > largest {
                largest = j;
            }
        }
        i = i + 1;
    }
    proof {
        lemma_max_joint(joint_map@, n as int);
        lemma_max_joint_below(joint_map@, n as int);
    }
    let count = largest + 1;
    let mut joints: Vec<Joint> = Vec::new();
    let mut j: usize = 0;
    while j < count
        invariant
            n == joint_map@.len(),
            node_graph_valid(parents@, origins@, children@, joint_map@),
            count == max_joint(joint_map@, n as int) + 1,
            j <= count,
            joints.len() == j,
            forall|k: int|
                0 <= k < j ==> gltf_joint_of(
                    #[trigger] joints@[k],
                    k,
                    parents@,
                    origins@,
                    children@,
                    joint_map@,
                ),
        decreases count - j,
    {
        let mut node: Option<usize> = None;
        let mut k: usize = 0;
        while k < n
            invariant
                n == joint_map@.len(),
                k <= n,
                match node {
                    Some(m) => m == last_node(joint_map@, j as int, k as int),
                    None => last_node(joint_map@, j as int, k as int) == -1,
                },
            decreases n - k,
        {
            if joint_map[k] == Some(j) {
                node = Some(k);
            }
            k = k + 1;
        }
        proof {
            lemma_last_node(joint_map@, j as int, n as int);
        }
        let joint = match node {
            None => Joint { translation: Vec3 { x: 0, y: 0, z: 0 }, parent: None, children: Vec::new() },
            Some(m) => {
                let base = match parents[m] {
                    Some(p) => origins[p],
                    None => Vec3 { x: 0, y: 0, z: 0 },
                };
                let parent = match parents[m] {
                    Some(p) => joint_map[p],
                    None => None,
                };
                let cs = &children[m];
                let mut kids: Vec<usize> = Vec::new();
                let mut c: usize = 0;
                while c < cs.len()
                    invariant
                        n == joint_map@.len(),
                        node_graph_valid(parents@, origins@, children@, joint_map@),
                        m < n,
                        cs@ == children@[m as int]@,
                        c <= cs@.len(),
                        kids@ == joints_of_nodes(joint_map@, cs@.take(c as int)),
                    decreases cs.len() - c,
                {
                    assert(cs@.take(c + 1).drop_last() =~= cs@.take(c as int));
                    assert(cs@[c as int] < n);
                    if let Some(jj) = joint_map[cs[c]] {
                        kids.push(jj);
                    }
                    c = c + 1;
                }
                assert(cs@.take(c as int) =~= cs@);
                Joint { translation: sub_vec3(origins[m], base), parent, children: kids }
            },
        };
        joints.push(joint);
        j = j + 1;
    }
    joints
}


// ---------------------------------------------------------------------------
// The joint of a vertex.

/// `a > b` in single precision: false when either is a NaN.
pub open spec fn float_greater(a: u32, b: u32) -> bool {
    !is_nan_bits(a) && !is_nan_bits(b) && float_key(a) > float_key(b)
}

/// Which of the first `k` weights `Iterator::max_by` keeps, when values that
/// do not compare count as equal: a later weight wins unless the kept one is
/// greater.
pub open spec fn dominant_index(weights: Seq<u32>, k: int) -> int
    decreases k,
{
    if k <= 1 {
        0
    } else {
        let d = dominant_index(weights, k - 1);
        if float_greater(weights[d], weights[k - 1]) {
            d
        } else {
            k - 1
        }
    }
}

/// The joint of a vertex: that of its most influential skin entry, when its
/// weight is positive and the entry's node stands for a joint.
pub open spec fn vertex_joint(
    joints: Seq<u16>,
    weights: Seq<u32>,
    skin_map: Seq<usize>,
    joint_map: Seq<Option<usize>>,
) -> Option<usize> {
    let d = dominant_index(weights, 4);
    if float_greater(weights[d], 0) && joints[d] < skin_map.len() && skin_map[joints[d] as int]
        < joint_map.len() {
        joint_map[skin_map[joints[d] as int] as int]
    } else {
        None
    }
}

fn greater(a: u32, b: u32) -> (r: bool)
    ensures
        r == float_greater(a, b),
{
    let nan_a = a & 0x7f80_0000u32 == 0x7f80_0000u32 && a & 0x007f_ffffu32 != 0;
    let nan_b = b & 0x7f80_0000u32 == 0x7f80_0000u32 && b & 0x007f_ffffu32 != 0;
    let key = |v: u32| -> (k: i64)
        ensures
            k == float_key(v),
        {
            let magnitude = (v & 0x7fff_ffffu32) as i64;
            if v & 0x8000_0000u32 != 0 {
                -magnitude
            } else {
                magnitude
            }
        };
    !nan_a && !nan_b && key(a) > key(b)
}

/// The joint of a vertex from its four skin entries and weights.
pub fn gltf_vertex_joint(
    joints: [u16; 4],
    weights: [u32; 4],
    skin_map: &Vec<usize>,
    joint_map: &Vec<Option<usize>>,
) -> (r: Option<usize>)
    ensures
        r == vertex_joint(joints@, weights@, skin_map@, joint_map@),
{
    let mut d: usize = 0;
    let mut k: usize = 1;
    while k < 4
        invariant
            1 <= k <= 4,
            d == dominant_index(weights@, k as int),
            d < k,
        decreases 4 - k,
    {
        if !greater(weights[d], weights[k]) {
            d = k;
        }
        k = k + 1;
    }
    if greater(weights[d], 0) {
        let s = joints[d] as usize;
        if s < skin_map.len() && skin_map[s] < joint_map.len() {
            return joint_map[skin_map[s]];
        }
    }
    None
}


// ---------------------------------------------------------------------------
// Animations.

/// The keyframe values of an animation channel.
#[derive(Clone, Debug, PartialEq)]
pub enum ChannelValues {
    Translations(Vec<Vec3>),
    /// Quaternions (x, y, z, w).
    Rotations(Vec<[u32; 4]>),
    Scales(Vec<Vec3>),
}

/// A channel: the node it animates and its values.
#[derive(Clone, Debug, PartialEq)]
pub struct GltfChannel {
    pub node: usize,
    pub values: ChannelValues,
}

/// An animation of a glTF document.
#[derive(Clone, Debug, PartialEq)]
pub struct GltfAnimationData {
    pub name: String,
    pub channels: Vec<GltfChannel>,
}

pub open spec fn channel_len(c: GltfChannel) -> int {
    match c.values {
        ChannelValues::Translations(v) => v.len() as int,
        ChannelValues::Rotations(v) => v.len() as int,
        ChannelValues::Scales(v) => v.len() as int,
    }
}

/// The channel moves the skeleton's root.
pub open spec fn is_root_channel(c: GltfChannel, root: Option<usize>) -> bool {
    root == Some(c.node) && c.values is Translations
}

/// The channel animates a joint.
pub open spec fn is_joint_channel(c: GltfChannel, joint_map: Seq<Option<usize>>) -> bool {
    c.node < joint_map.len() && joint_map[c.node as int] is Some
}

/// The number of frames: the longest of the root's translations and the
/// joints' channels among the first `k`.
pub open spec fn frame_count(
    channels: Seq<GltfChannel>,
    joint_map: Seq<Option<usize>>,
    root: Option<usize>,
    k: int,
) -> int
    decreases k,
{
    if k <= 0 {
        0
    } else {
        let m = frame_count(channels, joint_map, root, k - 1);
        let c = channels[k - 1];
        if (is_root_channel(c, root) || is_joint_channel(c, joint_map)) && channel_len(c) > m {
            channel_len(c)
        } else {
            m
        }
    }
}

/// The root's translations: those of the last root channel among the first
/// `k`, or none.
pub open spec fn root_track(channels: Seq<GltfChannel>, root: Option<usize>, k: int) -> Seq<Vec3>
    decreases k,
{
    if k <= 0 {
        seq![]
    } else if is_root_channel(channels[k - 1], root) {
        channels[k - 1].values->Translations_0@
    } else {
        root_track(channels, root, k - 1)
    }
}

/// The rotations of joint `j`: those of the last rotation channel of a node
/// standing for it among the first `k`, or none. A root translation channel
/// is not a joint channel.
pub open spec fn rotation_track(
    channels: Seq<GltfChannel>,
    joint_map: Seq<Option<usize>>,
    root: Option<usize>,
    j: int,
    k: int,
) -> Seq<[u32; 4]>
    decreases k,
{
    if k <= 0 {
        seq![]
    } else {
        let c = channels[k - 1];
        if c.values is Rotations && is_joint_channel(c, joint_map) && joint_map[c.node as int]
            == Some(j as usize) {
            c.values->Rotations_0@
        } else {
            rotation_track(channels, joint_map, root, j, k - 1)
        }
    }
}

/// The number of nodes that stand for joints.
pub open spec fn joint_node_count(joint_map: Seq<Option<usize>>, k: int) -> int
    decreases k,
{
    if k <= 0 {
        0
    } else {
        joint_node_count(joint_map, k - 1) + if joint_map[k - 1] is Some {
            1int
        } else {
            0
        }
    }
}

/// The quaternion that leaves everything as it is.
pub open spec fn identity_quat() -> Seq<u32> {
    seq![0u32, 0u32, 0u32, 0x3f80_0000u32]
}

/// `a` is the scene animation of `data`: frame `i` moves the root by its
/// `i`-th translation, or not at all, and turns each joint by its `i`-th
/// rotation, or not at all. Joint translations and scales only count frames.
pub open spec fn animation_of(
    a: Animation,
    data: GltfAnimationData,
    joint_map: Seq<Option<usize>>,
    root: Option<usize>,
) -> bool {
    let chs = data.channels@;
    let n = chs.len() as int;
    let root_t = root_track(chs, root, n);
    let nj = joint_node_count(joint_map, joint_map.len() as int);
    &&& a.name@ == data.name@
    &&& a.frames.len() == frame_count(chs, joint_map, root, n)
    &&& forall|i: int|
        0 <= i < a.frames.len() ==> {
            &&& (#[trigger] a.frames@[i]).translation == if i < root_t.len() {
                root_t[i]
            } else {
                zero3()
            }
            &&& a.frames@[i].transforms.len() == nj
            &&& forall|j: int|
                0 <= j < nj ==> (#[trigger] a.frames@[i].transforms@[j])@ == rotation_matrix_of(
                    if i < rotation_track(chs, joint_map, root, j, n).len() {
                        rotation_track(chs, joint_map, root, j, n)[i]@
                    } else {
                        identity_quat()
                    },
                )
        }
}

fn copy_vec3s(v: &Vec<Vec3>) -> (r: Vec<Vec3>)
    ensures
        r@ == v@,
{
    let mut out: Vec<Vec3> = Vec::new();
    let mut k: usize = 0;
    while k < v.len()
        invariant
            k <= v@.len(),
            out@ == v@.take(k as int),
        decreases v.len() - k,
    {
        out.push(v[k]);
        k = k + 1;
        assert(out@ =~= v@.take(k as int));
    }
    assert(v@.take(k as int) =~= v@);
    out
}

/// Converts a glTF animation into a scene animation.
pub fn convert_animation(
    data: &GltfAnimationData,
    joint_map: &Vec<Option<usize>>,
    root: Option<usize>,
) -> (r: Animation)
    ensures
        animation_of(r, *data, joint_map@, root),
{
    let chs = &data.channels;
    let ghost cs = chs@;
    let n = chs.len();
    // Frames, and the root's translations.
    let mut frames_len: usize = 0;
    let mut root_index: Option<usize> = None;
    let mut k: usize = 0;
    while k < n
        invariant
            n == cs.len(),
            cs == data.channels@,
            chs@ == cs,
            k <= n,
            frames_len == frame_count(cs, joint_map@, root, k as int),
            match root_index {
                Some(m) => m < k && is_root_channel(cs[m as int], root) && root_track(cs, root, k as int)
                    == cs[m as int].values->Translations_0@,
                None => root_track(cs, root, k as int) == Seq::<Vec3>::empty(),
            },
        decreases n - k,
    {
        let c = &chs[k];
        let len = match &c.values {
            ChannelValues::Translations(v) => v.len(),
            ChannelValues::Rotations(v) => v.len(),
            ChannelValues::Scales(v) => v.len(),
        };
        let is_root = root == Some(c.node) && match &c.values {
            ChannelValues::Translations(_) => true,
            _ => false,
        };
        let is_joint = c.node < joint_map.len() && joint_map[c.node].is_some();
        assert(len == channel_len(cs[k as int]));
        assert(is_root == is_root_channel(cs[k as int], root));
        assert(is_joint == is_joint_channel(cs[k as int], joint_map@));
        if (is_root || is_joint) && len > frames_len {
            frames_len = len;
        }
        if is_root {
            root_index = Some(k);
        }
        k = k + 1;
    }
    let mut joint_count: usize = 0;
    let mut m: usize = 0;
    while m < joint_map.len()
        invariant
            m <= joint_map@.len(),
            joint_count == joint_node_count(joint_map@, m as int),
            joint_count <= m,
        decreases joint_map.len() - m,
    {
        if joint_map[m].is_some() {
            joint_count = joint_count + 1;
        }
        m = m + 1;
    }
    let ghost root_t = root_track(cs, root, n as int);
    let root_values: Vec<Vec3> = match root_index {
        Some(r) => match &chs[r].values {
            ChannelValues::Translations(v) => copy_vec3s(v),
            _ => Vec::new(),
        },
        None => Vec::new(),
    };
    assert(root_values@ == root_t);
    // The rotation channel of each joint.
    let mut tracks: Vec<Option<usize>> = Vec::new();
    let mut j: usize = 0;
    while j < joint_count
        invariant
            n == cs.len(),
            cs == data.channels@,
            chs@ == cs,
            j <= joint_count,
            tracks.len() == j,
            forall|q: int|
                0 <= q < j ==> match #[trigger] tracks@[q] {
                    Some(t) => t < n && cs[t as int].values is Rotations && rotation_track(
                        cs,
                        joint_map@,
                        root,
                        q,
                        n as int,
                    ) == cs[t as int].values->Rotations_0@,
                    None => rotation_track(cs, joint_map@, root, q, n as int) == Seq::<
                        [u32; 4],
                    >::empty(),
                },
        decreases joint_count - j,
    {
        let mut found: Option<usize> = None;
        let mut k: usize = 0;
        while k < n
            invariant
                n == cs.len(),
                cs == data.channels@,
                chs@ == cs,
                k <= n,
                match found {
                    Some(t) => t < k && cs[t as int].values is Rotations && rotation_track(
                        cs,
                        joint_map@,
                        root,
                        j as int,
                        k as int,
                    ) == cs[t as int].values->Rotations_0@,
                    None => rotation_track(cs, joint_map@, root, j as int, k as int) == Seq::<
                        [u32; 4],
                    >::empty(),
                },
            decreases n - k,
        {
            let c = &chs[k];
            let rotation = match &c.values {
                ChannelValues::Rotations(_) => true,
                _ => false,
            };
            if rotation && c.node < joint_map.len() && joint_map[c.node] == Some(j) {
                found = Some(k);
            }
            assert(rotation == cs[k as int].values is Rotations);
            k = k + 1;
        }
        tracks.push(found);
        j = j + 1;
    }
    // The frames.
    let mut frames: Vec<Keyframe> = Vec::new();
    let mut i: usize = 0;
    while i < frames_len
        invariant
            n == cs.len(),
            cs == data.channels@,
            chs@ == cs,
            frames_len == frame_count(cs, joint_map@, root, n as int),
            joint_count == joint_node_count(joint_map@, joint_map@.len() as int),
            root_values@ == root_track(cs, root, n as int),
            tracks.len() == joint_count,
            forall|q: int|
                0 <= q < joint_count ==> match #[trigger] tracks@[q] {
                    Some(t) => t < n && cs[t as int].values is Rotations && rotation_track(
                        cs,
                        joint_map@,
                        root,
                        q,
                        n as int,
                    ) == cs[t as int].values->Rotations_0@,
                    None => rotation_track(cs, joint_map@, root, q, n as int) == Seq::<
                        [u32; 4],
                    >::empty(),
                },
            i <= frames_len,
            frames.len() == i,
            forall|f: int|
                0 <= f < i ==> {
                    &&& (#[trigger] frames@[f]).translation == if f < root_values@.len() {
                        root_values@[f]
                    } else {
                        zero3()
                    }
                    &&& frames@[f].transforms.len() == joint_count
                    &&& forall|q: int|
                        0 <= q < joint_count ==> (#[trigger] frames@[f].transforms@[q])@
                            == rotation_matrix_of(
                            if f < rotation_track(cs, joint_map@, root, q, n as int).len() {
                                rotation_track(cs, joint_map@, root, q, n as int)[f]@
                            } else {
                                identity_quat()
                            },
                        )
                },
        decreases frames_len - i,
    {
        let translation = if i < root_values.len() {
            root_values[i]
        } else {
            Vec3 { x: 0, y: 0, z: 0 }
        };
        let mut transforms: Vec<Vec<u32>> = Vec::new();
        let mut q: usize = 0;
        while q < joint_count
            invariant
                n == cs.len(),
                cs == data.channels@,
                chs@ == cs,
                tracks.len() == joint_count,
                forall|q2: int|
                    0 <= q2 < joint_count ==> match #[trigger] tracks@[q2] {
                        Some(t) => t < n && cs[t as int].values is Rotations && rotation_track(
                            cs,
                            joint_map@,
                            root,
                            q2,
                            n as int,
                        ) == cs[t as int].values->Rotations_0@,
                        None => rotation_track(cs, joint_map@, root, q2, n as int) == Seq::<
                            [u32; 4],
                        >::empty(),
                    },
                q <= joint_count,
                transforms.len() == q,
                forall|q2: int|
                    0 <= q2 < q ==> (#[trigger] transforms@[q2])@ == rotation_matrix_of(
                        if i < rotation_track(cs, joint_map@, root, q2, n as int).len() {
                            rotation_track(cs, joint_map@, root, q2, n as int)[i as int]@
                        } else {
                            identity_quat()
                        },
                    ),
            decreases joint_count - q,
        {
            let mut quat: Vec<u32> = vec![0, 0, 0, 0x3f80_0000];
            assert(quat@ =~= identity_quat());
            if let Some(t) = tracks[q] {
                if let ChannelValues::Rotations(v) = &chs[t].values {
                    if i < v.len() {
                        let r = v[i];
                        quat = vec![r[0], r[1], r[2], r[3]];
                        assert(quat@ =~= r@);
                    }
                }
            }
            assert(quat@ == (if i < rotation_track(cs, joint_map@, root, q as int, n as int).len() {
                rotation_track(cs, joint_map@, root, q as int, n as int)[i as int]@
            } else {
                identity_quat()
            }));
            let ghost before = transforms@;
            transforms.push(rotation_matrix(&quat));
            assert forall|q2: int| 0 <= q2 < q implies #[trigger] transforms@[q2] == before[q2] by {}
            q = q + 1;
        }
        frames.push(Keyframe { translation, transforms });
        i = i + 1;
    }
    Animation { name: data.name.clone(), frames }
}

} // verus!
