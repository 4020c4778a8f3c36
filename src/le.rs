//! Little-endian encoding of the integer fields of the binary formats.

use vstd::prelude::*;

verus! {

/// The two little-endian bytes of `v`.
pub open spec fn u16_le(v: u16) -> Seq<u8> {
    seq![v as u8, (v >> 8u16) as u8]
}

/// The four little-endian bytes of `v`.
pub open spec fn u32_le(v: u32) -> Seq<u8> {
    seq![v as u8, (v >> 8u32) as u8, (v >> 16u32) as u8, (v >> 24u32) as u8]
}

pub open spec fn le_u16(b0: u8, b1: u8) -> u16 {
    (b0 as u16) | ((b1 as u16) << 8u16)
}

pub open spec fn le_u32(b0: u8, b1: u8, b2: u8, b3: u8) -> u32 {
    (b0 as u32) | ((b1 as u32) << 8u32) | ((b2 as u32) << 16u32) | ((b3 as u32) << 24u32)
}

/// The `u16` stored little-endian at `pos` in `s`.
pub open spec fn u16_at(s: Seq<u8>, pos: int) -> u16 {
    le_u16(s[pos], s[pos + 1])
}

/// The `u32` stored little-endian at `pos` in `s`.
pub open spec fn u32_at(s: Seq<u8>, pos: int) -> u32 {
    le_u32(s[pos], s[pos + 1], s[pos + 2], s[pos + 3])
}

pub proof fn lemma_u16_round_trip(v: u16)
    ensures
        le_u16(v as u8, (v >> 8u16) as u8) == v,
{
    assert(((v as u8) as u16) | ((((v >> 8u16) as u8) as u16) << 8u16) == v) by (bit_vector);
}

pub proof fn lemma_u32_round_trip(v: u32)
    ensures
        le_u32(v as u8, (v >> 8u32) as u8, (v >> 16u32) as u8, (v >> 24u32) as u8) == v,
{
    assert(((v as u8) as u32) | ((((v >> 8u32) as u8) as u32) << 8u32) | ((((v >> 16u32) as u8)
        as u32) << 16u32) | ((((v >> 24u32) as u8) as u32) << 24u32) == v) by (bit_vector);
}

/// A `u16` written little-endian at the end of `prefix` reads back unchanged.
pub proof fn lemma_u16_at(prefix: Seq<u8>, v: u16, suffix: Seq<u8>)
    ensures
        u16_at(prefix + u16_le(v) + suffix, prefix.len() as int) == v,
{
    let s = prefix + u16_le(v) + suffix;
    let p = prefix.len() as int;
    assert(s[p] == u16_le(v)[0]);
    assert(s[p + 1] == u16_le(v)[1]);
    lemma_u16_round_trip(v);
}

/// A `u32` written little-endian at the end of `prefix` reads back unchanged.
pub proof fn lemma_u32_at(prefix: Seq<u8>, v: u32, suffix: Seq<u8>)
    ensures
        u32_at(prefix + u32_le(v) + suffix, prefix.len() as int) == v,
{
    let s = prefix + u32_le(v) + suffix;
    let p = prefix.len() as int;
    assert(s[p] == u32_le(v)[0]);
    assert(s[p + 1] == u32_le(v)[1]);
    assert(s[p + 2] == u32_le(v)[2]);
    assert(s[p + 3] == u32_le(v)[3]);
    lemma_u32_round_trip(v);
}

pub fn read_u16(b: &[u8], pos: usize) -> (r: u16)
    requires
        pos + 2 <= b@.len(),
    ensures
        r == u16_at(b@, pos as int),
{
    (b[pos] as u16) | ((b[pos + 1] as u16) << 8u16)
}

pub fn read_u32(b: &[u8], pos: usize) -> (r: u32)
    requires
        pos + 4 <= b@.len(),
    ensures
        r == u32_at(b@, pos as int),
{
    (b[pos] as u32) | ((b[pos + 1] as u32) << 8u32) | ((b[pos + 2] as u32) << 16u32) | ((b[pos
        + 3] as u32) << 24u32)
}

pub fn write_u16(out: &mut Vec<u8>, v: u16)
    ensures
        final(out)@ == old(out)@ + u16_le(v),
{
    out.push(v as u8);
    out.push((v >> 8u16) as u8);
    assert(final(out)@ =~= old(out)@ + u16_le(v));
}

pub fn write_u32(out: &mut Vec<u8>, v: u32)
    ensures
        final(out)@ == old(out)@ + u32_le(v),
{
    out.push(v as u8);
    out.push((v >> 8u32) as u8);
    out.push((v >> 16u32) as u8);
    out.push((v >> 24u32) as u8);
    assert(final(out)@ =~= old(out)@ + u32_le(v));
}

} // verus!

verus! {

/// The concatenation of the encodings of the items of `s`, in order.
pub open spec fn flatten<A>(s: Seq<A>, f: spec_fn(A) -> Seq<u8>) -> Seq<u8>
    decreases s.len(),
{
    if s.len() == 0 {
        seq![]
    } else {
        flatten(s.drop_last(), f) + f(s.last())
    }
}

pub proof fn lemma_flatten_push<A>(s: Seq<A>, f: spec_fn(A) -> Seq<u8>, k: int)
    requires
        0 <= k < s.len(),
    ensures
        flatten(s.take(k + 1), f) == flatten(s.take(k), f) + f(s[k]),
{
    assert(s.take(k + 1).drop_last() =~= s.take(k));
}

/// With items of `n` bytes each, item `i` occupies bytes `n * i .. n * i + n`.
pub proof fn lemma_flatten_fixed<A>(s: Seq<A>, f: spec_fn(A) -> Seq<u8>, n: nat)
    requires
        forall|i: int| 0 <= i < s.len() ==> (#[trigger] f(s[i])).len() == n,
    ensures
        flatten(s, f).len() == n * s.len(),
        forall|i: int|
            0 <= i < s.len() ==> flatten(s, f).subrange(n * i, n * i + n) == #[trigger] f(s[i]),
    decreases s.len(),
{
    if s.len() > 0 {
        let init = s.drop_last();
        assert forall|i: int| 0 <= i < init.len() implies (#[trigger] f(init[i])).len() == n by {
            assert(init[i] == s[i]);
        }
        lemma_flatten_fixed(init, f, n);
        let k = init.len() as int;
        assert(n * (k + 1) == n * k + n) by (nonlinear_arith);
        assert forall|i: int| 0 <= i < s.len() implies flatten(s, f).subrange(n * i, n * i + n)
            == #[trigger] f(s[i]) by {
            if i < k {
                assert(init[i] == s[i]);
                assert(n * i + n <= n * k) by (nonlinear_arith)
                    requires
                        i < k,
                ;
                assert(0 <= n * i) by (nonlinear_arith)
                    requires
                        0 <= i,
                ;
                assert(flatten(s, f).subrange(n * i, n * i + n) =~= flatten(init, f).subrange(
                    n * i,
                    n * i + n,
                ));
            } else {
                assert(flatten(s, f).subrange(n * i, n * i + n) =~= f(s[i]));
            }
        }
    }
}

} // verus!

verus! {

} // verus!

verus! {

pub proof fn lemma_concat_prefix(a: Seq<u8>, b: Seq<u8>, i: int, j: int)
    requires
        0 <= i <= j <= a.len(),
    ensures
        (a + b).subrange(i, j) == a.subrange(i, j),
{
    assert((a + b).subrange(i, j) =~= a.subrange(i, j));
}

pub proof fn lemma_concat_suffix(a: Seq<u8>, b: Seq<u8>)
    ensures
        (a + b).subrange(a.len() as int, (a.len() + b.len()) as int) == b,
{
    assert((a + b).subrange(a.len() as int, (a.len() + b.len()) as int) =~= b);
}

/// Item `i` of a run of `n`-byte items that `e` holds at `o`.
pub proof fn lemma_flatten_item<A>(
    e: Seq<u8>,
    o: int,
    s: Seq<A>,
    f: spec_fn(A) -> Seq<u8>,
    n: nat,
    i: int,
)
    requires
        forall|j: int| 0 <= j < s.len() ==> (#[trigger] f(s[j])).len() == n,
        0 <= i < s.len(),
        0 <= o,
        o + n * s.len() <= e.len(),
        e.subrange(o, o + n * s.len()) == flatten(s, f),
    ensures
        e.subrange(o + n * i, o + n * i + n) == f(s[i]),
{
    lemma_flatten_fixed(s, f, n);
    assert(n * i + n <= n * s.len()) by (nonlinear_arith)
        requires
            i < s.len(),
    ;
    assert(0 <= n * i) by (nonlinear_arith)
        requires
            0 <= i,
    ;
    assert(e.subrange(o + n * i, o + n * i + n) =~= flatten(s, f).subrange(n * i, n * i + n));
}

} // verus!

verus! {

/// Re-encoding the `u32` read at `pos` gives back the four bytes it was read from.
pub proof fn lemma_u32_bytes(s: Seq<u8>, pos: int)
    requires
        0 <= pos,
        pos + 4 <= s.len(),
    ensures
        u32_le(u32_at(s, pos)) == s.subrange(pos, pos + 4),
{
    let (b0, b1, b2, b3) = (s[pos], s[pos + 1], s[pos + 2], s[pos + 3]);
    let v = le_u32(b0, b1, b2, b3);
    assert(v as u8 == b0 && (v >> 8u32) as u8 == b1 && (v >> 16u32) as u8 == b2 && (v >> 24u32)
        as u8 == b3) by (bit_vector)
        requires
            v == (b0 as u32) | ((b1 as u32) << 8u32) | ((b2 as u32) << 16u32) | ((b3 as u32)
                << 24u32),
    ;
    assert(u32_le(v) =~= s.subrange(pos, pos + 4));
}

/// Re-encoding the `u16` read at `pos` gives back the two bytes it was read from.
pub proof fn lemma_u16_bytes(s: Seq<u8>, pos: int)
    requires
        0 <= pos,
        pos + 2 <= s.len(),
    ensures
        u16_le(u16_at(s, pos)) == s.subrange(pos, pos + 2),
{
    let (b0, b1) = (s[pos], s[pos + 1]);
    let v = le_u16(b0, b1);
    assert(v as u8 == b0 && (v >> 8u16) as u8 == b1) by (bit_vector)
        requires
            v == (b0 as u16) | ((b1 as u16) << 8u16),
    ;
    assert(u16_le(v) =~= s.subrange(pos, pos + 2));
}

/// When item `i` encodes to the `i`-th `n`-byte chunk of `target`, all items
/// encode to `target`.
pub proof fn lemma_flatten_chunks<A>(s: Seq<A>, f: spec_fn(A) -> Seq<u8>, n: nat, target: Seq<u8>)
    requires
        target.len() == n * s.len(),
        forall|i: int| 0 <= i < s.len() ==> #[trigger] f(s[i]) == target.subrange(n * i, n * i + n),
    ensures
        flatten(s, f) == target,
    decreases s.len(),
{
    if s.len() == 0 {
        assert(target =~= seq![]);
    } else {
        let k = s.len() - 1;
        let init = s.drop_last();
        assert(n * (k + 1) == n * k + n) by (nonlinear_arith);
        let head = target.subrange(0, n * k);
        assert forall|i: int| 0 <= i < init.len() implies #[trigger] f(init[i]) == head.subrange(
            n * i,
            n * i + n,
        ) by {
            assert(init[i] == s[i]);
            assert(n * i + n <= n * k) by (nonlinear_arith)
                requires
                    i < k,
            ;
            assert(0 <= n * i) by (nonlinear_arith)
                requires
                    0 <= i,
            ;
            assert(head.subrange(n * i, n * i + n) =~= target.subrange(n * i, n * i + n));
        }
        assert(0 <= n * k) by (nonlinear_arith)
            requires
                0 <= k,
        ;
        lemma_flatten_chunks(init, f, n, head);
        assert(target =~= head + target.subrange(n * k, n * k + n));
    }
}

} // verus!
