//! Fixed-width byte encodings of integers, least or most significant byte first.

use vstd::prelude::*;

verus! {

/// `256` to the power `w`: the number of values that `w` bytes can hold.
pub open spec fn pow256(w: nat) -> nat
    decreases w,
{
    if w == 0 {
        1
    } else {
        256 * pow256((w - 1) as nat)
    }
}

/// The low `w` bytes of `x`, least significant first.
pub open spec fn le_bytes(x: nat, w: nat) -> Seq<u8>
    decreases w,
{
    if w == 0 {
        seq![]
    } else {
        seq![(x % 256) as u8] + le_bytes(x / 256, (w - 1) as nat)
    }
}

/// The low `w` bytes of `x`, most significant first.
pub open spec fn be_bytes(x: nat, w: nat) -> Seq<u8>
    decreases w,
{
    if w == 0 {
        seq![]
    } else {
        be_bytes(x / 256, (w - 1) as nat).push((x % 256) as u8)
    }
}

/// Reads bytes as an unsigned number, least significant first.
pub open spec fn from_le(s: Seq<u8>) -> nat
    decreases s.len(),
{
    if s.len() == 0 {
        0
    } else {
        s[0] as nat + 256 * from_le(s.drop_first())
    }
}

/// Reads bytes as an unsigned number, most significant first.
pub open spec fn from_be(s: Seq<u8>) -> nat
    decreases s.len(),
{
    if s.len() == 0 {
        0
    } else {
        256 * from_be(s.drop_last()) + s.last() as nat
    }
}

/// Appends the low `w` bytes of `x`, least significant first.
pub fn push_le(bytes: &mut Vec<u8>, x: u128, w: usize)
    ensures
        final(bytes)@ == old(bytes)@ + le_bytes(x as nat, w as nat),
    decreases w,
{
    if w == 0 {
        assert(old(bytes)@ + le_bytes(x as nat, 0) =~= old(bytes)@);
        return;
    }
    bytes.push((x % 256) as u8);
    push_le(bytes, x / 256, w - 1);
    assert(final(bytes)@ =~= old(bytes)@ + le_bytes(x as nat, w as nat));
}

/// Appends the low `w` bytes of `x`, most significant first.
pub fn push_be(bytes: &mut Vec<u8>, x: u128, w: usize)
    ensures
        final(bytes)@ == old(bytes)@ + be_bytes(x as nat, w as nat),
    decreases w,
{
    if w == 0 {
        assert(old(bytes)@ + be_bytes(x as nat, 0) =~= old(bytes)@);
        return;
    }
    push_be(bytes, x / 256, w - 1);
    bytes.push((x % 256) as u8);
    assert(final(bytes)@ =~= old(bytes)@ + be_bytes(x as nat, w as nat));
}

/// Writing `w` bytes least significant first and reading them back in the
/// same order gives the value again; exactly `w` bytes are written.
pub proof fn lemma_le_round_trip(x: nat, w: nat)
    requires
        x < pow256(w),
    ensures
        le_bytes(x, w).len() == w,
        from_le(le_bytes(x, w)) == x,
    decreases w,
{
    if w > 0 {
        let p = pow256((w - 1) as nat);
        assert(x / 256 < p) by (nonlinear_arith)
            requires
                x < 256 * p,
        ;
        lemma_le_round_trip(x / 256, (w - 1) as nat);
        let s = le_bytes(x, w);
        assert(s.drop_first() =~= le_bytes(x / 256, (w - 1) as nat));
        assert(s[0] as nat == x % 256);
        assert(x == x % 256 + 256 * (x / 256)) by (nonlinear_arith);
    } else {
        assert(x == 0);
    }
}

/// Writing `w` bytes most significant first and reading them back in the
/// same order gives the value again; exactly `w` bytes are written.
pub proof fn lemma_be_round_trip(x: nat, w: nat)
    requires
        x < pow256(w),
    ensures
        be_bytes(x, w).len() == w,
        from_be(be_bytes(x, w)) == x,
    decreases w,
{
    if w > 0 {
        let p = pow256((w - 1) as nat);
        assert(x / 256 < p) by (nonlinear_arith)
            requires
                x < 256 * p,
        ;
        lemma_be_round_trip(x / 256, (w - 1) as nat);
        let s = be_bytes(x, w);
        assert(s.drop_last() =~= be_bytes(x / 256, (w - 1) as nat));
        assert(s.last() as nat == x % 256);
        assert(x == 256 * (x / 256) + x % 256) by (nonlinear_arith);
    } else {
        assert(x == 0);
    }
}

} // verus!
