//! Arithmetic on byte alignments: powers of two and rounding an offset up to
//! the next multiple of an alignment.

use vstd::prelude::*;
use vstd::arithmetic::div_mod::lemma_fundamental_div_mod;
use vstd::arithmetic::div_mod::lemma_fundamental_div_mod_converse;
use vstd::arithmetic::div_mod::lemma_mod_bound;
use vstd::arithmetic::div_mod::lemma_mod_multiples_basic;

verus! {

/// `a` is a power of two: 1, 2, 4, 8, ...
pub open spec fn is_pow2(a: int) -> bool
    decreases a,
{
    if a <= 0 {
        false
    } else if a == 1 {
        true
    } else {
        a % 2 == 0 && is_pow2(a / 2)
    }
}

/// The smallest multiple of `alignment` that is at least `offset`; the
/// aligned position reached from `offset` by inserting padding bytes.
pub open spec fn align_up(offset: int, alignment: int) -> int
    recommends
        0 <= offset,
        1 <= alignment,
{
    ((offset + alignment - 1) / alignment) * alignment
}

/// `align_up` yields the unique multiple of `alignment` in the half-open
/// window `[offset, offset + alignment)`, and adds exactly the padding
/// `(-offset) mod alignment`.
pub proof fn lemma_align_up(offset: int, alignment: int)
    requires
        0 <= offset,
        1 <= alignment,
    ensures
        align_up(offset, alignment) % alignment == 0,
        offset <= align_up(offset, alignment) < offset + alignment,
        offset % alignment == 0 ==> align_up(offset, alignment) == offset,
        offset % alignment != 0 ==> align_up(offset, alignment) == offset + alignment - offset
            % alignment,
{
    let q = offset / alignment;
    let r = offset % alignment;
    lemma_fundamental_div_mod(offset, alignment);
    lemma_mod_bound(offset, alignment);
    if r == 0 {
        assert(q * alignment + (alignment - 1) == offset + alignment - 1) by (nonlinear_arith)
            requires
                offset == alignment * q + r,
                r == 0,
        ;
        lemma_fundamental_div_mod_converse(offset + alignment - 1, alignment, q, alignment - 1);
        assert(align_up(offset, alignment) == q * alignment);
        lemma_mod_multiples_basic(q, alignment);
        assert(q * alignment == offset) by (nonlinear_arith)
            requires
                offset == alignment * q + r,
                r == 0,
        ;
    } else {
        assert((q + 1) * alignment + (r - 1) == offset + alignment - 1) by (nonlinear_arith)
            requires
                offset == alignment * q + r,
        ;
        lemma_fundamental_div_mod_converse(offset + alignment - 1, alignment, q + 1, r - 1);
        assert(align_up(offset, alignment) == (q + 1) * alignment);
        lemma_mod_multiples_basic(q + 1, alignment);
        assert((q + 1) * alignment == offset + alignment - r) by (nonlinear_arith)
            requires
                offset == alignment * q + r,
        ;
    }
}

/// Decides whether `a` is a power of two by stripping factors of two.
pub fn is_power_of_two(a: usize) -> (r: bool)
    ensures
        r == is_pow2(a as int),
{
    if a == 0 {
        return false;
    }
    let mut x: usize = a;
    while x % 2 == 0
        invariant
            1 <= x,
            is_pow2(a as int) == is_pow2(x as int),
        decreases x,
    {
        x = x / 2;
    }
    x == 1
}

/// Rounds `offset` up to the next multiple of `alignment`, adding the padding
/// bytes that a field of that alignment would need at `offset`.
pub fn align_offset_up(offset: usize, alignment: usize) -> (r: usize)
    requires
        1 <= alignment,
        align_up(offset as int, alignment as int) <= usize::MAX,
    ensures
        r as int == align_up(offset as int, alignment as int),
{
    proof {
        lemma_align_up(offset as int, alignment as int);
    }
    let rem = offset % alignment;
    if rem == 0 {
        offset
    } else {
        offset + (alignment - rem)
    }
}

} // verus!
