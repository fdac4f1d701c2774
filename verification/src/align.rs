//! Rounding an offset up to an alignment.
use vstd::prelude::*;
use vstd::arithmetic::power2::{pow2, lemma_pow2_pos, lemma2_to64};
use vstd::bits::{low_bits_mask, lemma_usize_low_bits_mask_is_mod};

verus! {

/// `align` is a power of two.
pub open spec fn is_power_of_two(align: usize) -> bool {
    exists|n: nat| n < usize::BITS && pow2(n) == align
}

/// What `align_up` computes: `value` for an alignment of at most 1, else
/// `value + align - 1` with the bits below the alignment cleared.
pub open spec fn spec_align_up(value: usize, align: usize) -> usize {
    if align <= 1 {
        value
    } else {
        ((value + (align - 1)) as usize) & !((align - 1) as usize)
    }
}

/// Rounding up to a power of two gives the next multiple of it.
pub proof fn lemma_mask_round_up(value: usize, align: usize)
    requires
        align > 1,
        is_power_of_two(align),
        value + (align - 1) <= usize::MAX,
    ensures
        spec_align_up(value, align) % align == 0,
        value <= spec_align_up(value, align),
        spec_align_up(value, align) < value + align,
{
    let m = (align - 1) as usize;
    let s = (value + m) as usize;
    assert(s & !m <= s) by (bit_vector);
    assert(s - (s & !m) == s & m) by (bit_vector);
    assert((s & m) <= m) by (bit_vector);
    assert((s & !m) & m == 0) by (bit_vector);
    let n = choose|n: nat| n < usize::BITS && pow2(n) == align;
    lemma_usize_low_bits_mask_is_mod(s & !m, n);
    assert(low_bits_mask(n) == m);
}

/// Rounds `value` up to the next multiple of the power of two `align`.
pub fn align_up(value: usize, align: usize) -> (res: usize)
    requires
        align > 1 ==> value + (align - 1) <= usize::MAX,
    ensures
        res == spec_align_up(value, align),
        is_power_of_two(align) ==> res % align == 0 && value <= res && res < value + align,
{
    if align <= 1 {
        proof {
            if is_power_of_two(align) {
                let n = choose|n: nat| n < usize::BITS && pow2(n) == align;
                lemma_pow2_pos(n);
            }
        }
        value
    } else {
        proof {
            if is_power_of_two(align) {
                lemma_mask_round_up(value, align);
            }
        }
        (value + (align - 1)) & !(align - 1)
    }
}

/// Rounds `value` up to the next multiple of the power of two `align`; the
/// macro-side twin of `align_up`, with the same result.
pub fn align_up_host(value: usize, align: usize) -> (res: usize)
    requires
        align > 1 ==> value + (align - 1) <= usize::MAX,
    ensures
        res == spec_align_up(value, align),
        is_power_of_two(align) ==> res % align == 0 && value <= res && res < value + align,
{
    align_up(value, align)
}

/// The alignments 1, 2, 4, 8 and 16 are powers of two.
pub proof fn lemma_small_power_of_two(align: usize)
    requires
        align == 1 || align == 2 || align == 4 || align == 8 || align == 16,
    ensures
        is_power_of_two(align),
{
    lemma2_to64();
    if align == 1 {
        assert(pow2(0) == align);
    } else if align == 2 {
        assert(pow2(1) == align);
    } else if align == 4 {
        assert(pow2(2) == align);
    } else if align == 8 {
        assert(pow2(3) == align);
    } else {
        assert(pow2(4) == align);
    }
}

/// Law: a multiple of the alignment is left as it is, so aligning twice
/// gives what aligning once gives.
pub proof fn law_align_up_keeps_multiples(value: usize, align: usize)
    requires
        is_power_of_two(align),
        value % align == 0,
        align > 1 ==> value + (align - 1) <= usize::MAX,
    ensures
        spec_align_up(value, align) == value,
{
    if align > 1 {
        lemma_mask_round_up(value, align);
        let r = spec_align_up(value, align);
        assert(r == value) by (nonlinear_arith)
            requires
                r % align == 0,
                value % align == 0,
                value <= r,
                r < value + align,
                align > 1,
        {
            let q1 = r / align;
            let q2 = value / align;
            assert(r == q1 * align);
            assert(value == q2 * align);
        }
    }
}

} // verus!
