use vstd::prelude::*;

verus! {

/// `a` is at most `b` in the 8-bit sequence-number space: `b` lies within
/// the half-window that starts at `a`.
pub open spec fn spec_wrapping_le(a: u8, b: u8) -> bool {
    ((b as int - a as int) % 256) < 128
}

/// `a` comes strictly before `b` in the 8-bit sequence-number space.
pub open spec fn spec_wrapping_lt(a: u8, b: u8) -> bool {
    a != b && spec_wrapping_le(a, b)
}

pub fn wrapping_le(a: u8, b: u8) -> (r: bool)
    ensures
        r == spec_wrapping_le(a, b),
{
    let diff: u8 = b.wrapping_sub(a);
    diff < 128
}

pub fn wrapping_lt(a: u8, b: u8) -> (r: bool)
    ensures
        r == spec_wrapping_lt(a, b),
{
    a != b && wrapping_le(a, b)
}

/// The successor of `v` in a counter that wraps at `modulus`.
pub fn wrapping_next(v: u64, modulus: u64) -> (r: u64)
    requires
        0 < modulus,
        v < modulus,
    ensures
        r == (v + 1) % (modulus as int),
{
    if v + 1 == modulus {
        proof {
            vstd::arithmetic::div_mod::lemma_mod_self_0(modulus as int);
        }
        0
    } else {
        proof {
            vstd::arithmetic::div_mod::lemma_small_mod((v + 1) as nat, modulus as nat);
        }
        v + 1
    }
}

} // verus!
