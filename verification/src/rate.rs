//! Firing probabilities, held as the bit patterns of IEEE 754 doubles.

use vstd::prelude::*;

verus! {

/// The bit that marks a negative number.
pub const SIGN: u64 = 0x8000_0000_0000_0000;

/// The bit pattern of infinity: what lies above it, sign aside, is not a number.
pub const INFINITY: u64 = 0x7ff0_0000_0000_0000;

/// The bit pattern of 0.
pub const ZERO: u64 = 0;

/// The bit pattern of 1.
pub const ONE: u64 = 0x3ff0_0000_0000_0000;

/// The pattern without its sign bit.
pub open spec fn magnitude(bits: u64) -> int {
    if bits >= SIGN {
        bits - SIGN
    } else {
        bits as int
    }
}

/// Whether the pattern stands for no number.
pub open spec fn is_nan(bits: u64) -> bool {
    magnitude(bits) > INFINITY
}

/// An integer that orders patterns as the numbers that they stand for: doubles of one sign are
/// ordered as their magnitudes, and the two zeros are equal.
pub open spec fn rank(bits: u64) -> int {
    if bits >= SIGN {
        -magnitude(bits)
    } else {
        magnitude(bits)
    }
}

/// Whether the number of `a` is less than that of `b`: never so where either is not a number.
pub open spec fn less(a: u64, b: u64) -> bool {
    !is_nan(a) && !is_nan(b) && rank(a) < rank(b)
}

/// The number of `bits` brought into the range from 0 to 1; not a number stays as it is.
pub open spec fn clamped(bits: u64) -> u64 {
    if less(bits, ZERO) {
        ZERO
    } else if less(ONE, bits) {
        ONE
    } else {
        bits
    }
}

/// Whether the number of `bits` lies in the range from 0 to 1.
pub open spec fn in_unit_range(bits: u64) -> bool {
    !is_nan(bits) && 0 <= rank(bits) <= ONE
}

/// Whether `bits` is what a uniform draw from the numbers from 0, inclusive, to 1, exclusive, can be.
pub open spec fn is_draw(bits: u64) -> bool {
    bits < ONE
}

fn exec_less(a: u64, b: u64) -> (r: bool)
    ensures
        r == less(a, b),
{
    let a_size: u64 = if a >= SIGN { a - SIGN } else { a };
    let b_size: u64 = if b >= SIGN { b - SIGN } else { b };
    if a_size > INFINITY || b_size > INFINITY {
        return false;
    }
    if a >= SIGN {
        if b >= SIGN {
            b_size < a_size
        } else {
            a_size > 0 || b_size > 0
        }
    } else {
        b < SIGN && a_size < b_size
    }
}

/// How likely a fault rule is to fire on a request.
#[derive(Debug, Clone, Copy, PartialEq, Eq, Structural)]
pub struct Rate {
    pub bits: u64,
}

impl Rate {
    /// The rate, brought into the range from 0 to 1.
    pub fn clamp(self) -> (r: Rate)
        ensures
            r.bits == clamped(self.bits),
    {
        if exec_less(self.bits, ZERO) {
            Rate { bits: ZERO }
        } else if exec_less(ONE, self.bits) {
            Rate { bits: ONE }
        } else {
            self
        }
    }

    /// Whether a rule of this rate fires on a random number with the bit pattern `draw`.
    pub fn fires(self, draw: u64) -> (r: bool)
        ensures
            r == less(draw, self.bits),
    {
        exec_less(draw, self.bits)
    }
}

/// A clamped rate lies between 0 and 1, unless it is not a number.
pub proof fn law_clamped_in_range(bits: u64)
    ensures
        is_nan(bits) || in_unit_range(clamped(bits)),
        is_nan(bits) ==> clamped(bits) == bits,
{
}

/// Clamping leaves the rates between 0 and 1 as they are.
pub proof fn law_clamp_keeps_probabilities(bits: u64)
    requires
        in_unit_range(bits),
    ensures
        clamped(bits) == bits,
{
}

/// A rule of rate 1 fires on every draw, and one of rate 0 on none.
pub proof fn law_certain_and_impossible(draw: u64)
    requires
        is_draw(draw),
    ensures
        less(draw, ONE),
        !less(draw, ZERO),
{
}

/// A draw on which a rule fires makes every rule of a higher rate fire.
pub proof fn law_firing_monotone(draw: u64, low: u64, high: u64)
    requires
        less(draw, low),
        less(low, high) || low == high,
    ensures
        less(draw, high),
{
}

/// The bit patterns are ordered as doubles: those below the sign bit as the integers that they are,
/// those above it the other way round and below the others, with the two zeros equal; and whatever
/// lies beyond infinity is neither less nor more than anything.
pub proof fn law_patterns_are_ordered_as_doubles(a: u64, b: u64)
    ensures
        a < 0x8000_0000_0000_0000 && b < 0x8000_0000_0000_0000 ==> (less(a, b) <==> a < b && b
            <= 0x7ff0_0000_0000_0000),
        a >= 0x8000_0000_0000_0000 && b >= 0x8000_0000_0000_0000 ==> (less(a, b) <==> b < a && a
            <= 0xfff0_0000_0000_0000),
        a >= 0x8000_0000_0000_0000 && b < 0x8000_0000_0000_0000 ==> (less(a, b) <==> a
            <= 0xfff0_0000_0000_0000 && b <= 0x7ff0_0000_0000_0000 && !(a == 0x8000_0000_0000_0000
            && b == 0)),
        a < 0x8000_0000_0000_0000 && b >= 0x8000_0000_0000_0000 ==> !less(a, b),
{
}

/// Clamping brings what is above 1 down to 1, infinity too, and what is below 0 up to 0, and leaves
/// everything else, negative zero and what is not a number too.
pub proof fn law_clamping_by_ranges(bits: u64)
    ensures
        bits <= 0x3ff0_0000_0000_0000 ==> clamped(bits) == bits,
        0x3ff0_0000_0000_0000 < bits <= 0x7ff0_0000_0000_0000 ==> clamped(bits)
            == 0x3ff0_0000_0000_0000,
        0x7ff0_0000_0000_0000 < bits <= 0x8000_0000_0000_0000 ==> clamped(bits) == bits,
        0x8000_0000_0000_0000 < bits <= 0xfff0_0000_0000_0000 ==> clamped(bits) == 0,
        0xfff0_0000_0000_0000 < bits ==> clamped(bits) == bits,
{
}

/// On a draw from 0, inclusive, to 1, exclusive, a rule fires where its rate is a number and the draw
/// is below it.
pub proof fn law_firing_on_draws(draw: u64, rate: u64)
    requires
        draw < 0x3ff0_0000_0000_0000,
    ensures
        less(draw, rate) <==> draw < rate && rate <= 0x7ff0_0000_0000_0000,
{
}

} // verus!
