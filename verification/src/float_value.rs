use vstd::prelude::*;

verus! {

/// A floating-point quantity, held as the raw bit pattern of an IEEE 754
/// double. The library never computes with such values; it only compares
/// them, and the comparison below is pure integer logic on the bits.
///
/// The sign bit is bit 63, the exponent the eleven bits under it, the
/// fraction the low 52 bits. A value is a NaN when the exponent field is
/// all ones and the fraction is not zero. Negative zero (only the sign
/// bit set) denotes the same number as positive zero.
#[derive(Clone, Copy, Debug, PartialEq, Eq, Structural, Hash)]
pub struct FloatValue {
    pub bits: u64,
}

/// The bit pattern of negative zero.
pub const NEG_ZERO_BITS: u64 = 0x8000_0000_0000_0000;

pub open spec fn spec_is_nan(b: u64) -> bool {
    (b >> 52) & 0x7ff == 0x7ff && b & 0xf_ffff_ffff_ffff != 0
}

/// Negative zero folded onto positive zero; other patterns kept.
pub open spec fn spec_canon(b: u64) -> u64 {
    if b == NEG_ZERO_BITS {
        0
    } else {
        b
    }
}

/// A strictly monotone map from non-NaN bit patterns to unsigned keys:
/// for numbers of unequal value the key order agrees with the numeric
/// order, and canonical patterns of equal value get equal keys.
pub open spec fn spec_order_key(b: u64) -> u64 {
    if b >= NEG_ZERO_BITS {
        !b
    } else {
        b | NEG_ZERO_BITS
    }
}

pub open spec fn spec_float_eq(a: FloatValue, b: FloatValue) -> bool {
    &&& !spec_is_nan(a.bits)
    &&& !spec_is_nan(b.bits)
    &&& spec_canon(a.bits) == spec_canon(b.bits)
}

pub open spec fn spec_float_lt(a: FloatValue, b: FloatValue) -> bool {
    &&& !spec_is_nan(a.bits)
    &&& !spec_is_nan(b.bits)
    &&& spec_order_key(spec_canon(a.bits)) < spec_order_key(spec_canon(b.bits))
}

pub open spec fn spec_float_le(a: FloatValue, b: FloatValue) -> bool {
    spec_float_lt(a, b) || spec_float_eq(a, b)
}

impl FloatValue {
    pub fn from_bits(bits: u64) -> (r: FloatValue)
        ensures
            r.bits == bits,
    {
        FloatValue { bits }
    }

    pub fn to_bits(&self) -> (r: u64)
        ensures
            r == self.bits,
    {
        self.bits
    }

    pub fn is_nan(&self) -> (r: bool)
        ensures
            r == spec_is_nan(self.bits),
    {
        (self.bits >> 52) & 0x7ff == 0x7ff && self.bits & 0xf_ffff_ffff_ffff != 0
    }

    fn canon(&self) -> (r: u64)
        ensures
            r == spec_canon(self.bits),
    {
        if self.bits == NEG_ZERO_BITS {
            0
        } else {
            self.bits
        }
    }

    /// Equality as IEEE 754 defines it: false whenever a side is a NaN,
    /// true for the two zeros.
    pub fn float_eq(&self, other: &FloatValue) -> (r: bool)
        ensures
            r == spec_float_eq(*self, *other),
    {
        !self.is_nan() && !other.is_nan() && self.canon() == other.canon()
    }

    pub fn float_lt(&self, other: &FloatValue) -> (r: bool)
        ensures
            r == spec_float_lt(*self, *other),
    {
        if self.is_nan() || other.is_nan() {
            return false;
        }
        let a = self.canon();
        let b = other.canon();
        let ka = if a >= NEG_ZERO_BITS {
            !a
        } else {
            a | NEG_ZERO_BITS
        };
        let kb = if b >= NEG_ZERO_BITS {
            !b
        } else {
            b | NEG_ZERO_BITS
        };
        ka < kb
    }

    pub fn float_le(&self, other: &FloatValue) -> (r: bool)
        ensures
            r == spec_float_le(*self, *other),
    {
        self.float_lt(other) || self.float_eq(other)
    }

    pub fn float_gt(&self, other: &FloatValue) -> (r: bool)
        ensures
            r == spec_float_lt(*other, *self),
    {
        other.float_lt(self)
    }

    pub fn float_ge(&self, other: &FloatValue) -> (r: bool)
        ensures
            r == spec_float_le(*other, *self),
    {
        other.float_le(self)
    }
}

} // verus!
