//! The integer types that a range can be over: each with its least and its
//! greatest value, and the way from a sign and a magnitude to a value of it.

use vstd::prelude::*;

verus! {

/// The integer with the given sign and magnitude.
pub open spec fn signed_value(negative: bool, magnitude: nat) -> int {
    if negative {
        -(magnitude as int)
    } else {
        magnitude as int
    }
}

/// An integer type of a fixed width, signed or unsigned.
pub trait Width: Sized + Copy {
    /// The least value of the type.
    spec fn lowest() -> int;

    /// The greatest value of the type.
    spec fn highest() -> int;

    /// The value as a mathematical integer.
    spec fn as_int(&self) -> int;

    /// No type reaches beyond what 128 bits hold, with or without a sign.
    proof fn lemma_limits()
        ensures
            -(u128::MAX as int) <= Self::lowest() <= 0 <= Self::highest() <= u128::MAX as int,
    ;

    /// Whether the type has values below zero.
    fn signed() -> (yes: bool)
        ensures
            yes == (Self::lowest() < 0),
    ;

    /// The value with the given sign and magnitude, where the type has it.
    fn from_sign_magnitude(negative: bool, magnitude: u128) -> (value: Option<Self>)
        ensures
            value is Some <==> Self::lowest() <= signed_value(negative, magnitude as nat)
                <= Self::highest(),
            value matches Some(v) ==> v.as_int() == signed_value(negative, magnitude as nat),
    ;
}

impl Width for u8 {
    open spec fn lowest() -> int {
        0
    }

    open spec fn highest() -> int {
        u8::MAX as int
    }

    open spec fn as_int(&self) -> int {
        *self as int
    }

    proof fn lemma_limits() {
    }

    fn signed() -> (yes: bool) {
        false
    }

    fn from_sign_magnitude(negative: bool, magnitude: u128) -> (value: Option<u8>) {
        if negative {
            if magnitude == 0 {
                Some(0)
            } else {
                None
            }
        } else if magnitude <= u8::MAX as u128 {
            Some(magnitude as u8)
        } else {
            None
        }
    }
}

impl Width for u16 {
    open spec fn lowest() -> int {
        0
    }

    open spec fn highest() -> int {
        u16::MAX as int
    }

    open spec fn as_int(&self) -> int {
        *self as int
    }

    proof fn lemma_limits() {
    }

    fn signed() -> (yes: bool) {
        false
    }

    fn from_sign_magnitude(negative: bool, magnitude: u128) -> (value: Option<u16>) {
        if negative {
            if magnitude == 0 {
                Some(0)
            } else {
                None
            }
        } else if magnitude <= u16::MAX as u128 {
            Some(magnitude as u16)
        } else {
            None
        }
    }
}

impl Width for u32 {
    open spec fn lowest() -> int {
        0
    }

    open spec fn highest() -> int {
        u32::MAX as int
    }

    open spec fn as_int(&self) -> int {
        *self as int
    }

    proof fn lemma_limits() {
    }

    fn signed() -> (yes: bool) {
        false
    }

    fn from_sign_magnitude(negative: bool, magnitude: u128) -> (value: Option<u32>) {
        if negative {
            if magnitude == 0 {
                Some(0)
            } else {
                None
            }
        } else if magnitude <= u32::MAX as u128 {
            Some(magnitude as u32)
        } else {
            None
        }
    }
}

impl Width for u64 {
    open spec fn lowest() -> int {
        0
    }

    open spec fn highest() -> int {
        u64::MAX as int
    }

    open spec fn as_int(&self) -> int {
        *self as int
    }

    proof fn lemma_limits() {
    }

    fn signed() -> (yes: bool) {
        false
    }

    fn from_sign_magnitude(negative: bool, magnitude: u128) -> (value: Option<u64>) {
        if negative {
            if magnitude == 0 {
                Some(0)
            } else {
                None
            }
        } else if magnitude <= u64::MAX as u128 {
            Some(magnitude as u64)
        } else {
            None
        }
    }
}

impl Width for u128 {
    open spec fn lowest() -> int {
        0
    }

    open spec fn highest() -> int {
        u128::MAX as int
    }

    open spec fn as_int(&self) -> int {
        *self as int
    }

    proof fn lemma_limits() {
    }

    fn signed() -> (yes: bool) {
        false
    }

    fn from_sign_magnitude(negative: bool, magnitude: u128) -> (value: Option<u128>) {
        if negative {
            if magnitude == 0 {
                Some(0)
            } else {
                None
            }
        } else if magnitude <= u128::MAX as u128 {
            Some(magnitude as u128)
        } else {
            None
        }
    }
}

impl Width for usize {
    open spec fn lowest() -> int {
        0
    }

    open spec fn highest() -> int {
        usize::MAX as int
    }

    open spec fn as_int(&self) -> int {
        *self as int
    }

    proof fn lemma_limits() {
    }

    fn signed() -> (yes: bool) {
        false
    }

    fn from_sign_magnitude(negative: bool, magnitude: u128) -> (value: Option<usize>) {
        if negative {
            if magnitude == 0 {
                Some(0)
            } else {
                None
            }
        } else if magnitude <= usize::MAX as u128 {
            Some(magnitude as usize)
        } else {
            None
        }
    }
}

impl Width for i8 {
    open spec fn lowest() -> int {
        i8::MIN as int
    }

    open spec fn highest() -> int {
        i8::MAX as int
    }

    open spec fn as_int(&self) -> int {
        *self as int
    }

    proof fn lemma_limits() {
    }

    fn signed() -> (yes: bool) {
        true
    }

    fn from_sign_magnitude(negative: bool, magnitude: u128) -> (value: Option<i8>) {
        if negative {
            if magnitude == 0 {
                Some(0)
            } else if magnitude - 1 <= i8::MAX as u128 {
                Some(-((magnitude - 1) as i8) - 1)
            } else {
                None
            }
        } else if magnitude <= i8::MAX as u128 {
            Some(magnitude as i8)
        } else {
            None
        }
    }
}

impl Width for i16 {
    open spec fn lowest() -> int {
        i16::MIN as int
    }

    open spec fn highest() -> int {
        i16::MAX as int
    }

    open spec fn as_int(&self) -> int {
        *self as int
    }

    proof fn lemma_limits() {
    }

    fn signed() -> (yes: bool) {
        true
    }

    fn from_sign_magnitude(negative: bool, magnitude: u128) -> (value: Option<i16>) {
        if negative {
            if magnitude == 0 {
                Some(0)
            } else if magnitude - 1 <= i16::MAX as u128 {
                Some(-((magnitude - 1) as i16) - 1)
            } else {
                None
            }
        } else if magnitude <= i16::MAX as u128 {
            Some(magnitude as i16)
        } else {
            None
        }
    }
}

impl Width for i32 {
    open spec fn lowest() -> int {
        i32::MIN as int
    }

    open spec fn highest() -> int {
        i32::MAX as int
    }

    open spec fn as_int(&self) -> int {
        *self as int
    }

    proof fn lemma_limits() {
    }

    fn signed() -> (yes: bool) {
        true
    }

    fn from_sign_magnitude(negative: bool, magnitude: u128) -> (value: Option<i32>) {
        if negative {
            if magnitude == 0 {
                Some(0)
            } else if magnitude - 1 <= i32::MAX as u128 {
                Some(-((magnitude - 1) as i32) - 1)
            } else {
                None
            }
        } else if magnitude <= i32::MAX as u128 {
            Some(magnitude as i32)
        } else {
            None
        }
    }
}

impl Width for i64 {
    open spec fn lowest() -> int {
        i64::MIN as int
    }

    open spec fn highest() -> int {
        i64::MAX as int
    }

    open spec fn as_int(&self) -> int {
        *self as int
    }

    proof fn lemma_limits() {
    }

    fn signed() -> (yes: bool) {
        true
    }

    fn from_sign_magnitude(negative: bool, magnitude: u128) -> (value: Option<i64>) {
        if negative {
            if magnitude == 0 {
                Some(0)
            } else if magnitude - 1 <= i64::MAX as u128 {
                Some(-((magnitude - 1) as i64) - 1)
            } else {
                None
            }
        } else if magnitude <= i64::MAX as u128 {
            Some(magnitude as i64)
        } else {
            None
        }
    }
}

impl Width for i128 {
    open spec fn lowest() -> int {
        i128::MIN as int
    }

    open spec fn highest() -> int {
        i128::MAX as int
    }

    open spec fn as_int(&self) -> int {
        *self as int
    }

    proof fn lemma_limits() {
    }

    fn signed() -> (yes: bool) {
        true
    }

    fn from_sign_magnitude(negative: bool, magnitude: u128) -> (value: Option<i128>) {
        if negative {
            if magnitude == 0 {
                Some(0)
            } else if magnitude - 1 <= i128::MAX as u128 {
                Some(-((magnitude - 1) as i128) - 1)
            } else {
                None
            }
        } else if magnitude <= i128::MAX as u128 {
            Some(magnitude as i128)
        } else {
            None
        }
    }
}

impl Width for isize {
    open spec fn lowest() -> int {
        isize::MIN as int
    }

    open spec fn highest() -> int {
        isize::MAX as int
    }

    open spec fn as_int(&self) -> int {
        *self as int
    }

    proof fn lemma_limits() {
    }

    fn signed() -> (yes: bool) {
        true
    }

    fn from_sign_magnitude(negative: bool, magnitude: u128) -> (value: Option<isize>) {
        if negative {
            if magnitude == 0 {
                Some(0)
            } else if magnitude - 1 <= isize::MAX as u128 {
                Some(-((magnitude - 1) as isize) - 1)
            } else {
                None
            }
        } else if magnitude <= isize::MAX as u128 {
            Some(magnitude as isize)
        } else {
            None
        }
    }
}

} // verus!
