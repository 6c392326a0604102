//! Exact conversion between integer types.
//!
//! Grid arithmetic is carried out on `i64`, whatever integer type the caller
//! works with. [`ConvertInto`] is the bridge in both directions: it is
//! implemented from every primitive integer type into `i64` and from `i64`
//! into every primitive integer type.

use vstd::pervasive::unreached;
use vstd::prelude::*;

verus! {

/// Exact conversion of an integer into the integer type `U`.
///
/// A value is representable when `U` can hold it unchanged. Converting any
/// other value is a programming error, which the precondition of
/// `convert_into` rules out; the implementations below test for it all the
/// same, so that a caller that was not verified is stopped rather than
/// handed a wrong value.
pub trait ConvertInto<U>: Sized {
    /// Whether `U` can hold this value exactly.
    spec fn representable(self) -> bool;

    /// The value as a `U`; meaningful where `representable` holds.
    spec fn converted(self) -> U;

    /// Converts the value, which must be representable in `U`.
    fn convert_into(self) -> (out: U)
        requires
            self.representable(),
        ensures
            out == self.converted(),
    ;
}

impl ConvertInto<i64> for i64 {
    open spec fn representable(self) -> bool {
        true
    }

    open spec fn converted(self) -> i64 {
        self
    }

    fn convert_into(self) -> (out: i64) {
        self
    }
}

impl ConvertInto<i64> for i8 {
    open spec fn representable(self) -> bool {
        i64::MIN <= self <= i64::MAX
    }

    open spec fn converted(self) -> i64 {
        self as i64
    }

    fn convert_into(self) -> (out: i64) {
        self as i64
    }
}

impl ConvertInto<i64> for i16 {
    open spec fn representable(self) -> bool {
        i64::MIN <= self <= i64::MAX
    }

    open spec fn converted(self) -> i64 {
        self as i64
    }

    fn convert_into(self) -> (out: i64) {
        self as i64
    }
}

impl ConvertInto<i64> for i32 {
    open spec fn representable(self) -> bool {
        i64::MIN <= self <= i64::MAX
    }

    open spec fn converted(self) -> i64 {
        self as i64
    }

    fn convert_into(self) -> (out: i64) {
        self as i64
    }
}

impl ConvertInto<i64> for isize {
    open spec fn representable(self) -> bool {
        i64::MIN <= self <= i64::MAX
    }

    open spec fn converted(self) -> i64 {
        self as i64
    }

    fn convert_into(self) -> (out: i64) {
        self as i64
    }
}

impl ConvertInto<i64> for u8 {
    open spec fn representable(self) -> bool {
        i64::MIN <= self <= i64::MAX
    }

    open spec fn converted(self) -> i64 {
        self as i64
    }

    fn convert_into(self) -> (out: i64) {
        self as i64
    }
}

impl ConvertInto<i64> for u16 {
    open spec fn representable(self) -> bool {
        i64::MIN <= self <= i64::MAX
    }

    open spec fn converted(self) -> i64 {
        self as i64
    }

    fn convert_into(self) -> (out: i64) {
        self as i64
    }
}

impl ConvertInto<i64> for u32 {
    open spec fn representable(self) -> bool {
        i64::MIN <= self <= i64::MAX
    }

    open spec fn converted(self) -> i64 {
        self as i64
    }

    fn convert_into(self) -> (out: i64) {
        self as i64
    }
}

impl ConvertInto<i64> for i128 {
    open spec fn representable(self) -> bool {
        i64::MIN <= self <= i64::MAX
    }

    open spec fn converted(self) -> i64 {
        self as i64
    }

    fn convert_into(self) -> (out: i64) {
        if i64::MIN as i128 <= self && self <= i64::MAX as i128 {
            self as i64
        } else {
            unreached()
        }
    }
}

impl ConvertInto<i64> for u64 {
    open spec fn representable(self) -> bool {
        i64::MIN <= self <= i64::MAX
    }

    open spec fn converted(self) -> i64 {
        self as i64
    }

    fn convert_into(self) -> (out: i64) {
        if self <= i64::MAX as u64 {
            self as i64
        } else {
            unreached()
        }
    }
}

impl ConvertInto<i64> for u128 {
    open spec fn representable(self) -> bool {
        i64::MIN <= self <= i64::MAX
    }

    open spec fn converted(self) -> i64 {
        self as i64
    }

    fn convert_into(self) -> (out: i64) {
        if self <= i64::MAX as u128 {
            self as i64
        } else {
            unreached()
        }
    }
}

impl ConvertInto<i64> for usize {
    open spec fn representable(self) -> bool {
        i64::MIN <= self <= i64::MAX
    }

    open spec fn converted(self) -> i64 {
        self as i64
    }

    fn convert_into(self) -> (out: i64) {
        if self as u64 <= i64::MAX as u64 {
            self as i64
        } else {
            unreached()
        }
    }
}

impl ConvertInto<i8> for i64 {
    open spec fn representable(self) -> bool {
        i8::MIN <= self <= i8::MAX
    }

    open spec fn converted(self) -> i8 {
        self as i8
    }

    fn convert_into(self) -> (out: i8) {
        if i8::MIN as i64 <= self && self <= i8::MAX as i64 {
            self as i8
        } else {
            unreached()
        }
    }
}

impl ConvertInto<i16> for i64 {
    open spec fn representable(self) -> bool {
        i16::MIN <= self <= i16::MAX
    }

    open spec fn converted(self) -> i16 {
        self as i16
    }

    fn convert_into(self) -> (out: i16) {
        if i16::MIN as i64 <= self && self <= i16::MAX as i64 {
            self as i16
        } else {
            unreached()
        }
    }
}

impl ConvertInto<i32> for i64 {
    open spec fn representable(self) -> bool {
        i32::MIN <= self <= i32::MAX
    }

    open spec fn converted(self) -> i32 {
        self as i32
    }

    fn convert_into(self) -> (out: i32) {
        if i32::MIN as i64 <= self && self <= i32::MAX as i64 {
            self as i32
        } else {
            unreached()
        }
    }
}

impl ConvertInto<isize> for i64 {
    open spec fn representable(self) -> bool {
        isize::MIN <= self <= isize::MAX
    }

    open spec fn converted(self) -> isize {
        self as isize
    }

    fn convert_into(self) -> (out: isize) {
        if isize::MIN as i64 <= self && self <= isize::MAX as i64 {
            self as isize
        } else {
            unreached()
        }
    }
}

impl ConvertInto<i128> for i64 {
    open spec fn representable(self) -> bool {
        i128::MIN <= self <= i128::MAX
    }

    open spec fn converted(self) -> i128 {
        self as i128
    }

    fn convert_into(self) -> (out: i128) {
        self as i128
    }
}

impl ConvertInto<u8> for i64 {
    open spec fn representable(self) -> bool {
        u8::MIN <= self <= u8::MAX
    }

    open spec fn converted(self) -> u8 {
        self as u8
    }

    fn convert_into(self) -> (out: u8) {
        if 0 <= self && self <= u8::MAX as i64 {
            self as u8
        } else {
            unreached()
        }
    }
}

impl ConvertInto<u16> for i64 {
    open spec fn representable(self) -> bool {
        u16::MIN <= self <= u16::MAX
    }

    open spec fn converted(self) -> u16 {
        self as u16
    }

    fn convert_into(self) -> (out: u16) {
        if 0 <= self && self <= u16::MAX as i64 {
            self as u16
        } else {
            unreached()
        }
    }
}

impl ConvertInto<u32> for i64 {
    open spec fn representable(self) -> bool {
        u32::MIN <= self <= u32::MAX
    }

    open spec fn converted(self) -> u32 {
        self as u32
    }

    fn convert_into(self) -> (out: u32) {
        if 0 <= self && self <= u32::MAX as i64 {
            self as u32
        } else {
            unreached()
        }
    }
}

impl ConvertInto<u64> for i64 {
    open spec fn representable(self) -> bool {
        u64::MIN <= self <= u64::MAX
    }

    open spec fn converted(self) -> u64 {
        self as u64
    }

    fn convert_into(self) -> (out: u64) {
        if 0 <= self {
            self as u64
        } else {
            unreached()
        }
    }
}

impl ConvertInto<u128> for i64 {
    open spec fn representable(self) -> bool {
        u128::MIN <= self <= u128::MAX
    }

    open spec fn converted(self) -> u128 {
        self as u128
    }

    fn convert_into(self) -> (out: u128) {
        if 0 <= self {
            self as u128
        } else {
            unreached()
        }
    }
}

impl ConvertInto<usize> for i64 {
    open spec fn representable(self) -> bool {
        usize::MIN <= self <= usize::MAX
    }

    open spec fn converted(self) -> usize {
        self as usize
    }

    fn convert_into(self) -> (out: usize) {
        if 0 <= self && self as u64 <= usize::MAX as u64 {
            self as usize
        } else {
            unreached()
        }
    }
}

} // verus!
