//! Small numeric helpers.
use vstd::prelude::*;

verus! {

pub trait NumExt: Sized {
    /// The number, as an unbounded integer.
    spec fn as_int(self) -> int;

    /// Returns `true` if self is an odd number.
    fn is_odd(self) -> (r: bool)
        ensures
            r == (self.as_int() % 2 == 1),
    ;
}

impl NumExt for usize {
    open spec fn as_int(self) -> int {
        self as int
    }

    fn is_odd(self) -> (r: bool) {
        self % 2 != 0
    }
}

impl NumExt for isize {
    open spec fn as_int(self) -> int {
        self as int
    }

    fn is_odd(self) -> (r: bool) {
        self % 2 != 0
    }
}

impl NumExt for i8 {
    open spec fn as_int(self) -> int {
        self as int
    }

    fn is_odd(self) -> (r: bool) {
        self % 2 != 0
    }
}

impl NumExt for i32 {
    open spec fn as_int(self) -> int {
        self as int
    }

    fn is_odd(self) -> (r: bool) {
        self % 2 != 0
    }
}

impl NumExt for i64 {
    open spec fn as_int(self) -> int {
        self as int
    }

    fn is_odd(self) -> (r: bool) {
        self % 2 != 0
    }
}

impl NumExt for i128 {
    open spec fn as_int(self) -> int {
        self as int
    }

    fn is_odd(self) -> (r: bool) {
        self % 2 != 0
    }
}

} // verus!
