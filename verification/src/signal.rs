//! The signal value domain: analog levels, digital bits, and the absent
//! value, together with their algebra.
//!
//! An analog level is carried as the bit pattern of an IEEE-754 single
//! precision number (`u32`); see [`crate::analog`]. All classification
//! and arithmetic on levels is verified integer logic on the pattern.
use vstd::prelude::*;
use crate::analog::{
    add_bits,
    is_nan_bits,
    is_normal_bits,
    mag_of,
    neg_bits,
    sign_of,
    spec_add_bits,
    spec_neg_bits,
};

verus! {

/// State storage for logic simulation.
///
/// `Analog` holds the IEEE-754 bit pattern of a single-precision level.
#[derive(Clone, Copy, Debug, PartialEq, Eq, Structural)]
pub enum Signal {
    Analog(u32),
    Digital(bool),
    Undefined,
}

/// Bit pattern of the analog level one.
pub open spec fn one_bits() -> u32 {
    0x3f80_0000
}

/// Bit pattern of the analog level zero.
pub open spec fn zero_bits() -> u32 {
    0
}

/// The sum of two signals: `Undefined` absorbs, digital bits or-combine,
/// analog levels add, and a digital bit joins an analog level as one or
/// zero.
pub open spec fn spec_add(a: Signal, b: Signal) -> Signal {
    match (a, b) {
        (Signal::Undefined, _) => Signal::Undefined,
        (_, Signal::Undefined) => Signal::Undefined,
        (Signal::Analog(x), Signal::Analog(y)) => Signal::Analog(spec_add_bits(x, y)),
        (Signal::Analog(x), Signal::Digital(d)) => Signal::Analog(
            spec_add_bits(x, if d { one_bits() } else { zero_bits() }),
        ),
        (Signal::Digital(d), Signal::Analog(x)) => Signal::Analog(
            spec_add_bits(x, if d { one_bits() } else { zero_bits() }),
        ),
        (Signal::Digital(x), Signal::Digital(y)) => Signal::Digital(x || y),
    }
}

/// The difference of two signals, mirroring [`spec_add`]: subtraction of
/// analog levels is addition of the negated level.
pub open spec fn spec_sub(a: Signal, b: Signal) -> Signal {
    match (a, b) {
        (Signal::Undefined, _) => Signal::Undefined,
        (_, Signal::Undefined) => Signal::Undefined,
        (Signal::Analog(x), Signal::Analog(y)) => Signal::Analog(spec_add_bits(x, spec_neg_bits(y))),
        (Signal::Analog(x), Signal::Digital(d)) => if d {
            Signal::Analog(spec_add_bits(x, spec_neg_bits(one_bits())))
        } else {
            Signal::Analog(x)
        },
        (Signal::Digital(d), Signal::Analog(x)) => if d {
            Signal::Analog(spec_add_bits(one_bits(), spec_neg_bits(x)))
        } else {
            Signal::Analog(spec_neg_bits(x))
        },
        (Signal::Digital(x), Signal::Digital(y)) => if x && !y {
            Signal::Digital(true)
        } else {
            Signal::Digital(false)
        },
    }
}

/// Negation: flip a digital bit, negate an analog level, keep `Undefined`.
pub open spec fn spec_negate(s: Signal) -> Signal {
    match s {
        Signal::Analog(x) => Signal::Analog(spec_neg_bits(x)),
        Signal::Digital(d) => Signal::Digital(!d),
        Signal::Undefined => Signal::Undefined,
    }
}

/// The operand of larger magnitude, with a digital one weighing at least
/// the analog level one, a digital zero weighing nothing, and `Undefined`
/// yielding to the other operand.
pub open spec fn spec_max_abs(a: Signal, b: Signal) -> Signal {
    match (a, b) {
        (Signal::Analog(x), Signal::Analog(y)) => if !is_nan_bits(x) && !is_nan_bits(y) && mag_of(x)
            >= mag_of(y) {
            Signal::Analog(x)
        } else {
            Signal::Analog(y)
        },
        (Signal::Analog(x), Signal::Digital(d)) => if d {
            if !is_nan_bits(x) && mag_of(x) >= mag_of(one_bits()) {
                Signal::Analog(x)
            } else {
                Signal::Digital(true)
            }
        } else {
            if is_normal_bits(x) {
                Signal::Analog(x)
            } else {
                Signal::Digital(false)
            }
        },
        (Signal::Digital(d), Signal::Analog(x)) => if d {
            if !is_nan_bits(x) && mag_of(x) >= mag_of(one_bits()) {
                Signal::Analog(x)
            } else {
                Signal::Digital(true)
            }
        } else {
            if is_normal_bits(x) {
                Signal::Analog(x)
            } else {
                Signal::Digital(false)
            }
        },
        (Signal::Digital(x), Signal::Digital(y)) => Signal::Digital(x || y),
        (Signal::Undefined, v) => v,
        (v, Signal::Undefined) => v,
    }
}

impl Signal {
    /// Whether the signal counts as on: a digital one, or an analog level
    /// that is normal (nonzero, finite, not subnormal).
    pub open spec fn spec_truthy(self) -> bool {
        match self {
            Signal::Digital(d) => d,
            Signal::Analog(value) => is_normal_bits(value),
            Signal::Undefined => false,
        }
    }

    /// Returns `true` if the signal is `Digital(true)` or `Analog` with a
    /// normal level.
    pub fn is_truthy(&self) -> (r: bool)
        ensures
            r == self.spec_truthy(),
    {
        match self {
            Signal::Digital(d) => *d,
            Signal::Analog(value) => {
                let e: u32 = (*value / 0x80_0000) % 0x100;
                e != 0 && e != 0xff
            },
            Signal::Undefined => false,
        }
    }

    /// Returns `true` if the signal is `Digital(false)`, `Undefined`, or
    /// `Analog` with a level that is not normal.
    pub fn is_falsy(&self) -> (r: bool)
        ensures
            r == !self.spec_truthy(),
    {
        match self {
            Signal::Digital(d) => !*d,
            Signal::Analog(value) => {
                let e: u32 = (*value / 0x80_0000) % 0x100;
                e == 0 || e == 0xff
            },
            Signal::Undefined => true,
        }
    }

    /// Set the signal to `Digital(false)`.
    pub fn turn_off(&mut self)
        ensures
            *final(self) == Signal::Digital(false),
    {
        *self = Signal::Digital(false);
    }

    /// Set the signal to `Digital(true)`.
    pub fn turn_on(&mut self)
        ensures
            *final(self) == Signal::Digital(true),
    {
        *self = Signal::Digital(true);
    }

    /// Replace self with a new signal if the new signal is not equal.
    ///
    /// This is useful for preventing unnecessary writes from triggering
    /// a host's change detection.
    pub fn replace(&mut self, new: Signal)
        ensures
            *final(self) == new,
    {
        if new != *self {
            *self = new;
        }
    }

    /// Returns `true` if the signal is [`Analog`] with the sign bit set.
    ///
    /// [`Analog`]: Signal::Analog
    pub fn is_sign_negative(&self) -> (r: bool)
        ensures
            r == match *self {
                Signal::Analog(v) => sign_of(v) == 1,
                _ => false,
            },
    {
        match self {
            Signal::Analog(value) => *value / 0x8000_0000 == 1,
            _ => false,
        }
    }

    /// Returns `true` if the signal is [`Analog`] with the sign bit clear.
    ///
    /// [`Analog`]: Signal::Analog
    pub fn is_sign_positive(&self) -> (r: bool)
        ensures
            r == match *self {
                Signal::Analog(v) => sign_of(v) == 0,
                _ => false,
            },
    {
        match self {
            Signal::Analog(value) => *value / 0x8000_0000 == 0,
            _ => false,
        }
    }

    /// Returns `true` if the signal is [`Analog`].
    ///
    /// [`Analog`]: Signal::Analog
    #[must_use]
    pub fn is_analog(&self) -> (r: bool)
        ensures
            r == self is Analog,
    {
        matches!(self, Signal::Analog(..))
    }

    /// Returns `true` if the signal is [`Digital`].
    ///
    /// [`Digital`]: Signal::Digital
    #[must_use]
    pub fn is_digital(&self) -> (r: bool)
        ensures
            r == self is Digital,
    {
        matches!(self, Signal::Digital(..))
    }

    /// Returns `true` if the signal is [`Undefined`].
    ///
    /// [`Undefined`]: Signal::Undefined
    #[must_use]
    pub fn is_undefined(&self) -> (r: bool)
        ensures
            r == self is Undefined,
    {
        matches!(self, Signal::Undefined)
    }

    /// Compare two signals and return the signal with a greater absolute
    /// value.
    ///
    /// This is useful when negative signals should hold the same weight
    /// as positive signals.
    pub fn max_abs(self, other: Signal) -> (r: Signal)
        ensures
            r == spec_max_abs(self, other),
    {
        match (self, other) {
            (Signal::Analog(x), Signal::Analog(y)) => {
                let ex: u32 = (x / 0x80_0000) % 0x100;
                let ey: u32 = (y / 0x80_0000) % 0x100;
                let x_nan = ex == 0xff && x % 0x80_0000 != 0;
                let y_nan = ey == 0xff && y % 0x80_0000 != 0;
                let mx: u32 = ex * 0x80_0000 + x % 0x80_0000;
                let my: u32 = ey * 0x80_0000 + y % 0x80_0000;
                if !x_nan && !y_nan && mx >= my {
                    Signal::Analog(x)
                } else {
                    Signal::Analog(y)
                }
            },
            (Signal::Analog(x), Signal::Digital(d)) => Self::max_abs_analog_digital(x, d),
            (Signal::Digital(d), Signal::Analog(x)) => Self::max_abs_analog_digital(x, d),
            (Signal::Digital(x), Signal::Digital(y)) => Signal::Digital(x || y),
            (Signal::Undefined, v) => v,
            (v, Signal::Undefined) => v,
        }
    }

    /// The analog-against-digital arm of [`Self::max_abs`], shared by both
    /// operand orders.
    fn max_abs_analog_digital(x: u32, d: bool) -> (r: Signal)
        ensures
            r == spec_max_abs(Signal::Analog(x), Signal::Digital(d)),
    {
        let e: u32 = (x / 0x80_0000) % 0x100;
        if d {
            let x_nan = e == 0xff && x % 0x80_0000 != 0;
            let m: u32 = e * 0x80_0000 + x % 0x80_0000;
            if !x_nan && m >= 0x3f80_0000 {
                Signal::Analog(x)
            } else {
                Signal::Digital(true)
            }
        } else {
            if e != 0 && e != 0xff {
                Signal::Analog(x)
            } else {
                Signal::Digital(false)
            }
        }
    }

    /// The sum of two signals; see [`spec_add`].
    pub fn add(self, rhs: Signal) -> (r: Signal)
        ensures
            r == spec_add(self, rhs),
    {
        match (self, rhs) {
            (Signal::Undefined, _) => Signal::Undefined,
            (_, Signal::Undefined) => Signal::Undefined,
            (Signal::Analog(x), Signal::Analog(y)) => Signal::Analog(add_bits(x, y)),
            (Signal::Analog(x), Signal::Digital(d)) => Signal::Analog(
                add_bits(x, if d { 0x3f80_0000 } else { 0 }),
            ),
            (Signal::Digital(d), Signal::Analog(x)) => Signal::Analog(
                add_bits(x, if d { 0x3f80_0000 } else { 0 }),
            ),
            (Signal::Digital(x), Signal::Digital(y)) => Signal::Digital(x || y),
        }
    }

    /// The difference of two signals; see [`spec_sub`].
    pub fn sub(self, rhs: Signal) -> (r: Signal)
        ensures
            r == spec_sub(self, rhs),
    {
        match (self, rhs) {
            (Signal::Undefined, _) => Signal::Undefined,
            (_, Signal::Undefined) => Signal::Undefined,
            (Signal::Analog(x), Signal::Analog(y)) => Signal::Analog(add_bits(x, neg_bits(y))),
            (Signal::Analog(x), Signal::Digital(d)) => if d {
                Signal::Analog(add_bits(x, 0xbf80_0000))
            } else {
                Signal::Analog(x)
            },
            (Signal::Digital(d), Signal::Analog(x)) => if d {
                Signal::Analog(add_bits(0x3f80_0000, neg_bits(x)))
            } else {
                Signal::Analog(neg_bits(x))
            },
            (Signal::Digital(x), Signal::Digital(y)) => if x && !y {
                Signal::Digital(true)
            } else {
                Signal::Digital(false)
            },
        }
    }

    /// Negation; see [`spec_negate`].
    pub fn negate(self) -> (r: Signal)
        ensures
            r == spec_negate(self),
    {
        match self {
            Signal::Analog(x) => Signal::Analog(neg_bits(x)),
            Signal::Digital(d) => Signal::Digital(!d),
            Signal::Undefined => Signal::Undefined,
        }
    }

    /// The sum of the signal and a raw analog level; a digital bit joins
    /// as the level one or zero.
    pub fn add_level(self, rhs: u32) -> (r: Signal)
        ensures
            r == match self {
                Signal::Analog(x) => Signal::Analog(spec_add_bits(x, rhs)),
                Signal::Digital(d) => if d {
                    Signal::Analog(spec_add_bits(one_bits(), rhs))
                } else {
                    Signal::Analog(rhs)
                },
                Signal::Undefined => Signal::Undefined,
            },
    {
        match self {
            Signal::Analog(x) => Signal::Analog(add_bits(x, rhs)),
            Signal::Digital(d) => if d {
                Signal::Analog(add_bits(0x3f80_0000, rhs))
            } else {
                Signal::Analog(rhs)
            },
            Signal::Undefined => Signal::Undefined,
        }
    }

    /// The difference of the signal and a raw analog level.
    pub fn sub_level(self, rhs: u32) -> (r: Signal)
        ensures
            r == match self {
                Signal::Analog(x) => Signal::Analog(spec_add_bits(x, spec_neg_bits(rhs))),
                Signal::Digital(d) => if d {
                    Signal::Analog(spec_add_bits(one_bits(), spec_neg_bits(rhs)))
                } else {
                    Signal::Analog(spec_neg_bits(rhs))
                },
                Signal::Undefined => Signal::Undefined,
            },
    {
        match self {
            Signal::Analog(x) => Signal::Analog(add_bits(x, neg_bits(rhs))),
            Signal::Digital(d) => if d {
                Signal::Analog(add_bits(0x3f80_0000, neg_bits(rhs)))
            } else {
                Signal::Analog(neg_bits(rhs))
            },
            Signal::Undefined => Signal::Undefined,
        }
    }
}

/// `Undefined` absorbs under addition, on either side: no sum with an
/// absent operand carries information.
pub proof fn lemma_add_undefined_absorbs(s: Signal)
    ensures
        spec_add(s, Signal::Undefined) == Signal::Undefined,
        spec_add(Signal::Undefined, s) == Signal::Undefined,
{
}

pub trait SignalExt {
    /// The signals held by the container.
    spec fn sig_view(&self) -> Seq<Signal>;

    /// Replace all signals in `self` with `signal`.
    fn set_all(&mut self, signal: Signal)
        ensures
            final(self).sig_view().len() == old(self).sig_view().len(),
            forall|i: int|
                0 <= i < final(self).sig_view().len() ==> final(self).sig_view()[i] == signal,
    ;
}

impl SignalExt for Vec<Signal> {
    open spec fn sig_view(&self) -> Seq<Signal> {
        self@
    }

    fn set_all(&mut self, signal: Signal) {
        let n = self.len();
        let mut i: usize = 0;
        while i < n
            invariant
                n == self@.len(),
                0 <= i <= n,
                forall|k: int| 0 <= k < i ==> self@[k] == signal,
            decreases n - i,
        {
            self.set(i, signal);
            i = i + 1;
        }
    }
}

} // verus!
