//! Colors with four independent fixed-point channels.

use crate::fixed::Fixed;
use vstd::prelude::*;
use vstd::std_specs::ops::{AddSpecImpl, DivSpecImpl, MulSpecImpl};

verus! {

/// A color with red, green, blue and alpha channels. A channel has no upper
/// bound short of saturation: emitted light may exceed one.
#[derive(Clone, Copy, PartialEq, Eq, Structural, Debug)]
pub struct Color {
    pub r: Fixed,
    pub g: Fixed,
    pub b: Fixed,
    pub a: Fixed,
}

impl Color {
    /// The color whose four channels are zero, in contracts.
    pub open spec fn spec_black() -> Color {
        Color { r: Fixed::of(0), g: Fixed::of(0), b: Fixed::of(0), a: Fixed::of(0) }
    }

    /// Each channel multiplied by `factor`.
    pub open spec fn scaled(self, factor: Fixed) -> Color {
        Color {
            r: self.r.times(factor),
            g: self.g.times(factor),
            b: self.b.times(factor),
            a: self.a.times(factor),
        }
    }

    /// Each channel divided by `divisor`.
    pub open spec fn divided(self, divisor: Fixed) -> Color {
        Color {
            r: self.r.over(divisor),
            g: self.g.over(divisor),
            b: self.b.over(divisor),
            a: self.a.over(divisor),
        }
    }

    /// The channel-wise sum.
    pub open spec fn plus(self, other: Color) -> Color {
        Color {
            r: self.r.plus(other.r),
            g: self.g.plus(other.g),
            b: self.b.plus(other.b),
            a: self.a.plus(other.a),
        }
    }

    /// The channel-wise product.
    pub open spec fn times(self, other: Color) -> Color {
        Color {
            r: self.r.times(other.r),
            g: self.g.times(other.g),
            b: self.b.times(other.b),
            a: self.a.times(other.a),
        }
    }

    /// The largest of the red, green and blue channels.
    pub open spec fn spec_max_component(self) -> Fixed {
        self.r.larger(self.g.larger(self.b))
    }

    /// The color with the given channels.
    pub fn new(r: Fixed, g: Fixed, b: Fixed, a: Fixed) -> (c: Self)
        ensures
            c == (Color { r, g, b, a }),
    {
        Self { r, g, b, a }
    }

    /// The color whose four channels are zero.
    #[verifier::when_used_as_spec(spec_black)]
    pub fn black() -> (c: Self)
        ensures
            c == Color::spec_black(),
    {
        Self { r: Fixed::zero(), g: Fixed::zero(), b: Fixed::zero(), a: Fixed::zero() }
    }

    /// The largest of the red, green and blue channels.
    #[verifier::when_used_as_spec(spec_max_component)]
    pub fn max_component(self) -> (m: Fixed)
        ensures
            m == self.spec_max_component(),
    {
        self.r.max(self.g.max(self.b))
    }
}

impl core::ops::Mul<Fixed> for Color {
    type Output = Color;

    fn mul(self, other: Fixed) -> (c: Color)
        ensures
            c == self.scaled(other),
    {
        Color { r: self.r * other, g: self.g * other, b: self.b * other, a: self.a * other }
    }
}

impl MulSpecImpl<Fixed> for Color {
    open spec fn obeys_mul_spec() -> bool {
        true
    }

    open spec fn mul_req(self, other: Fixed) -> bool {
        true
    }

    open spec fn mul_spec(self, other: Fixed) -> Color {
        self.scaled(other)
    }
}

impl core::ops::Div<Fixed> for Color {
    type Output = Color;

    fn div(self, other: Fixed) -> (c: Color)
        ensures
            c == self.divided(other),
    {
        Color { r: self.r / other, g: self.g / other, b: self.b / other, a: self.a / other }
    }
}

impl DivSpecImpl<Fixed> for Color {
    open spec fn obeys_div_spec() -> bool {
        true
    }

    open spec fn div_req(self, other: Fixed) -> bool {
        true
    }

    open spec fn div_spec(self, other: Fixed) -> Color {
        self.divided(other)
    }
}

impl core::ops::Mul<Color> for Color {
    type Output = Color;

    fn mul(self, other: Color) -> (c: Color)
        ensures
            c == self.times(other),
    {
        Color {
            r: self.r * other.r,
            g: self.g * other.g,
            b: self.b * other.b,
            a: self.a * other.a,
        }
    }
}

impl MulSpecImpl<Color> for Color {
    open spec fn obeys_mul_spec() -> bool {
        true
    }

    open spec fn mul_req(self, other: Color) -> bool {
        true
    }

    open spec fn mul_spec(self, other: Color) -> Color {
        self.times(other)
    }
}

impl core::ops::Add<Color> for Color {
    type Output = Color;

    fn add(self, other: Color) -> (c: Color)
        ensures
            c == self.plus(other),
    {
        Color {
            r: self.r + other.r,
            g: self.g + other.g,
            b: self.b + other.b,
            a: self.a + other.a,
        }
    }
}

impl AddSpecImpl<Color> for Color {
    open spec fn obeys_add_spec() -> bool {
        true
    }

    open spec fn add_req(self, other: Color) -> bool {
        true
    }

    open spec fn add_spec(self, other: Color) -> Color {
        self.plus(other)
    }
}

} // verus!
