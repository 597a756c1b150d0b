//! Colors: three fixed-point channels, each conceptually in `[0, 1]`
//! (raw `[0, SCALE]`) once a pixel is finished.

use crate::fixed::{fx_mul, fx_mul_spec, SCALE};
use vstd::prelude::*;

verus! {

#[derive(Clone, Copy, Debug, PartialEq, Eq, Structural)]
pub struct Color {
    pub red: i64,
    pub green: i64,
    pub blue: i64,
}

/// Every channel lies in the unit range `[0, SCALE]`.
pub open spec fn color_in_unit(c: Color) -> bool {
    &&& 0 <= c.red <= SCALE
    &&& 0 <= c.green <= SCALE
    &&& 0 <= c.blue <= SCALE
}

/// The sum of the red channels of a sequence of colors.
pub open spec fn sum_red(s: Seq<Color>) -> int
    decreases s.len(),
{
    if s.len() == 0 {
        0
    } else {
        sum_red(s.drop_last()) + s.last().red
    }
}

/// The sum of the green channels of a sequence of colors.
pub open spec fn sum_green(s: Seq<Color>) -> int
    decreases s.len(),
{
    if s.len() == 0 {
        0
    } else {
        sum_green(s.drop_last()) + s.last().green
    }
}

/// The sum of the blue channels of a sequence of colors.
pub open spec fn sum_blue(s: Seq<Color>) -> int
    decreases s.len(),
{
    if s.len() == 0 {
        0
    } else {
        sum_blue(s.drop_last()) + s.last().blue
    }
}

impl Color {
    pub fn new(red: i64, green: i64, blue: i64) -> (c: Self)
        ensures
            c == (Color { red, green, blue }),
    {
        Color { red, green, blue }
    }

    /// Channelwise sum.
    pub fn add(self, rhs: Color) -> (c: Color)
        requires
            i64::MIN <= self.red + rhs.red <= i64::MAX,
            i64::MIN <= self.green + rhs.green <= i64::MAX,
            i64::MIN <= self.blue + rhs.blue <= i64::MAX,
        ensures
            c.red == self.red + rhs.red,
            c.green == self.green + rhs.green,
            c.blue == self.blue + rhs.blue,
    {
        Color { red: self.red + rhs.red, green: self.green + rhs.green, blue: self.blue + rhs.blue }
    }

    /// Channelwise scaling by a fixed-point factor.
    pub fn mul(self, rhs: i64) -> (c: Color)
        requires
            i64::MIN <= fx_mul_spec(self.red as int, rhs as int) <= i64::MAX,
            i64::MIN <= fx_mul_spec(self.green as int, rhs as int) <= i64::MAX,
            i64::MIN <= fx_mul_spec(self.blue as int, rhs as int) <= i64::MAX,
        ensures
            c.red == fx_mul_spec(self.red as int, rhs as int),
            c.green == fx_mul_spec(self.green as int, rhs as int),
            c.blue == fx_mul_spec(self.blue as int, rhs as int),
    {
        Color {
            red: fx_mul(self.red, rhs),
            green: fx_mul(self.green, rhs),
            blue: fx_mul(self.blue, rhs),
        }
    }
}

} // verus!
