//! Signed 16-bit pixel coordinates.
use vstd::prelude::*;

verus! {

/// A pixel coordinate. Ordered row-major: by `y`, then by `x`.
#[derive(Debug, Default, Clone, Copy, PartialEq, Eq, Hash, Structural)]
pub struct Position {
    pub x: i16,
    pub y: i16,
}

/// The integer clamped into the range of `i16`.
pub open spec fn clamp_i16(v: int) -> i16 {
    if v < i16::MIN {
        i16::MIN
    } else if v > i16::MAX {
        i16::MAX
    } else {
        v as i16
    }
}

/// Whether `v` fits in an `i16`.
pub open spec fn fits_i16(v: int) -> bool {
    i16::MIN <= v <= i16::MAX
}

pub open spec fn min_i16(a: i16, b: i16) -> i16 {
    if a <= b { a } else { b }
}

pub open spec fn max_i16(a: i16, b: i16) -> i16 {
    if a >= b { a } else { b }
}

fn saturating_add_i16(a: i16, b: i16) -> (r: i16)
    ensures
        r == clamp_i16(a + b),
{
    let s: i32 = a as i32 + b as i32;
    if s < i16::MIN as i32 {
        i16::MIN
    } else if s > i16::MAX as i32 {
        i16::MAX
    } else {
        s as i16
    }
}

fn saturating_add_unsigned_i16(a: i16, b: u16) -> (r: i16)
    ensures
        r == clamp_i16(a + b),
{
    let s: i32 = a as i32 + b as i32;
    if s > i16::MAX as i32 {
        i16::MAX
    } else {
        s as i16
    }
}

fn saturating_mul_i16(a: i16, b: i16) -> (r: i16)
    ensures
        r == clamp_i16(a * b),
{
    proof {
        let (ai, bi) = (a as int, b as int);
        assert(-32768 <= ai <= 32767 && -32768 <= bi <= 32767 ==> -1073709056 <= ai * bi
            <= 1073741824) by (nonlinear_arith);
    }
    let p: i32 = a as i32 * b as i32;
    if p < i16::MIN as i32 {
        i16::MIN
    } else if p > i16::MAX as i32 {
        i16::MAX
    } else {
        p as i16
    }
}

impl Position {
    /// The position `(0, 0)`.
    pub fn origin() -> (r: Self)
        ensures
            r == (Position { x: 0, y: 0 }),
    {
        Position { x: 0, y: 0 }
    }

    /// The smallest position on both axes, the start of a maximum fold.
    pub fn min_value() -> (r: Self)
        ensures
            r == (Position { x: i16::MIN, y: i16::MIN }),
    {
        Position { x: i16::MIN, y: i16::MIN }
    }

    /// The largest position on both axes, the start of a minimum fold.
    pub fn max_value() -> (r: Self)
        ensures
            r == (Position { x: i16::MAX, y: i16::MAX }),
    {
        Position { x: i16::MAX, y: i16::MAX }
    }

    /// Row-major order: `self` comes strictly before `other`.
    pub open spec fn precedes(self, other: Position) -> bool {
        self.y < other.y || (self.y == other.y && self.x < other.x)
    }

    /// Componentwise minimum.
    pub open spec fn spec_min(self, other: Position) -> Position {
        Position { x: min_i16(self.x, other.x), y: min_i16(self.y, other.y) }
    }

    /// Componentwise maximum.
    pub open spec fn spec_max(self, other: Position) -> Position {
        Position { x: max_i16(self.x, other.x), y: max_i16(self.y, other.y) }
    }

    /// `self + other` computed exactly fits in 16 bits.
    pub open spec fn can_add(self, other: Position) -> bool {
        fits_i16(self.x + other.x) && fits_i16(self.y + other.y)
    }

    /// `self - other` computed exactly fits in 16 bits.
    pub open spec fn can_sub(self, other: Position) -> bool {
        fits_i16(self.x - other.x) && fits_i16(self.y - other.y)
    }

    pub open spec fn spec_add(self, other: Position) -> Position {
        Position { x: (self.x + other.x) as i16, y: (self.y + other.y) as i16 }
    }

    pub open spec fn spec_sub(self, other: Position) -> Position {
        Position { x: (self.x - other.x) as i16, y: (self.y - other.y) as i16 }
    }

    /// Both coordinates multiplied by `k`, saturating at the bounds of `i16`.
    pub open spec fn spec_scale(self, k: i16) -> Position {
        Position { x: clamp_i16(self.x * k), y: clamp_i16(self.y * k) }
    }

    pub fn xy(x: i16, y: i16) -> (r: Self)
        ensures
            r == (Position { x, y }),
    {
        Position { x, y }
    }

    pub fn yx(y: i16, x: i16) -> (r: Self)
        ensures
            r == (Position { x, y }),
    {
        Position { x, y }
    }

    /// Moves horizontally, saturating.
    pub fn move_x(self, x: i16) -> (r: Self)
        ensures
            r == (Position { x: clamp_i16(self.x + x), y: self.y }),
    {
        Self::xy(saturating_add_i16(self.x, x), self.y)
    }

    /// Moves right, saturating.
    pub fn move_x_unsigned(self, x: u16) -> (r: Self)
        ensures
            r == (Position { x: clamp_i16(self.x + x), y: self.y }),
    {
        Self::xy(saturating_add_unsigned_i16(self.x, x), self.y)
    }

    /// Moves vertically, saturating.
    pub fn move_y(self, y: i16) -> (r: Self)
        ensures
            r == (Position { x: self.x, y: clamp_i16(self.y + y) }),
    {
        Self::xy(self.x, saturating_add_i16(self.y, y))
    }

    /// Moves down, saturating.
    pub fn move_y_unsigned(self, y: u16) -> (r: Self)
        ensures
            r == (Position { x: self.x, y: clamp_i16(self.y + y) }),
    {
        Self::xy(self.x, saturating_add_unsigned_i16(self.y, y))
    }

    /// Moves on both axes, saturating.
    pub fn move_xy(self, x: i16, y: i16) -> (r: Self)
        ensures
            r == (Position { x: clamp_i16(self.x + x), y: clamp_i16(self.y + y) }),
    {
        Self::xy(saturating_add_i16(self.x, x), saturating_add_i16(self.y, y))
    }

    /// Moves right and down, saturating.
    pub fn move_xy_unsigned(self, x: u16, y: u16) -> (r: Self)
        ensures
            r == (Position { x: clamp_i16(self.x + x), y: clamp_i16(self.y + y) }),
    {
        Self::xy(saturating_add_unsigned_i16(self.x, x), saturating_add_unsigned_i16(self.y, y))
    }

    /// Componentwise minimum.
    pub fn min(self, other: Self) -> (r: Self)
        ensures
            r == self.spec_min(other),
    {
        let x = if self.x <= other.x { self.x } else { other.x };
        let y = if self.y <= other.y { self.y } else { other.y };
        Self::xy(x, y)
    }

    /// Componentwise maximum.
    pub fn max(self, other: Self) -> (r: Self)
        ensures
            r == self.spec_max(other),
    {
        let x = if self.x >= other.x { self.x } else { other.x };
        let y = if self.y >= other.y { self.y } else { other.y };
        Self::xy(x, y)
    }

    /// Whether `self` comes strictly before `other` in row-major order.
    pub fn is_before(self, other: Self) -> (r: bool)
        ensures
            r == self.precedes(other),
    {
        self.y < other.y || (self.y == other.y && self.x < other.x)
    }

    /// Componentwise multiplication by `k`, saturating.
    pub fn scale(self, k: i16) -> (r: Self)
        ensures
            r == self.spec_scale(k),
    {
        Self::xy(saturating_mul_i16(self.x, k), saturating_mul_i16(self.y, k))
    }
}

impl std::ops::Add for Position {
    type Output = Position;

    /// Componentwise sum; the sum must fit in 16 bits.
    fn add(self, other: Position) -> (r: Position) {
        Position { x: self.x + other.x, y: self.y + other.y }
    }
}

impl vstd::std_specs::ops::AddSpecImpl for Position {
    open spec fn obeys_add_spec() -> bool {
        true
    }

    open spec fn add_req(self, other: Position) -> bool {
        self.can_add(other)
    }

    open spec fn add_spec(self, other: Position) -> Position {
        self.spec_add(other)
    }
}

impl std::ops::Sub for Position {
    type Output = Position;

    /// Componentwise difference; the difference must fit in 16 bits.
    fn sub(self, other: Position) -> (r: Position) {
        Position { x: self.x - other.x, y: self.y - other.y }
    }
}

impl vstd::std_specs::ops::SubSpecImpl for Position {
    open spec fn obeys_sub_spec() -> bool {
        true
    }

    open spec fn sub_req(self, other: Position) -> bool {
        self.can_sub(other)
    }

    open spec fn sub_spec(self, other: Position) -> Position {
        self.spec_sub(other)
    }
}

impl std::ops::Mul<i16> for Position {
    type Output = Position;

    /// Componentwise product, saturating.
    fn mul(self, k: i16) -> (r: Position) {
        self.scale(k)
    }
}

impl vstd::std_specs::ops::MulSpecImpl<i16> for Position {
    open spec fn obeys_mul_spec() -> bool {
        true
    }

    open spec fn mul_req(self, k: i16) -> bool {
        true
    }

    open spec fn mul_spec(self, k: i16) -> Position {
        self.spec_scale(k)
    }
}

} // verus!
