//! Representation of a hexagonal grid.
//!
//! Uses axial coordinates.
//! The x-axis points in `Direction::Southeast` and the y-axis in `Direction::Southwest`;
//! the implicit third cube coordinate is `-(x + y)`.
use vstd::prelude::*;

verus! {

/// Number of columns of the grid.
pub const WIDTH: usize = 40;

/// Number of rows of the grid.
pub const HEIGHT: usize = 26;

/// Width of the grid without its outer ring.
pub const INNER_WIDTH: usize = 38;

/// Height of the grid without its outer ring.
pub const INNER_HEIGHT: usize = 24;

/// A position on a hexagonal grid in axial coordinates.
#[derive(PartialEq, Eq, Structural, Debug, Copy, Clone, Hash)]
pub struct Pos {
    pub x: i32,
    pub y: i32,
}

/// A vector between two positions.
#[derive(PartialEq, Eq, Structural, Debug, Copy, Clone)]
pub struct Displacement {
    pub x: i32,
    pub y: i32,
}

/// The location of a position as shown on screen.
pub struct Location {
    pub x: i32,
    pub y: i32,
}

/// One of the six unit steps between neighbouring positions.
#[derive(PartialEq, Eq, Structural, Hash, Debug, Copy, Clone)]
pub enum Direction {
    Southeast,
    East,
    Northeast,
    Northwest,
    West,
    Southwest,
}

/// The six directions, clockwise from `Northeast`.
pub const DIRECTIONS: [Direction; 6] = [
    Direction::Northeast,
    Direction::East,
    Direction::Southeast,
    Direction::Southwest,
    Direction::West,
    Direction::Northwest,
];

/// Whether `v` is an `i32` value.
pub open spec fn fits_i32(v: int) -> bool {
    i32::MIN <= v <= i32::MAX
}

/// Absolute value.
pub open spec fn abs(v: int) -> int {
    if v < 0 {
        -v
    } else {
        v
    }
}

/// Number of unit hex steps covered by the vector `(x, y)`.
pub open spec fn hex_len(x: int, y: int) -> int {
    (abs(x) + abs(y) + abs(x + y)) / 2
}

impl Displacement {
    /// Number of unit hex steps this displacement covers.
    pub open spec fn len_spec(self) -> int {
        hex_len(self.x as int, self.y as int)
    }
}

impl Direction {
    /// Position of the direction in the clockwise cycle that starts at `Northeast`.
    pub open spec fn index_spec(self) -> int {
        match self {
            Direction::Northeast => 0,
            Direction::East => 1,
            Direction::Southeast => 2,
            Direction::Southwest => 3,
            Direction::West => 4,
            Direction::Northwest => 5,
        }
    }

    /// The x component of the unit vector.
    pub open spec fn dx(self) -> int {
        match self {
            Direction::Southeast => 1,
            Direction::East => 1,
            Direction::Northeast => 0,
            Direction::Northwest => -1,
            Direction::West => -1,
            Direction::Southwest => 0,
        }
    }

    /// The y component of the unit vector.
    pub open spec fn dy(self) -> int {
        match self {
            Direction::Southeast => 0,
            Direction::East => -1,
            Direction::Northeast => -1,
            Direction::Northwest => 0,
            Direction::West => 1,
            Direction::Southwest => 1,
        }
    }

    /// The unit vector.
    pub open spec fn unit(self) -> Displacement {
        Displacement { x: self.dx() as i32, y: self.dy() as i32 }
    }

    /// The direction `n` steps clockwise from this one.
    pub open spec fn rotate_spec(self, n: int) -> Direction {
        direction_at((self.index_spec() + n) % 6)
    }
}

/// The direction at a position of the clockwise cycle (taken modulo 6).
pub open spec fn direction_at(i: int) -> Direction {
    let k = i % 6;
    if k == 0 {
        Direction::Northeast
    } else if k == 1 {
        Direction::East
    } else if k == 2 {
        Direction::Southeast
    } else if k == 3 {
        Direction::Southwest
    } else if k == 4 {
        Direction::West
    } else {
        Direction::Northwest
    }
}

/// The direction whose unit vector is `(x, y)`, if any.
pub open spec fn direction_of_unit(x: int, y: int) -> Option<Direction> {
    if x == 1 && y == 0 {
        Some(Direction::Southeast)
    } else if x == 1 && y == -1 {
        Some(Direction::East)
    } else if x == 0 && y == -1 {
        Some(Direction::Northeast)
    } else if x == -1 && y == 0 {
        Some(Direction::Northwest)
    } else if x == -1 && y == 1 {
        Some(Direction::West)
    } else if x == 0 && y == 1 {
        Some(Direction::Southwest)
    } else {
        None
    }
}

/// `a / s` rounded to the nearest integer, halves away from zero.
pub open spec fn round_quot(a: int, s: int) -> int {
    if a >= 0 {
        (2 * a + s) / (2 * s)
    } else {
        -((-2 * a + s) / (2 * s))
    }
}

/// How far `a / s` lies from `r`, scaled by `s`.
pub open spec fn round_err(a: int, s: int, r: int) -> int {
    abs(a - s * r)
}

/// Nearest hex to `(x / s, y / s)`: the three cube coordinates are rounded on their
/// own, and the one that moved most is recomputed from the other two.
pub open spec fn cube_round(x: int, y: int, s: int) -> (int, int) {
    let rx = round_quot(x, s);
    let ry = round_quot(y, s);
    let rz = round_quot(x + y, s);
    let ex = round_err(x, s, rx);
    let ey = round_err(y, s, ry);
    let ez = round_err(x + y, s, rz);
    if ex > ey && ex > ez {
        (rz - ry, ry)
    } else if ey > ez {
        (rx, rz - rx)
    } else {
        (rx, ry)
    }
}

/// What `Displacement::direction` gives for the vector `(x, y)`.
pub open spec fn direction_spec(x: int, y: int) -> Option<Direction> {
    if hex_len(x, y) == 0 {
        None
    } else {
        let q = cube_round(x, y, hex_len(x, y));
        direction_of_unit(q.0, q.1)
    }
}

/// Rounding to the nearest integer moves the quotient by at most one half.
proof fn lemma_round_quot(a: int, s: int)
    requires
        s > 0,
    ensures
        2 * round_err(a, s, round_quot(a, s)) <= s,
{
    let b = if a >= 0 { a } else { -a };
    let q = (2 * b + s) / (2 * s);
    let m = (2 * b + s) % (2 * s);
    vstd::arithmetic::div_mod::lemma_fundamental_div_mod(2 * b + s, 2 * s);
    assert(2 * b + s == 2 * s * q + m && 0 <= m < 2 * s);
    assert(2 * (b - s * q) == m - s) by (nonlinear_arith)
        requires
            2 * b + s == 2 * s * q + m,
    ;
    if a < 0 {
        assert(a - s * (-q) == -(b - s * q)) by (nonlinear_arith)
            requires
                b == -a,
        ;
    }
}

/// An integer whose multiple by `s` lies within `s` of an `i32` value is an `i32` value.
proof fn lemma_quot_fits(q: int, v: int, s: int)
    requires
        s >= 1,
        fits_i32(v),
        abs(s * q - v) < s,
        s == 1 ==> s * q == v,
    ensures
        fits_i32(q),
{
    if s == 1 {
        assert(s * q == q);
    } else if q > 0x4000_0000 {
        assert(s * q >= s * 0x4000_0001) by (nonlinear_arith)
            requires
                q > 0x4000_0000,
                s >= 2,
        ;
        assert(s * 0x4000_0001 >= 0x8000_0000 + s) by (nonlinear_arith)
            requires
                s >= 2,
        ;
    } else if q < -0x4000_0000 {
        assert(s * q <= s * -0x4000_0001) by (nonlinear_arith)
            requires
                q < -0x4000_0000,
                s >= 2,
        ;
        assert(s * -0x4000_0001 <= -0x8000_0000 - s) by (nonlinear_arith)
            requires
                s >= 2,
        ;
    }
}

/// The nearest hex to a quotient of `i32` coordinates has `i32` coordinates.
proof fn lemma_cube_round_fits(x: int, y: int, s: int)
    requires
        fits_i32(x),
        fits_i32(y),
        s >= 1,
    ensures
        fits_i32(cube_round(x, y, s).0),
        fits_i32(cube_round(x, y, s).1),
{
    let rx = round_quot(x, s);
    let ry = round_quot(y, s);
    let rz = round_quot(x + y, s);
    lemma_round_quot(x, s);
    lemma_round_quot(y, s);
    lemma_round_quot(x + y, s);
    if s == 1 {
        assert(rx == x && ry == y && rz == x + y);
    }
    lemma_quot_fits(rx, x, s);
    lemma_quot_fits(ry, y, s);
    let ex = round_err(x, s, rx);
    let ey = round_err(y, s, ry);
    let ez = round_err(x + y, s, rz);
    if ex > ey && ex > ez {
        assert(s * (rz - ry) - x == (s * rz - (x + y)) - (s * ry - y)) by (nonlinear_arith);
        lemma_quot_fits(rz - ry, x, s);
    } else if ey > ez {
        assert(s * (rz - rx) - y == (s * rz - (x + y)) - (s * rx - x)) by (nonlinear_arith);
        lemma_quot_fits(rz - rx, y, s);
    }
}

/// `a / s` rounded to the nearest integer, halves away from zero.
fn round_quot_exec(a: i64, s: i64) -> (r: i64)
    requires
        0 < s <= u32::MAX,
        -0x1_0000_0000 <= a <= 0x1_0000_0000,
    ensures
        r == round_quot(a as int, s as int),
{
    if a >= 0 {
        (2 * a + s) / (2 * s)
    } else {
        -((-2 * a + s) / (2 * s))
    }
}

impl Displacement {
    /// Number of unit hex steps this displacement covers.
    pub fn distance(self) -> (r: u32)
        requires
            self.len_spec() <= u32::MAX,
        ensures
            r == self.len_spec(),
    {
        let x = self.x as i64;
        let y = self.y as i64;
        let ax = if x < 0 { -x } else { x };
        let ay = if y < 0 { -y } else { y };
        let axy = if x + y < 0 { -(x + y) } else { x + y };
        ((ax + ay + axy) / 2) as u32
    }

    /// The direction this displacement points in, if it points along one of the six.
    pub fn direction(self) -> (r: Option<Direction>)
        requires
            self.len_spec() <= u32::MAX,
        ensures
            r == direction_spec(self.x as int, self.y as int),
    {
        let n = self.distance();
        if n == 0 {
            return None;
        }
        let q = self / n;
        proof {
            lemma_cube_round_fits(self.x as int, self.y as int, n as int);
        }
        if q.x == 1 && q.y == 0 {
            Some(Direction::Southeast)
        } else if q.x == 1 && q.y == -1 {
            Some(Direction::East)
        } else if q.x == 0 && q.y == -1 {
            Some(Direction::Northeast)
        } else if q.x == -1 && q.y == 0 {
            Some(Direction::Northwest)
        } else if q.x == -1 && q.y == 1 {
            Some(Direction::West)
        } else if q.x == 0 && q.y == 1 {
            Some(Direction::Southwest)
        } else {
            None
        }
    }
}

impl core::ops::Div<u32> for Displacement {
    type Output = Displacement;

    /// Nearest-hex division by a scalar.
    fn div(self, rhs: u32) -> Displacement {
        let s = rhs as i64;
        let x = self.x as i64;
        let y = self.y as i64;
        let rx = round_quot_exec(x, s);
        let ry = round_quot_exec(y, s);
        let rz = round_quot_exec(x + y, s);
        proof {
            lemma_round_quot(x as int, s as int);
            lemma_round_quot(y as int, s as int);
            lemma_round_quot(x + y, s as int);
            lemma_cube_round_fits(x as int, y as int, s as int);
        }
        let ex = if x - s * rx < 0 { s * rx - x } else { x - s * rx };
        let ey = if y - s * ry < 0 { s * ry - y } else { y - s * ry };
        let ez = if x + y - s * rz < 0 { s * rz - (x + y) } else { x + y - s * rz };
        if ex > ey && ex > ez {
            Displacement { x: (rz - ry) as i32, y: ry as i32 }
        } else if ey > ez {
            Displacement { x: rx as i32, y: (rz - rx) as i32 }
        } else {
            Displacement { x: rx as i32, y: ry as i32 }
        }
    }
}

impl vstd::std_specs::ops::DivSpecImpl<u32> for Displacement {
    open spec fn obeys_div_spec() -> bool {
        true
    }

    open spec fn div_req(self, rhs: u32) -> bool {
        rhs != 0
    }

    open spec fn div_spec(self, rhs: u32) -> Displacement {
        let q = cube_round(self.x as int, self.y as int, rhs as int);
        Displacement { x: q.0 as i32, y: q.1 as i32 }
    }
}

impl core::ops::Add<Displacement> for Pos {
    type Output = Pos;

    /// Moves the position by the displacement.
    fn add(self, rhs: Displacement) -> Pos {
        Pos { x: self.x + rhs.x, y: self.y + rhs.y }
    }
}

impl vstd::std_specs::ops::AddSpecImpl<Displacement> for Pos {
    open spec fn obeys_add_spec() -> bool {
        true
    }

    open spec fn add_req(self, rhs: Displacement) -> bool {
        fits_i32(self.x + rhs.x) && fits_i32(self.y + rhs.y)
    }

    open spec fn add_spec(self, rhs: Displacement) -> Pos {
        Pos { x: (self.x + rhs.x) as i32, y: (self.y + rhs.y) as i32 }
    }
}

impl core::ops::Add<Direction> for Pos {
    type Output = Pos;

    /// Moves the position one step in the direction.
    fn add(self, rhs: Direction) -> Pos {
        Pos { x: self.x + rhs.x(), y: self.y + rhs.y() }
    }
}

impl vstd::std_specs::ops::AddSpecImpl<Direction> for Pos {
    open spec fn obeys_add_spec() -> bool {
        true
    }

    open spec fn add_req(self, rhs: Direction) -> bool {
        fits_i32(self.x + rhs.dx()) && fits_i32(self.y + rhs.dy())
    }

    open spec fn add_spec(self, rhs: Direction) -> Pos {
        Pos { x: (self.x + rhs.dx()) as i32, y: (self.y + rhs.dy()) as i32 }
    }
}

impl core::ops::Sub<Displacement> for Pos {
    type Output = Pos;

    /// Moves the position back by the displacement.
    fn sub(self, rhs: Displacement) -> Pos {
        Pos { x: self.x - rhs.x, y: self.y - rhs.y }
    }
}

impl vstd::std_specs::ops::SubSpecImpl<Displacement> for Pos {
    open spec fn obeys_sub_spec() -> bool {
        true
    }

    open spec fn sub_req(self, rhs: Displacement) -> bool {
        fits_i32(self.x - rhs.x) && fits_i32(self.y - rhs.y)
    }

    open spec fn sub_spec(self, rhs: Displacement) -> Pos {
        Pos { x: (self.x - rhs.x) as i32, y: (self.y - rhs.y) as i32 }
    }
}

impl core::ops::Sub<Direction> for Pos {
    type Output = Pos;

    /// Moves the position one step against the direction.
    fn sub(self, rhs: Direction) -> Pos {
        Pos { x: self.x - rhs.x(), y: self.y - rhs.y() }
    }
}

impl vstd::std_specs::ops::SubSpecImpl<Direction> for Pos {
    open spec fn obeys_sub_spec() -> bool {
        true
    }

    open spec fn sub_req(self, rhs: Direction) -> bool {
        fits_i32(self.x - rhs.dx()) && fits_i32(self.y - rhs.dy())
    }

    open spec fn sub_spec(self, rhs: Direction) -> Pos {
        Pos { x: (self.x - rhs.dx()) as i32, y: (self.y - rhs.dy()) as i32 }
    }
}

impl core::ops::Sub<Pos> for Pos {
    type Output = Displacement;

    /// The displacement that leads from `rhs` to `self`.
    fn sub(self, rhs: Pos) -> Displacement {
        Displacement { x: self.x - rhs.x, y: self.y - rhs.y }
    }
}

impl vstd::std_specs::ops::SubSpecImpl<Pos> for Pos {
    open spec fn obeys_sub_spec() -> bool {
        true
    }

    open spec fn sub_req(self, rhs: Pos) -> bool {
        fits_i32(self.x - rhs.x) && fits_i32(self.y - rhs.y)
    }

    open spec fn sub_spec(self, rhs: Pos) -> Displacement {
        Displacement { x: (self.x - rhs.x) as i32, y: (self.y - rhs.y) as i32 }
    }
}

impl core::ops::Add<Displacement> for Displacement {
    type Output = Displacement;

    /// Vector sum.
    fn add(self, rhs: Displacement) -> Displacement {
        Displacement { x: self.x + rhs.x, y: self.y + rhs.y }
    }
}

impl vstd::std_specs::ops::AddSpecImpl<Displacement> for Displacement {
    open spec fn obeys_add_spec() -> bool {
        true
    }

    open spec fn add_req(self, rhs: Displacement) -> bool {
        fits_i32(self.x + rhs.x) && fits_i32(self.y + rhs.y)
    }

    open spec fn add_spec(self, rhs: Displacement) -> Displacement {
        Displacement { x: (self.x + rhs.x) as i32, y: (self.y + rhs.y) as i32 }
    }
}

impl core::ops::Add<Direction> for Displacement {
    type Output = Displacement;

    /// Adds the unit vector of the direction.
    fn add(self, rhs: Direction) -> Displacement {
        Displacement { x: self.x + rhs.x(), y: self.y + rhs.y() }
    }
}

impl vstd::std_specs::ops::AddSpecImpl<Direction> for Displacement {
    open spec fn obeys_add_spec() -> bool {
        true
    }

    open spec fn add_req(self, rhs: Direction) -> bool {
        fits_i32(self.x + rhs.dx()) && fits_i32(self.y + rhs.dy())
    }

    open spec fn add_spec(self, rhs: Direction) -> Displacement {
        Displacement { x: (self.x + rhs.dx()) as i32, y: (self.y + rhs.dy()) as i32 }
    }
}

impl core::ops::Sub<Displacement> for Displacement {
    type Output = Displacement;

    /// Vector difference.
    fn sub(self, rhs: Displacement) -> Displacement {
        Displacement { x: self.x - rhs.x, y: self.y - rhs.y }
    }
}

impl vstd::std_specs::ops::SubSpecImpl<Displacement> for Displacement {
    open spec fn obeys_sub_spec() -> bool {
        true
    }

    open spec fn sub_req(self, rhs: Displacement) -> bool {
        fits_i32(self.x - rhs.x) && fits_i32(self.y - rhs.y)
    }

    open spec fn sub_spec(self, rhs: Displacement) -> Displacement {
        Displacement { x: (self.x - rhs.x) as i32, y: (self.y - rhs.y) as i32 }
    }
}

impl core::ops::Mul<i32> for Displacement {
    type Output = Displacement;

    /// Scales the vector.
    fn mul(self, rhs: i32) -> Displacement {
        Displacement { x: self.x * rhs, y: self.y * rhs }
    }
}

impl vstd::std_specs::ops::MulSpecImpl<i32> for Displacement {
    open spec fn obeys_mul_spec() -> bool {
        true
    }

    open spec fn mul_req(self, rhs: i32) -> bool {
        fits_i32(self.x * rhs) && fits_i32(self.y * rhs)
    }

    open spec fn mul_spec(self, rhs: i32) -> Displacement {
        Displacement { x: (self.x * rhs) as i32, y: (self.y * rhs) as i32 }
    }
}

impl core::ops::Mul<u32> for Displacement {
    type Output = Displacement;

    /// Scales the vector.
    fn mul(self, rhs: u32) -> Displacement {
        Displacement { x: scale(self.x, rhs), y: scale(self.y, rhs) }
    }
}

impl vstd::std_specs::ops::MulSpecImpl<u32> for Displacement {
    open spec fn obeys_mul_spec() -> bool {
        true
    }

    open spec fn mul_req(self, rhs: u32) -> bool {
        fits_i32(self.x * rhs) && fits_i32(self.y * rhs)
    }

    open spec fn mul_spec(self, rhs: u32) -> Displacement {
        Displacement { x: (self.x * rhs) as i32, y: (self.y * rhs) as i32 }
    }
}

impl core::ops::Mul<i32> for Direction {
    type Output = Displacement;

    /// The unit vector of the direction, scaled.
    fn mul(self, rhs: i32) -> Displacement {
        Displacement { x: self.to_displacement().x * rhs, y: self.to_displacement().y * rhs }
    }
}

impl vstd::std_specs::ops::MulSpecImpl<i32> for Direction {
    open spec fn obeys_mul_spec() -> bool {
        true
    }

    open spec fn mul_req(self, rhs: i32) -> bool {
        fits_i32(self.dx() * rhs) && fits_i32(self.dy() * rhs)
    }

    open spec fn mul_spec(self, rhs: i32) -> Displacement {
        Displacement { x: (self.dx() * rhs) as i32, y: (self.dy() * rhs) as i32 }
    }
}

impl core::ops::Mul<u32> for Direction {
    type Output = Displacement;

    /// The unit vector of the direction, scaled.
    fn mul(self, rhs: u32) -> Displacement {
        Displacement { x: scale(self.x(), rhs), y: scale(self.y(), rhs) }
    }
}

impl vstd::std_specs::ops::MulSpecImpl<u32> for Direction {
    open spec fn obeys_mul_spec() -> bool {
        true
    }

    open spec fn mul_req(self, rhs: u32) -> bool {
        fits_i32(self.dx() * rhs) && fits_i32(self.dy() * rhs)
    }

    open spec fn mul_spec(self, rhs: u32) -> Displacement {
        Displacement { x: (self.dx() * rhs) as i32, y: (self.dy() * rhs) as i32 }
    }
}

/// `v * n` for a count `n` whose product with `v` fits.
fn scale(v: i32, n: u32) -> (r: i32)
    requires
        fits_i32(v * n),
    ensures
        r == v * n,
{
    assert(-0x8000_0000_0000_0000 < v * n < 0x8000_0000_0000_0000) by (nonlinear_arith)
        requires
            fits_i32(v as int),
            0 <= n <= u32::MAX,
    ;
    (v as i64 * n as i64) as i32
}

impl core::ops::Neg for Displacement {
    type Output = Displacement;

    /// The opposite vector.
    fn neg(self) -> Displacement {
        Displacement { x: -self.x, y: -self.y }
    }
}

impl vstd::std_specs::ops::NegSpecImpl for Displacement {
    open spec fn obeys_neg_spec() -> bool {
        true
    }

    open spec fn neg_req(self) -> bool {
        fits_i32(-self.x) && fits_i32(-self.y)
    }

    open spec fn neg_spec(self) -> Displacement {
        Displacement { x: (-self.x) as i32, y: (-self.y) as i32 }
    }
}

impl core::ops::Neg for Direction {
    type Output = Direction;

    /// The opposite direction.
    fn neg(self) -> Direction {
        self.rotate(3)
    }
}

impl vstd::std_specs::ops::NegSpecImpl for Direction {
    open spec fn obeys_neg_spec() -> bool {
        true
    }

    open spec fn neg_req(self) -> bool {
        true
    }

    open spec fn neg_spec(self) -> Direction {
        self.rotate_spec(3)
    }
}

impl Direction {
    /// The unit displacement of this direction.
    pub fn to_displacement(self) -> (r: Displacement)
        ensures
            r == self.unit(),
    {
        match self {
            Direction::Southeast => Displacement { x: 1, y: 0 },
            Direction::East => Displacement { x: 1, y: -1 },
            Direction::Northeast => Displacement { x: 0, y: -1 },
            Direction::Northwest => Displacement { x: -1, y: 0 },
            Direction::West => Displacement { x: -1, y: 1 },
            Direction::Southwest => Displacement { x: 0, y: 1 },
        }
    }

    /// The direction `n` steps clockwise from this one (counterclockwise for negative `n`).
    pub fn rotate(self, n: i32) -> (r: Direction)
        ensures
            r == self.rotate_spec(n as int),
    {
        let index: i64 = n as i64 + match self {
            Direction::Northeast => 0,
            Direction::East => 1,
            Direction::Southeast => 2,
            Direction::Southwest => 3,
            Direction::West => 4,
            Direction::Northwest => 5,
        };
        let corrected = ((index % 6) + 6) % 6;
        assert(corrected == index as int % 6);
        if corrected == 0 {
            Direction::Northeast
        } else if corrected == 1 {
            Direction::East
        } else if corrected == 2 {
            Direction::Southeast
        } else if corrected == 3 {
            Direction::Southwest
        } else if corrected == 4 {
            Direction::West
        } else {
            Direction::Northwest
        }
    }

    /// The x component of the unit displacement.
    pub fn x(self) -> (r: i32)
        ensures
            r == self.dx(),
    {
        self.to_displacement().x
    }

    /// The y component of the unit displacement.
    pub fn y(self) -> (r: i32)
        ensures
            r == self.dy(),
    {
        self.to_displacement().y
    }
}

/// Coefficients of `(x, y)` along `dir1` and `dir2`, scaled by the determinant
/// of the two directions instead of divided by it.
pub open spec fn decompose_spec(x: int, y: int, dir1: Direction, dir2: Direction) -> (int, int) {
    let a = dir2.dy();
    let b = -dir2.dx();
    let c = -dir1.dy();
    let d = dir1.dx();
    let det = a * d - b * c;
    (det * (a * x + b * y), det * (c * x + d * y))
}

/// Splits a displacement into multiples of two directions.
///
/// This will give the wrong answer if `dir1` and `dir2` are parallel or opposite,
/// since it multiplies by the determinant rather than dividing.
pub fn decompose(displacement: Displacement, dir1: Direction, dir2: Direction) -> (r: (i32, i32))
    requires
        fits_i32(decompose_spec(displacement.x as int, displacement.y as int, dir1, dir2).0),
        fits_i32(decompose_spec(displacement.x as int, displacement.y as int, dir1, dir2).1),
    ensures
        r.0 == decompose_spec(displacement.x as int, displacement.y as int, dir1, dir2).0,
        r.1 == decompose_spec(displacement.x as int, displacement.y as int, dir1, dir2).1,
{
    let a = dir2.y() as i64;
    let b = -dir2.x() as i64;
    let c = -dir1.y() as i64;
    let d = dir1.x() as i64;
    assert(-1 <= a * d <= 1 && -1 <= b * c <= 1) by (nonlinear_arith)
        requires
            -1 <= a <= 1,
            -1 <= b <= 1,
            -1 <= c <= 1,
            -1 <= d <= 1,
    ;
    let det = a * d - b * c;
    let x = displacement.x as i64;
    let y = displacement.y as i64;
    assert(-0x8000_0000 <= a * x <= 0x8000_0000 && -0x8000_0000 <= b * y <= 0x8000_0000
        && -0x8000_0000 <= c * x <= 0x8000_0000 && -0x8000_0000 <= d * y <= 0x8000_0000)
        by (nonlinear_arith)
        requires
            -1 <= a <= 1,
            -1 <= b <= 1,
            -1 <= c <= 1,
            -1 <= d <= 1,
            fits_i32(x as int),
            fits_i32(y as int),
    ;
    let p = a * x + b * y;
    let q = c * x + d * y;
    assert(-0x4_0000_0000 <= det * p <= 0x4_0000_0000 && -0x4_0000_0000 <= det * q
        <= 0x4_0000_0000) by (nonlinear_arith)
        requires
            -2 <= det <= 2,
            -0x1_0000_0000 <= p <= 0x1_0000_0000,
            -0x1_0000_0000 <= q <= 0x1_0000_0000,
    ;
    ((det * p) as i32, (det * q) as i32)
}

impl Pos {
    /// The six adjacent positions, in the order of `DIRECTIONS`.
    pub fn neighbors(self) -> (r: Vec<Pos>)
        requires
            fits_i32(self.x - 1),
            fits_i32(self.x + 1),
            fits_i32(self.y - 1),
            fits_i32(self.y + 1),
        ensures
            r@.len() == 6,
            forall|i: int|
                0 <= i < 6 ==> #[trigger] r@[i] == (Pos {
                    x: (self.x + direction_at(i).dx()) as i32,
                    y: (self.y + direction_at(i).dy()) as i32,
                }),
    {
        let mut r: Vec<Pos> = Vec::new();
        r.push(self + Direction::Northeast);
        r.push(self + Direction::East);
        r.push(self + Direction::Southeast);
        r.push(self + Direction::Southwest);
        r.push(self + Direction::West);
        r.push(self + Direction::Northwest);
        r
    }

    /// Number of unit hex steps between two positions.
    pub fn distance(self, other: Pos) -> (r: u32)
        requires
            fits_i32(other.x - self.x),
            fits_i32(other.y - self.y),
            hex_len(other.x - self.x, other.y - self.y) <= u32::MAX,
        ensures
            r == hex_len(other.x - self.x, other.y - self.y),
    {
        (other - self).distance()
    }
}

/// A 2d index of a hexagonal grid: `row` in `0..HEIGHT`, `col` in `0..WIDTH`
/// for the positions that the grid holds.
#[derive(PartialEq, Eq, Structural, Debug, Copy, Clone)]
pub struct Index2d {
    pub row: usize,
    pub col: usize,
}

/// The first x-coordinate of a row.
pub open spec fn row_first_x_spec(row: int) -> int {
    (row + 1) / 2
}

/// The first y-coordinate of a row.
pub open spec fn row_first_y_spec(row: int) -> int {
    row / 2
}

/// The position at a row and column.
pub open spec fn pos_at(row: int, col: int) -> Pos {
    Pos { x: (row_first_x_spec(row) + col) as i32, y: (row_first_y_spec(row) - col) as i32 }
}

/// Whether the position at a row and column has `i32` coordinates.
pub open spec fn pos_at_fits(row: int, col: int) -> bool {
    fits_i32(row_first_x_spec(row) + col) && fits_i32(row_first_y_spec(row) - col)
}

/// The row that a position lies in.
pub open spec fn row_of(p: Pos) -> int {
    p.x + p.y
}

/// The column that a position lies in.
pub open spec fn col_of(p: Pos) -> int {
    p.x - row_first_x_spec(row_of(p))
}

/// Whether a position lies within the `WIDTH` by `HEIGHT` window.
pub open spec fn in_grid(p: Pos) -> bool {
    0 <= row_of(p) < HEIGHT && 0 <= col_of(p) < WIDTH
}

/// Where a position of the window is kept in row-major storage.
pub open spec fn slot_of(p: Pos) -> int {
    row_of(p) * WIDTH + col_of(p)
}

/// Finds the first x-coordinate of a given row.
fn row_first_x(row: usize) -> (r: i64)
    requires
        row <= u32::MAX,
    ensures
        r == row_first_x_spec(row as int),
{
    (row as i64 + 1) / 2
}

/// Finds the first y-coordinate of a given row.
fn row_first_y(row: usize) -> (r: i64)
    requires
        row <= u32::MAX,
    ensures
        r == row_first_y_spec(row as int),
{
    row as i64 / 2
}

/// Turns a 2d index into a position.
pub fn index_to_pos(i: Index2d) -> (r: Pos)
    requires
        pos_at_fits(i.row as int, i.col as int),
    ensures
        r == pos_at(i.row as int, i.col as int),
{
    Pos { x: (row_first_x(i.row) + i.col as i64) as i32, y: (row_first_y(i.row) - i.col as i64) as i32 }
}

/// Turns a position into a 2d index.
pub fn pos_to_index(pos: Pos) -> (r: Index2d)
    requires
        row_of(pos) >= 0,
        col_of(pos) >= 0,
    ensures
        r.row == row_of(pos),
        r.col == col_of(pos),
{
    let row = (pos.x as i64 + pos.y as i64) as usize;
    let col = (pos.x as i64 - row_first_x(row)) as usize;
    Index2d { row, col }
}

/// Whether a position is within the bounds of the grid.
pub fn contains(pos: Pos) -> (r: bool)
    ensures
        r == in_grid(pos),
{
    let row = pos.x as i64 + pos.y as i64;
    if row < 0 || row >= HEIGHT as i64 {
        return false;
    }
    let col = pos.x as i64 - row_first_x(row as usize);
    0 <= col && col < WIDTH as i64
}

/// Turns a position in the grid into a location on screen.
pub fn pos_to_location(pos: Pos) -> (r: Location)
    requires
        row_of(pos) >= 0,
        col_of(pos) >= 0,
        fits_i32(row_of(pos) % 2 + 2 * col_of(pos)),
        fits_i32(row_of(pos)),
    ensures
        r.x == row_of(pos) % 2 + 2 * col_of(pos),
        r.y == row_of(pos),
{
    let Index2d { row, col } = pos_to_index(pos);
    Location { x: ((row % 2) + 2 * col) as i32, y: row as i32 }
}

/// Finds the central position of the grid.
pub fn center() -> (r: Pos)
    ensures
        r == pos_at((HEIGHT / 2) as int, (WIDTH / 2) as int),
        in_grid(r),
{
    index_to_pos(Index2d { row: HEIGHT / 2, col: WIDTH / 2 })
}

/// Finds a corner position.
pub fn corner() -> (r: Pos)
    ensures
        r == pos_at(0, 0),
        in_grid(r),
{
    index_to_pos(Index2d { row: 0, col: 0 })
}

/// Every position of the grid, in row-major order.
pub fn positions() -> (r: Vec<Pos>)
    ensures
        r@.len() == WIDTH * HEIGHT,
        forall|row: int, col: int|
            0 <= row < HEIGHT && 0 <= col < WIDTH ==> #[trigger] r@[row * WIDTH + col] == pos_at(
                row,
                col,
            ),
{
    let mut r: Vec<Pos> = Vec::new();
    let mut row: usize = 0;
    while row < HEIGHT
        invariant
            row <= HEIGHT,
            r@.len() == row * WIDTH,
            forall|i: int, j: int|
                0 <= i < row && 0 <= j < WIDTH ==> #[trigger] r@[i * WIDTH + j] == pos_at(i, j),
        decreases HEIGHT - row,
    {
        let mut col: usize = 0;
        while col < WIDTH
            invariant
                row < HEIGHT,
                col <= WIDTH,
                r@.len() == row * WIDTH + col,
                forall|i: int, j: int|
                    0 <= i < row && 0 <= j < WIDTH ==> #[trigger] r@[i * WIDTH + j] == pos_at(i, j),
                forall|j: int| 0 <= j < col ==> #[trigger] r@[row * WIDTH + j] == pos_at(row as int, j),
            decreases WIDTH - col,
        {
            r.push(index_to_pos(Index2d { row, col }));
            col += 1;
        }
        row += 1;
    }
    r
}

/// Every position of the grid off its outer ring, in row-major order.
pub fn inner_positions() -> (r: Vec<Pos>)
    ensures
        r@.len() == INNER_WIDTH * INNER_HEIGHT,
        forall|row: int, col: int|
            0 <= row < INNER_HEIGHT && 0 <= col < INNER_WIDTH ==> #[trigger] r@[row * INNER_WIDTH + col]
                == pos_at(row + 1, col + 1),
{
    let mut r: Vec<Pos> = Vec::new();
    let mut row: usize = 0;
    while row < INNER_HEIGHT
        invariant
            row <= INNER_HEIGHT,
            r@.len() == row * INNER_WIDTH,
            forall|i: int, j: int|
                0 <= i < row && 0 <= j < INNER_WIDTH ==> #[trigger] r@[i * INNER_WIDTH + j] == pos_at(
                    i + 1,
                    j + 1,
                ),
        decreases INNER_HEIGHT - row,
    {
        let mut col: usize = 0;
        while col < INNER_WIDTH
            invariant
                row < INNER_HEIGHT,
                col <= INNER_WIDTH,
                r@.len() == row * INNER_WIDTH + col,
                forall|i: int, j: int|
                    0 <= i < row && 0 <= j < INNER_WIDTH ==> #[trigger] r@[i * INNER_WIDTH + j]
                        == pos_at(i + 1, j + 1),
                forall|j: int|
                    0 <= j < col ==> #[trigger] r@[row * INNER_WIDTH + j] == pos_at(
                        row + 1,
                        j + 1,
                    ),
            decreases INNER_WIDTH - col,
        {
            r.push(index_to_pos(Index2d { row: row + 1, col: col + 1 }));
            col += 1;
        }
        row += 1;
    }
    r
}

/// A value for every position of the grid, kept in row-major order.
pub struct Grid<T> {
    cells: Vec<T>,
}

impl<T> Grid<T> {
    /// The values in row-major order.
    pub closed spec fn view(&self) -> Seq<T> {
        self.cells@
    }

    /// A grid holds one value for each position of the window.
    pub open spec fn wf(&self) -> bool {
        self@.len() == WIDTH * HEIGHT
    }

    /// Creates a grid holding `init(pos)` for each position, called in row-major order.
    pub fn new<F: Fn(Pos) -> T>(init: F) -> (r: Self)
        requires
            forall|row: int, col: int|
                0 <= row < HEIGHT && 0 <= col < WIDTH ==> init.requires((#[trigger] pos_at(row, col),)),
        ensures
            r@.len() == WIDTH * HEIGHT,
            forall|row: int, col: int|
                0 <= row < HEIGHT && 0 <= col < WIDTH ==> init.ensures(
                    (pos_at(row, col),),
                    #[trigger] r@[row * WIDTH + col],
                ),
    {
        let mut cells: Vec<T> = Vec::with_capacity(WIDTH * HEIGHT);
        let mut row: usize = 0;
        while row < HEIGHT
            invariant
                forall|row: int, col: int|
                    0 <= row < HEIGHT && 0 <= col < WIDTH ==> init.requires((#[trigger] pos_at(row, col),)),
                row <= HEIGHT,
                cells@.len() == row * WIDTH,
                forall|i: int, j: int|
                    0 <= i < row && 0 <= j < WIDTH ==> init.ensures(
                        (pos_at(i, j),),
                        #[trigger] cells@[i * WIDTH + j],
                    ),
            decreases HEIGHT - row,
        {
            let mut col: usize = 0;
            while col < WIDTH
                invariant
                    forall|row: int, col: int|
                        0 <= row < HEIGHT && 0 <= col < WIDTH ==> init.requires((#[trigger] pos_at(row, col),)),
                    row < HEIGHT,
                    col <= WIDTH,
                    cells@.len() == row * WIDTH + col,
                    forall|i: int, j: int|
                        0 <= i < row && 0 <= j < WIDTH ==> init.ensures(
                            (pos_at(i, j),),
                            #[trigger] cells@[i * WIDTH + j],
                        ),
                    forall|j: int|
                        0 <= j < col ==> init.ensures(
                            (pos_at(row as int, j),),
                            #[trigger] cells@[row * WIDTH + j],
                        ),
                decreases WIDTH - col,
            {
                let pos = index_to_pos(Index2d { row, col });
                cells.push(init(pos));
                col += 1;
            }
            row += 1;
        }
        Grid { cells }
    }

    /// Builds a grid from its values in row-major order.
    pub fn from_vec(items: Vec<T>) -> (r: Self)
        requires
            items@.len() == WIDTH * HEIGHT,
        ensures
            r@ == items@,
    {
        Grid { cells: items }
    }

    /// Walks the values in row-major order.
    pub fn iter(&self) -> (r: std::slice::Iter<'_, T>)
        ensures
            vstd::std_specs::slice::into_iter_elts(r) == self@,
    {
        let s = self.cells.as_slice();
        let r = s.iter();
        proof {
            vstd::std_specs::slice::axiom_spec_slice_iter(s);
            assert(self@.as_ref().unref() =~= self@);
        }
        r
    }

    /// The value at a position of the grid.
    pub fn at(&self, pos: Pos) -> (r: &T)
        requires
            self.wf(),
            in_grid(pos),
        ensures
            *r == self@[slot_of(pos)],
    {
        let Index2d { row, col } = pos_to_index(pos);
        &self.cells[row * WIDTH + col]
    }

    /// The value at a row and column of the grid.
    pub fn at_index(&self, i: Index2d) -> (r: &T)
        requires
            self.wf(),
            i.row < HEIGHT,
            i.col < WIDTH,
        ensures
            *r == self@[i.row * WIDTH + i.col],
    {
        &self.cells[i.row * WIDTH + i.col]
    }

    /// Replaces the value at a row and column of the grid.
    pub fn set_index(&mut self, i: Index2d, value: T)
        requires
            old(self).wf(),
            i.row < HEIGHT,
            i.col < WIDTH,
        ensures
            final(self)@ == old(self)@.update(i.row * WIDTH + i.col, value),
    {
        self.cells.set(i.row * WIDTH + i.col, value);
    }

    /// Replaces the value at a position of the grid.
    pub fn set(&mut self, pos: Pos, value: T)
        requires
            old(self).wf(),
            in_grid(pos),
        ensures
            final(self)@ == old(self)@.update(slot_of(pos), value),
    {
        let Index2d { row, col } = pos_to_index(pos);
        self.cells.set(row * WIDTH + col, value);
    }
}

/// Decoding the position at a row and column of the window gives back that row
/// and column, and the position lies in the window.
pub proof fn lemma_index_round_trip(row: int, col: int)
    requires
        0 <= row < HEIGHT,
        0 <= col < WIDTH,
    ensures
        pos_at_fits(row, col),
        row_of(pos_at(row, col)) == row,
        col_of(pos_at(row, col)) == col,
        in_grid(pos_at(row, col)),
        slot_of(pos_at(row, col)) == row * WIDTH + col,
{
    assert((row + 1) / 2 + row / 2 == row);
}

/// Hex distance does not depend on the order of its ends, and a position is at
/// distance zero from itself.
pub proof fn lemma_distance_symmetric(a: Pos, b: Pos)
    ensures
        hex_len(b.x - a.x, b.y - a.y) == hex_len(a.x - b.x, a.y - b.y),
        hex_len(a.x - a.x, a.y - a.y) == 0,
{
}

/// Walking `n` steps in one direction ends `n` steps away.
pub proof fn lemma_distance_along_direction(p: Pos, d: Direction, n: int)
    requires
        n >= 0,
    ensures
        hex_len((p.x + d.dx() * n) - p.x, (p.y + d.dy() * n) - p.y) == n,
{
    match d {
        Direction::Southeast => assert(d.dx() * n == n && d.dy() * n == 0),
        Direction::East => assert(d.dx() * n == n && d.dy() * n == -n),
        Direction::Northeast => assert(d.dx() * n == 0 && d.dy() * n == -n),
        Direction::Northwest => assert(d.dx() * n == -n && d.dy() * n == 0),
        Direction::West => assert(d.dx() * n == -n && d.dy() * n == n),
        Direction::Southwest => assert(d.dx() * n == 0 && d.dy() * n == n),
    }
}

/// Six steps bring a direction back to itself, one step back undoes one step
/// forward, and three steps give the opposite unit vector.
#[verifier::spinoff_prover]
#[verifier::rlimit(50)]
pub proof fn lemma_rotation_laws(d: Direction, n: int)
    ensures
        d.rotate_spec(6) == d,
        d.rotate_spec(-1).rotate_spec(1) == d,
        d.rotate_spec(n).rotate_spec(-n) == d,
        d.rotate_spec(3).dx() == -d.dx(),
        d.rotate_spec(3).dy() == -d.dy(),
{
    let i = d.index_spec();
    let k = (i + n) % 6;
    lemma_step_back(i, n);
    assert(direction_at(k).index_spec() == k);
    assert(direction_at(i) == d);
    assert(d.rotate_spec(n).rotate_spec(-n) == d);
    lemma_step_back(i, -1);
    assert(d.rotate_spec(-1).rotate_spec(1) == d);
    assert(d.rotate_spec(6) == d && d.rotate_spec(3).dx() == -d.dx() && d.rotate_spec(3).dy()
        == -d.dy()) by {
        match d {
            Direction::Southeast => {},
            Direction::East => {},
            Direction::Northeast => {},
            Direction::Northwest => {},
            Direction::West => {},
            Direction::Southwest => {},
        }
    }
}

/// Going `n` steps round the cycle of six and then `n` steps back returns to the start.
proof fn lemma_step_back(i: int, n: int)
    requires
        0 <= i < 6,
    ensures
        0 <= (i + n) % 6 < 6,
        ((i + n) % 6 - n) % 6 == i,
{
    let k = (i + n) % 6;
    vstd::arithmetic::div_mod::lemma_fundamental_div_mod(i + n, 6);
    vstd::arithmetic::div_mod::lemma_fundamental_div_mod_converse(k - n, 6, -((i + n) / 6), i);
}

/// Adding then taking away a displacement changes nothing, and adding a
/// displacement to itself doubles it.
pub proof fn lemma_vector_laws(a: Displacement, b: Displacement)
    requires
        fits_i32(a.x + b.x),
        fits_i32(a.y + b.y),
    ensures
        ((a.x + b.x) - b.x) == a.x && ((a.y + b.y) - b.y) == a.y,
        fits_i32(a.x + a.x) ==> a.x + a.x == a.x * 2,
        fits_i32(a.y + a.y) ==> a.y + a.y == a.y * 2,
{
}

/// Any displacement is `x` steps `Southeast` plus `y` steps `Southwest`, and
/// `decompose` along those two axes gives back `(x, y)`.
pub proof fn lemma_native_axes(v: Displacement)
    ensures
        Direction::Southeast.dx() * v.x + Direction::Southwest.dx() * v.y == v.x,
        Direction::Southeast.dy() * v.x + Direction::Southwest.dy() * v.y == v.y,
        decompose_spec(v.x as int, v.y as int, Direction::Southeast, Direction::Southwest) == (
        v.x as int, v.y as int),
{
}

/// For two directions that are neither equal nor opposite, the coefficients that
/// `decompose` gives rebuild the displacement.
pub proof fn lemma_decompose_rebuilds(x: int, y: int, dir1: Direction, dir2: Direction)
    requires
        dir1 != dir2,
        dir1.dx() != -dir2.dx() || dir1.dy() != -dir2.dy(),
    ensures
        dir1.dx() * decompose_spec(x, y, dir1, dir2).0 + dir2.dx() * decompose_spec(
            x,
            y,
            dir1,
            dir2,
        ).1 == x,
        dir1.dy() * decompose_spec(x, y, dir1, dir2).0 + dir2.dy() * decompose_spec(
            x,
            y,
            dir1,
            dir2,
        ).1 == y,
{
    let a = dir2.dy();
    let b = -dir2.dx();
    let c = -dir1.dy();
    let d = dir1.dx();
    let det = a * d - b * c;
    let p = a * x + b * y;
    let q = c * x + d * y;
    assert(det == 1 || det == -1) by {
        match dir1 {
            Direction::Southeast => match dir2 {
                Direction::Southeast => {},
                Direction::East => {
                    assert(a == -1 && b == -1 && c == 0 && d == 1);
                    assert(a * d - b * c == -1) by (nonlinear_arith)
                        requires
                            a == -1 && b == -1 && c == 0 && d == 1,
                    ;
                },
                Direction::Northeast => {
                    assert(a == -1 && b == 0 && c == 0 && d == 1);
                    assert(a * d - b * c == -1) by (nonlinear_arith)
                        requires
                            a == -1 && b == 0 && c == 0 && d == 1,
                    ;
                },
                Direction::Northwest => {},
                Direction::West => {
                    assert(a == 1 && b == 1 && c == 0 && d == 1);
                    assert(a * d - b * c == 1) by (nonlinear_arith)
                        requires
                            a == 1 && b == 1 && c == 0 && d == 1,
                    ;
                },
                Direction::Southwest => {
                    assert(a == 1 && b == 0 && c == 0 && d == 1);
                    assert(a * d - b * c == 1) by (nonlinear_arith)
                        requires
                            a == 1 && b == 0 && c == 0 && d == 1,
                    ;
                },
            },
            Direction::East => match dir2 {
                Direction::Southeast => {
                    assert(a == 0 && b == -1 && c == 1 && d == 1);
                    assert(a * d - b * c == 1) by (nonlinear_arith)
                        requires
                            a == 0 && b == -1 && c == 1 && d == 1,
                    ;
                },
                Direction::East => {},
                Direction::Northeast => {
                    assert(a == -1 && b == 0 && c == 1 && d == 1);
                    assert(a * d - b * c == -1) by (nonlinear_arith)
                        requires
                            a == -1 && b == 0 && c == 1 && d == 1,
                    ;
                },
                Direction::Northwest => {
                    assert(a == 0 && b == 1 && c == 1 && d == 1);
                    assert(a * d - b * c == -1) by (nonlinear_arith)
                        requires
                            a == 0 && b == 1 && c == 1 && d == 1,
                    ;
                },
                Direction::West => {},
                Direction::Southwest => {
                    assert(a == 1 && b == 0 && c == 1 && d == 1);
                    assert(a * d - b * c == 1) by (nonlinear_arith)
                        requires
                            a == 1 && b == 0 && c == 1 && d == 1,
                    ;
                },
            },
            Direction::Northeast => match dir2 {
                Direction::Southeast => {
                    assert(a == 0 && b == -1 && c == 1 && d == 0);
                    assert(a * d - b * c == 1) by (nonlinear_arith)
                        requires
                            a == 0 && b == -1 && c == 1 && d == 0,
                    ;
                },
                Direction::East => {
                    assert(a == -1 && b == -1 && c == 1 && d == 0);
                    assert(a * d - b * c == 1) by (nonlinear_arith)
                        requires
                            a == -1 && b == -1 && c == 1 && d == 0,
                    ;
                },
                Direction::Northeast => {},
                Direction::Northwest => {
                    assert(a == 0 && b == 1 && c == 1 && d == 0);
                    assert(a * d - b * c == -1) by (nonlinear_arith)
                        requires
                            a == 0 && b == 1 && c == 1 && d == 0,
                    ;
                },
                Direction::West => {
                    assert(a == 1 && b == 1 && c == 1 && d == 0);
                    assert(a * d - b * c == -1) by (nonlinear_arith)
                        requires
                            a == 1 && b == 1 && c == 1 && d == 0,
                    ;
                },
                Direction::Southwest => {},
            },
            Direction::Northwest => match dir2 {
                Direction::Southeast => {},
                Direction::East => {
                    assert(a == -1 && b == -1 && c == 0 && d == -1);
                    assert(a * d - b * c == 1) by (nonlinear_arith)
                        requires
                            a == -1 && b == -1 && c == 0 && d == -1,
                    ;
                },
                Direction::Northeast => {
                    assert(a == -1 && b == 0 && c == 0 && d == -1);
                    assert(a * d - b * c == 1) by (nonlinear_arith)
                        requires
                            a == -1 && b == 0 && c == 0 && d == -1,
                    ;
                },
                Direction::Northwest => {},
                Direction::West => {
                    assert(a == 1 && b == 1 && c == 0 && d == -1);
                    assert(a * d - b * c == -1) by (nonlinear_arith)
                        requires
                            a == 1 && b == 1 && c == 0 && d == -1,
                    ;
                },
                Direction::Southwest => {
                    assert(a == 1 && b == 0 && c == 0 && d == -1);
                    assert(a * d - b * c == -1) by (nonlinear_arith)
                        requires
                            a == 1 && b == 0 && c == 0 && d == -1,
                    ;
                },
            },
            Direction::West => match dir2 {
                Direction::Southeast => {
                    assert(a == 0 && b == -1 && c == -1 && d == -1);
                    assert(a * d - b * c == -1) by (nonlinear_arith)
                        requires
                            a == 0 && b == -1 && c == -1 && d == -1,
                    ;
                },
                Direction::East => {},
                Direction::Northeast => {
                    assert(a == -1 && b == 0 && c == -1 && d == -1);
                    assert(a * d - b * c == 1) by (nonlinear_arith)
                        requires
                            a == -1 && b == 0 && c == -1 && d == -1,
                    ;
                },
                Direction::Northwest => {
                    assert(a == 0 && b == 1 && c == -1 && d == -1);
                    assert(a * d - b * c == 1) by (nonlinear_arith)
                        requires
                            a == 0 && b == 1 && c == -1 && d == -1,
                    ;
                },
                Direction::West => {},
                Direction::Southwest => {
                    assert(a == 1 && b == 0 && c == -1 && d == -1);
                    assert(a * d - b * c == -1) by (nonlinear_arith)
                        requires
                            a == 1 && b == 0 && c == -1 && d == -1,
                    ;
                },
            },
            Direction::Southwest => match dir2 {
                Direction::Southeast => {
                    assert(a == 0 && b == -1 && c == -1 && d == 0);
                    assert(a * d - b * c == -1) by (nonlinear_arith)
                        requires
                            a == 0 && b == -1 && c == -1 && d == 0,
                    ;
                },
                Direction::East => {
                    assert(a == -1 && b == -1 && c == -1 && d == 0);
                    assert(a * d - b * c == -1) by (nonlinear_arith)
                        requires
                            a == -1 && b == -1 && c == -1 && d == 0,
                    ;
                },
                Direction::Northeast => {},
                Direction::Northwest => {
                    assert(a == 0 && b == 1 && c == -1 && d == 0);
                    assert(a * d - b * c == 1) by (nonlinear_arith)
                        requires
                            a == 0 && b == 1 && c == -1 && d == 0,
                    ;
                },
                Direction::West => {
                    assert(a == 1 && b == 1 && c == -1 && d == 0);
                    assert(a * d - b * c == 1) by (nonlinear_arith)
                        requires
                            a == 1 && b == 1 && c == -1 && d == 0,
                    ;
                },
                Direction::Southwest => {},
            },
        }
    }
    assert(d * p - b * q == det * x) by (nonlinear_arith)
        requires
            det == a * d - b * c,
            p == a * x + b * y,
            q == c * x + d * y,
    ;
    assert(a * q - c * p == det * y) by (nonlinear_arith)
        requires
            det == a * d - b * c,
            p == a * x + b * y,
            q == c * x + d * y,
    ;
    assert(d * (det * p) + (-b) * (det * q) == det * (d * p - b * q)) by (nonlinear_arith);
    assert((-c) * (det * p) + a * (det * q) == det * (a * q - c * p)) by (nonlinear_arith);
    assert(det * (det * x) == x && det * (det * y) == y) by (nonlinear_arith)
        requires
            det == 1 || det == -1,
    ;
}

/// An exact multiple of `n` divides by `n` with no rounding.
proof fn lemma_round_exact(c: int, n: int)
    requires
        -2 <= c <= 2,
        n > 0,
    ensures
        round_quot(c * n, n) == c,
        round_err(c * n, n, c) == 0,
{
    let b = if c >= 0 { c } else { -c };
    assert(2 * (b * n) + n == b * (2 * n) + n) by (nonlinear_arith);
    vstd::arithmetic::div_mod::lemma_fundamental_div_mod_converse(2 * (b * n) + n, 2 * n, b, n);
    if c < 0 {
        assert(-2 * (c * n) + n == 2 * (b * n) + n) by (nonlinear_arith)
            requires
                b == -c,
        ;
        assert(c * n < 0) by (nonlinear_arith)
            requires
                c < 0,
                n > 0,
        ;
    } else {
        assert(c * n >= 0) by (nonlinear_arith)
            requires
                c >= 0,
                n > 0,
        ;
    }
    assert(c * n - n * c == 0) by (nonlinear_arith);
}

/// Scaling a direction's unit vector by `n` and dividing by `n` gives the unit
/// vector back, and its direction is that direction.
pub proof fn lemma_div_undoes_scale(d: Direction, n: int)
    requires
        n > 0,
    ensures
        cube_round(d.dx() * n, d.dy() * n, n) == (d.dx(), d.dy()),
        direction_spec(d.dx() * n, d.dy() * n) == Some(d),
{
    lemma_round_exact(d.dx(), n);
    lemma_round_exact(d.dy(), n);
    lemma_round_exact(d.dx() + d.dy(), n);
    assert(d.dx() * n + d.dy() * n == (d.dx() + d.dy()) * n) by (nonlinear_arith);
    lemma_distance_along_direction(Pos { x: 0, y: 0 }, d, n);
    lemma_round_exact(d.dx(), hex_len(d.dx() * n, d.dy() * n));
    lemma_round_exact(d.dy(), hex_len(d.dx() * n, d.dy() * n));
    lemma_round_exact(d.dx() + d.dy(), hex_len(d.dx() * n, d.dy() * n));
}

} // verus!
