//! Positions in the ground plane (x, z) in whole millimetres, their
//! differences, the cross product that tells the turn at a node, and the
//! minimum distance that every move between two nodes keeps.
use vstd::prelude::*;

verus! {

/// The smallest distance (mm) that a move between two neighbouring nodes covers.
pub const MIN_DISTANCE: i32 = 300;

/// What `min_distance` returns: a distance shorter than [MIN_DISTANCE] is
/// pushed out to [MIN_DISTANCE] in its own direction (a zero distance counts
/// as positive); any other distance is kept.
pub open spec fn spec_min_distance(distance: int) -> int {
    if -(MIN_DISTANCE as int) < distance && distance < MIN_DISTANCE as int {
        if distance >= 0 {
            MIN_DISTANCE as int
        } else {
            -(MIN_DISTANCE as int)
        }
    } else {
        distance
    }
}

/// Corrects a move distance so that it covers at least [MIN_DISTANCE].
pub fn min_distance(distance: i64) -> (r: i64)
    ensures
        r == spec_min_distance(distance as int),
{
    if -(MIN_DISTANCE as i64) < distance && distance < MIN_DISTANCE as i64 {
        if distance >= 0 {
            MIN_DISTANCE as i64
        } else {
            -(MIN_DISTANCE as i64)
        }
    } else {
        distance
    }
}

/// A corrected distance covers at least [MIN_DISTANCE], keeps the direction
/// of the distance (zero counting as positive), leaves a distance that
/// already covers [MIN_DISTANCE] as it is, and correcting twice is
/// correcting once.
pub proof fn lemma_min_distance(distance: int)
    ensures
        spec_min_distance(distance) >= MIN_DISTANCE || spec_min_distance(distance) <= -MIN_DISTANCE,
        distance >= 0 ==> spec_min_distance(distance) > 0,
        distance < 0 ==> spec_min_distance(distance) < 0,
        (distance >= MIN_DISTANCE || distance <= -MIN_DISTANCE) ==> spec_min_distance(distance)
            == distance,
        spec_min_distance(spec_min_distance(distance)) == spec_min_distance(distance),
{
}

/// A point of the ground plane, in millimetres.
#[derive(Clone, Copy, Debug, PartialEq, Eq, Structural)]
pub struct Position {
    pub x: i32,
    pub z: i32,
}

/// The difference of two positions.
#[derive(Clone, Copy, Debug, PartialEq, Eq, Structural)]
pub struct Offset {
    pub x: i64,
    pub z: i64,
}

/// The z component of the cross product of two plane vectors (x, z).
pub open spec fn spec_cross(ax: int, az: int, bx: int, bz: int) -> int {
    ax * bz - az * bx
}

/// The cross product of the vectors `p1 - p0` and `p2 - p0`: positive when
/// the path p0, p1, p2 turns clockwise (seen from above, x right, z down).
pub open spec fn spec_turn_cross(p0: Position, p1: Position, p2: Position) -> int {
    spec_cross(p1.x - p0.x, p1.z - p0.z, p2.x - p0.x, p2.z - p0.z)
}

impl Position {
    /// Creates a new [Position] at the given x and z.
    pub fn new(x: i32, z: i32) -> (p: Position)
        ensures
            p.x == x,
            p.z == z,
    {
        Position { x, z }
    }

    /// The component-wise sum of two positions.
    pub fn add(self, rhs: Position) -> (p: Position)
        requires
            i32::MIN <= self.x + rhs.x <= i32::MAX,
            i32::MIN <= self.z + rhs.z <= i32::MAX,
        ensures
            p.x == self.x + rhs.x,
            p.z == self.z + rhs.z,
    {
        Position { x: self.x + rhs.x, z: self.z + rhs.z }
    }

    /// The component-wise product of two positions.
    pub fn mul(self, rhs: Position) -> (p: Position)
        requires
            i32::MIN <= self.x * rhs.x <= i32::MAX,
            i32::MIN <= self.z * rhs.z <= i32::MAX,
        ensures
            p.x == self.x * rhs.x,
            p.z == self.z * rhs.z,
    {
        Position { x: self.x * rhs.x, z: self.z * rhs.z }
    }

    /// The vector from `rhs` to `self`.
    pub fn sub(self, rhs: Position) -> (o: Offset)
        ensures
            o.x == self.x - rhs.x,
            o.z == self.z - rhs.z,
    {
        Offset { x: self.x as i64 - rhs.x as i64, z: self.z as i64 - rhs.z as i64 }
    }
}

impl Offset {
    /// The cross product `self.x * rhs.z - self.z * rhs.x`.
    pub fn cross(self, rhs: Offset) -> (c: i128)
        requires
            -0x1_0000_0000 <= self.x <= 0x1_0000_0000,
            -0x1_0000_0000 <= self.z <= 0x1_0000_0000,
            -0x1_0000_0000 <= rhs.x <= 0x1_0000_0000,
            -0x1_0000_0000 <= rhs.z <= 0x1_0000_0000,
        ensures
            c == spec_cross(self.x as int, self.z as int, rhs.x as int, rhs.z as int),
    {
        let a = self.x as i128;
        let b = self.z as i128;
        let c = rhs.x as i128;
        let d = rhs.z as i128;
        assert(-0x1_0000_0000_0000_0000 <= a * d <= 0x1_0000_0000_0000_0000) by (nonlinear_arith)
            requires
                -0x1_0000_0000 <= a <= 0x1_0000_0000,
                -0x1_0000_0000 <= d <= 0x1_0000_0000,
        ;
        assert(-0x1_0000_0000_0000_0000 <= b * c <= 0x1_0000_0000_0000_0000) by (nonlinear_arith)
            requires
                -0x1_0000_0000 <= b <= 0x1_0000_0000,
                -0x1_0000_0000 <= c <= 0x1_0000_0000,
        ;
        a * d - b * c
    }
}

/// The cross product of `p1 - p0` and `p2 - p0`.
pub fn turn_cross(p0: Position, p1: Position, p2: Position) -> (c: i128)
    ensures
        c == spec_turn_cross(p0, p1, p2),
{
    let v_01 = p1.sub(p0);
    let v_02 = p2.sub(p0);
    v_01.cross(v_02)
}

} // verus!
