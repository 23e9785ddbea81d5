use vstd::prelude::*;

verus! {

/// A pattern whose color at a point is the point's own coordinates; it has
/// no transform and no state.
#[derive(Clone, Copy, Debug, PartialEq, Eq, Structural)]
pub struct TestPattern {}

impl TestPattern {
    pub fn new() -> (r: TestPattern)
        ensures
            r == (TestPattern {}),
    {
        TestPattern {}
    }
}

impl Default for TestPattern {
    fn default() -> (r: TestPattern)
        ensures
            r == (TestPattern {}),
    {
        TestPattern::new()
    }
}

/// A stripe pattern takes its first color where the floor of x is even.
pub open spec fn stripe_first(floor_x: int) -> bool {
    floor_x % 2 == 0
}

/// A checkers pattern takes its first color where the floors of the three
/// coordinates add up to an even number.
pub open spec fn checkers_first(floor_x: int, floor_y: int, floor_z: int) -> bool {
    (floor_x + floor_y + floor_z) % 2 == 0
}

/// A ring pattern takes its first color where the floor of the distance
/// from the y axis is even.
pub open spec fn ring_first(floor_r: int) -> bool {
    floor_r % 2 == 0
}

/// Whether a stripe pattern shows its first color at a point whose x has
/// floor `floor_x`.
pub fn stripe_selects_first(floor_x: i64) -> (r: bool)
    ensures
        r == stripe_first(floor_x as int),
{
    floor_x % 2 == 0
}

/// Whether a checkers pattern shows its first color at a point whose
/// coordinates have floors `floor_x`, `floor_y` and `floor_z`.
pub fn checkers_selects_first(floor_x: i64, floor_y: i64, floor_z: i64) -> (r: bool)
    ensures
        r == checkers_first(floor_x as int, floor_y as int, floor_z as int),
{
    let odd_x: bool = floor_x % 2 != 0;
    let odd_y: bool = floor_y % 2 != 0;
    let odd_z: bool = floor_z % 2 != 0;
    proof {
        lemma_sum_parity(floor_x as int, floor_y as int, floor_z as int);
    }
    (odd_x != odd_y) == odd_z
}

/// Whether a ring pattern shows its first color at a point whose distance
/// from the y axis has floor `floor_r`.
pub fn ring_selects_first(floor_r: i64) -> (r: bool)
    ensures
        r == ring_first(floor_r as int),
{
    floor_r % 2 == 0
}

proof fn lemma_sum_parity(x: int, y: int, z: int)
    ensures
        ((x + y + z) % 2 == 0) == (((x % 2 != 0) != (y % 2 != 0)) == (z % 2 != 0)),
{
}

/// A checkers pattern changes color with each unit step along any one axis,
/// and so repeats itself after two.
pub proof fn lemma_checkers_alternates(floor_x: int, floor_y: int, floor_z: int)
    ensures
        checkers_first(floor_x + 1, floor_y, floor_z) != checkers_first(floor_x, floor_y, floor_z),
        checkers_first(floor_x, floor_y + 1, floor_z) != checkers_first(floor_x, floor_y, floor_z),
        checkers_first(floor_x, floor_y, floor_z + 1) != checkers_first(floor_x, floor_y, floor_z),
        checkers_first(floor_x + 2, floor_y, floor_z) == checkers_first(floor_x, floor_y, floor_z),
        checkers_first(floor_x, floor_y + 2, floor_z) == checkers_first(floor_x, floor_y, floor_z),
        checkers_first(floor_x, floor_y, floor_z + 2) == checkers_first(floor_x, floor_y, floor_z),
{
}

/// A stripe pattern's color depends on the parity of the floor of x alone:
/// two points get the same color exactly when those floors are both even or
/// both odd.
pub proof fn lemma_stripe_parity(floor_x1: int, floor_x2: int)
    ensures
        (stripe_first(floor_x1) == stripe_first(floor_x2)) <==> (floor_x1 % 2 == floor_x2 % 2),
{
}

} // verus!
