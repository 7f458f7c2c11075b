//! Two-dimensional integer vectors for positions and velocities.

use vstd::prelude::*;

verus! {

/// A point or a displacement on the integer grid of the world.
#[derive(Clone, Copy, Debug, PartialEq, Eq, Structural)]
pub struct Vec2 {
    pub x: i32,
    pub y: i32,
}

/// The value of `v` brought into the range of a coordinate.
pub open spec fn clamp_coordinate(v: int) -> int {
    if v < i32::MIN as int {
        i32::MIN as int
    } else if v > i32::MAX as int {
        i32::MAX as int
    } else {
        v
    }
}

/// The coordinate reached from `start` after `steps` moves of `delta` each,
/// where a move that would leave the coordinate range stops at its bound.
pub open spec fn coordinate_after(start: i32, delta: i32, steps: nat) -> i32 {
    clamp_coordinate(start + steps * delta) as i32
}

/// Adds two coordinates and stops at the bounds of the coordinate range.
pub fn add_coordinates(a: i32, b: i32) -> (sum: i32)
    ensures
        sum == clamp_coordinate(a + b),
        sum == coordinate_after(a, b, 1),
{
    assert(1 * b == b) by (nonlinear_arith);
    let wide: i64 = a as i64 + b as i64;
    if wide > i32::MAX as i64 {
        i32::MAX
    } else if wide < i32::MIN as i64 {
        i32::MIN
    } else {
        wide as i32
    }
}

/// Moving `first` times and then `second` times reaches the same coordinate
/// as moving `first + second` times.
pub proof fn lemma_coordinate_steps_compose(start: i32, delta: i32, first: nat, second: nat)
    ensures
        coordinate_after(coordinate_after(start, delta, first), delta, second) == coordinate_after(
            start,
            delta,
            first + second,
        ),
{
    let s = start as int;
    let d = delta as int;
    let m = first as int;
    let n = second as int;
    assert((m + n) * d == m * d + n * d) by (nonlinear_arith);
    if s + m * d > i32::MAX as int {
        assert(d > 0 && n * d >= 0) by (nonlinear_arith)
            requires
                s + m * d > i32::MAX as int,
                s <= i32::MAX as int,
                m >= 0,
                n >= 0,
        ;
    } else if s + m * d < i32::MIN as int {
        assert(d < 0 && n * d <= 0) by (nonlinear_arith)
            requires
                s + m * d < i32::MIN as int,
                s >= i32::MIN as int,
                m >= 0,
                n >= 0,
        ;
    }
}

impl Vec2 {
    /// The vector with the given coordinates.
    pub fn new(x: i32, y: i32) -> (v: Vec2)
        ensures
            v == (Vec2 { x, y }),
    {
        Vec2 { x, y }
    }

    /// The origin of the world, where new entities appear.
    pub fn zero() -> (v: Vec2)
        ensures
            v == (Vec2 { x: 0, y: 0 }),
    {
        Vec2 { x: 0, y: 0 }
    }

    /// The point reached from `self` after `steps` moves of `delta`.
    pub open spec fn moved(self, delta: Vec2, steps: nat) -> Vec2 {
        Vec2 {
            x: coordinate_after(self.x, delta.x, steps),
            y: coordinate_after(self.y, delta.y, steps),
        }
    }

    /// The sum of two vectors, coordinate by coordinate; a coordinate that
    /// would leave the range stops at its bound.
    pub fn saturating_add(self, delta: Vec2) -> (sum: Vec2)
        ensures
            sum == self.moved(delta, 1),
    {
        Vec2 { x: add_coordinates(self.x, delta.x), y: add_coordinates(self.y, delta.y) }
    }
}

/// Moving `first` times and then `second` times reaches the same point as
/// moving `first + second` times, and moving no times changes nothing.
pub proof fn lemma_moves_compose(start: Vec2, delta: Vec2, first: nat, second: nat)
    ensures
        start.moved(delta, first).moved(delta, second) == start.moved(delta, first + second),
        start.moved(delta, 0) == start,
{
    lemma_coordinate_steps_compose(start.x, delta.x, first, second);
    lemma_coordinate_steps_compose(start.y, delta.y, first, second);
    assert(0 * delta.x == 0) by (nonlinear_arith);
    assert(0 * delta.y == 0) by (nonlinear_arith);
}

} // verus!
