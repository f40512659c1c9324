//! A 2D position and the difference between two of them, generic over the
//! coordinate type.

use vstd::prelude::*;

verus! {

/// A coordinate type for points.
pub trait Coordinate: Copy {
    /// The origin coordinate.
    fn zero() -> Self;
}

impl Coordinate for i32 {
    fn zero() -> (r: i32)
        ensures
            r == 0,
    {
        0
    }
}

impl Coordinate for i64 {
    fn zero() -> (r: i64)
        ensures
            r == 0,
    {
        0
    }
}

/// A 2D position defined by x and y coordinates.
#[derive(Clone, Copy)]
pub struct Point<T: Coordinate> {
    pub x: T,
    pub y: T,
}

impl<T: Coordinate> Point<T> {
    /// The point with the given coordinates.
    pub fn new(x: T, y: T) -> (r: Point<T>)
        ensures
            r.x == x,
            r.y == y,
    {
        Point { x, y }
    }
}

/// A difference between two 2D points.
#[derive(Clone, Copy)]
pub struct PointDelta<T: Coordinate> {
    pub dx: T,
    pub dy: T,
}

impl<T: Coordinate> PointDelta<T> {
    /// The delta with the given components.
    pub fn new(dx: T, dy: T) -> (r: PointDelta<T>)
        ensures
            r.dx == dx,
            r.dy == dy,
    {
        PointDelta { dx, dy }
    }
}

} // verus!
