//! The part of a render target that a camera projects into.

use vstd::prelude::*;

verus! {

/// A rectangle of a screen or render target, in physical pixels.
#[derive(Debug, Copy, Clone, PartialEq)]
pub struct Viewport {
    /// The distance in pixels from the left edge of the target.
    pub x: i32,
    /// The distance in pixels from the bottom edge of the target.
    pub y: i32,
    /// The width of the viewport.
    pub width: u32,
    /// The height of the viewport.
    pub height: u32,
}

/// The larger of two numbers.
pub open spec fn larger(a: int, b: int) -> int {
    if a >= b {
        a
    } else {
        b
    }
}

/// The smaller of two numbers.
pub open spec fn smaller(a: int, b: int) -> int {
    if a <= b {
        a
    } else {
        b
    }
}

/// The length of the overlap of two spans that start at `start` and
/// `other_start` and have the lengths `length` and `other_length`; zero if
/// they do not overlap.
pub open spec fn overlap(start: int, length: int, other_start: int, other_length: int) -> int {
    larger(
        0,
        smaller(start + length, other_start + other_length) - larger(start, other_start),
    )
}

impl Viewport {
    /// The right edge.
    pub open spec fn right(&self) -> int {
        self.x + self.width
    }

    /// The top edge.
    pub open spec fn top(&self) -> int {
        self.y + self.height
    }

    /// Creates a viewport with the bottom left corner at `(0, 0)`.
    pub fn new_at_origo(width: u32, height: u32) -> (viewport: Self)
        ensures
            viewport == (Viewport { x: 0, y: 0, width, height }),
    {
        Viewport { x: 0, y: 0, width, height }
    }

    /// The intersection of this viewport and `other`: it starts at the
    /// larger of the two left edges and of the two bottom edges, and is as
    /// wide and as high as the two overlap.
    ///
    /// The edges of both viewports must fit in an `i32`, and `other` must
    /// not end to the left of, or below, the start of this viewport.
    pub fn intersection(&self, other: Viewport) -> (common: Self)
        requires
            self.right() <= i32::MAX,
            self.top() <= i32::MAX,
            other.right() <= i32::MAX,
            other.top() <= i32::MAX,
            self.x <= other.right(),
            self.y <= other.top(),
        ensures
            common.x == larger(self.x as int, other.x as int),
            common.y == larger(self.y as int, other.y as int),
            common.width == overlap(
                self.x as int,
                self.width as int,
                other.x as int,
                other.width as int,
            ),
            common.height == overlap(
                self.y as int,
                self.height as int,
                other.y as int,
                other.height as int,
            ),
    {
        let x: i32 = if self.x >= other.x {
            self.x
        } else {
            other.x
        };
        let y: i32 = if self.y >= other.y {
            self.y
        } else {
            other.y
        };
        let width = span(self.x, self.width, other.x, other.width, x);
        let height = span(self.y, self.height, other.y, other.height, y);
        Viewport { x, y, width, height }
    }
}

/// The part from `from` on that two spans have in common, where `from` is
/// the larger of their starts.
fn span(start: i32, length: u32, other_start: i32, other_length: u32, from: i32) -> (common: u32)
    requires
        start + length <= i32::MAX,
        other_start + other_length <= i32::MAX,
        start <= other_start + other_length,
        from == larger(start as int, other_start as int),
    ensures
        common == overlap(start as int, length as int, other_start as int, other_length as int),
{
    let end: i64 = start as i64 + length as i64;
    let other_end: i64 = other_start as i64 + other_length as i64;
    let mine: i64 = end - from as i64;
    let limit: i64 = other_end - from as i64;
    let clamped: i64 = if mine < 0 {
        0
    } else if mine > limit {
        limit
    } else {
        mine
    };
    clamped as u32
}

} // verus!
