//! The integer-valued parts of the layout pass: stack axes, cross-axis
//! policy, and the gradient table that emitted rects index into.

use vstd::prelude::*;

verus! {

/// Stack main-axis direction.
#[derive(Copy, Clone, Debug, PartialEq, Eq, Structural)]
pub enum Direction {
    /// Children pack horizontally; main axis is X, cross axis is Y.
    Row,
    /// Children pack vertically; main axis is Y, cross axis is X.
    Column,
}

impl Direction {
    /// `(main_axis, cross_axis)` as indices into an `[x, y]` pair.
    pub fn axes(self) -> (r: (usize, usize))
        ensures
            r == (match self {
                Direction::Row => (0usize, 1usize),
                Direction::Column => (1usize, 0usize),
            }),
    {
        match self {
            Direction::Row => (0, 1),
            Direction::Column => (1, 0),
        }
    }
}

/// Cross-axis alignment policy for a stack's children.
#[derive(Copy, Clone, Debug, PartialEq, Eq, Structural)]
pub enum CrossAlign {
    /// Anchor child to the leading edge of the cross axis.
    Start,
    /// Center child along the cross axis.
    Center,
    /// Anchor child to the trailing edge of the cross axis.
    End,
    /// Size child to fill the cross axis. Default.
    Stretch,
}

impl Default for CrossAlign {
    /// `Stretch`.
    fn default() -> (r: Self)
        ensures
            r == CrossAlign::Stretch,
    {
        CrossAlign::Stretch
    }
}

/// Sentinel for "this rect has no gradient".
pub const NO_GRADIENT: i32 = -1;

/// Appends `gradient` (if any) to `gradients` and returns its index, or
/// [`NO_GRADIENT`] when there is none. The index is the table length before
/// the push, converted to `i32` as `as` does.
pub fn push_gradient<T>(gradients: &mut Vec<T>, gradient: Option<T>) -> (r: i32)
    ensures
        match gradient {
            None => r == NO_GRADIENT && final(gradients)@ == old(gradients)@,
            Some(g) => r == old(gradients)@.len() as i32 && final(gradients)@ == old(
                gradients,
            )@.push(g),
        },
{
    match gradient {
        None => NO_GRADIENT,
        Some(g) => {
            let idx = gradients.len() as i32;
            gradients.push(g);
            idx
        },
    }
}

} // verus!
