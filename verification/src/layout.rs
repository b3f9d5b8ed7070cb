//! Which windows of a tag's stack are shown, and on which side.

use crate::manager::{Rings, RingsModel};
use crate::ring::WindowId;
use vstd::prelude::*;

verus! {

/// The window on the left and the window on the right, for a tag with this
/// stack. They are the first two windows of the stack. The one that the
/// left column of a tag shows is on the left; where that settles nothing,
/// the first of the stack is. A single window has the whole tag to itself
/// and counts as the left one.
pub open spec fn sides(m: RingsModel, stack: Seq<WindowId>) -> (
    Option<WindowId>,
    Option<WindowId>,
) {
    if stack.len() == 0 {
        (None, None)
    } else if stack.len() == 1 {
        (Some(stack[0]), None)
    } else if m.shows_left(stack[1]) && !m.shows_left(stack[0]) {
        (Some(stack[1]), Some(stack[0]))
    } else {
        (Some(stack[0]), Some(stack[1]))
    }
}

/// The window on the left and the window on the right, for a tag with this
/// stack: its first two windows, with the left column's on the left.
pub fn shown_pair(rings: &Rings, stack: &Vec<WindowId>) -> (r: (
    Option<WindowId>,
    Option<WindowId>,
))
    requires
        rings.wf(),
    ensures
        r == sides(rings@, stack@),
{
    if stack.len() == 0 {
        (None, None)
    } else if stack.len() == 1 {
        (Some(stack[0]), None)
    } else if rings.shows_left(stack[1]) && !rings.shows_left(stack[0]) {
        (Some(stack[1]), Some(stack[0]))
    } else {
        (Some(stack[0]), Some(stack[1]))
    }
}

} // verus!
