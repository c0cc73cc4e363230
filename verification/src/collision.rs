//! Point queries against axis-aligned rectangles.

use vstd::prelude::*;

verus! {

/// Whether the point lies in the rectangle, all four edges included.
pub open spec fn spec_point_in_rect(
    point_x: int,
    point_y: int,
    rect_x: int,
    rect_y: int,
    rect_width: int,
    rect_height: int,
) -> bool {
    rect_x <= point_x <= rect_x + rect_width && rect_y <= point_y <= rect_y + rect_height
}

/// Tells whether a point lies in a rectangle. Both bounds of both ranges
/// count as inside, so two rectangles that share an edge both contain it.
pub fn point_in_rect(
    point_x: i64,
    point_y: i64,
    rect_x: i64,
    rect_y: i64,
    rect_width: i64,
    rect_height: i64,
) -> (hit: bool)
    ensures
        hit == spec_point_in_rect(
            point_x as int,
            point_y as int,
            rect_x as int,
            rect_y as int,
            rect_width as int,
            rect_height as int,
        ),
{
    let right: i128 = rect_x as i128 + rect_width as i128;
    let top: i128 = rect_y as i128 + rect_height as i128;
    let in_x_range = rect_x <= point_x && point_x as i128 <= right;
    let in_y_range = rect_y <= point_y && point_y as i128 <= top;
    in_x_range && in_y_range
}

/// The same test for a rectangle whose origin is the sum of two parts: where
/// an object stands, and where the instance sits within it.
pub fn point_in_offset_rect(
    point: (i64, i64),
    base: (i64, i64),
    offset: (i64, i64),
    dim: (i64, i64),
) -> (hit: bool)
    ensures
        hit == spec_point_in_rect(
            point.0 as int,
            point.1 as int,
            base.0 + offset.0,
            base.1 + offset.1,
            dim.0 as int,
            dim.1 as int,
        ),
{
    let left: i128 = base.0 as i128 + offset.0 as i128;
    let bottom: i128 = base.1 as i128 + offset.1 as i128;
    let right: i128 = left + dim.0 as i128;
    let top: i128 = bottom + dim.1 as i128;
    let px: i128 = point.0 as i128;
    let py: i128 = point.1 as i128;
    left <= px && px <= right && bottom <= py && py <= top
}

} // verus!
