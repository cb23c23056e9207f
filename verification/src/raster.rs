use vstd::prelude::*;

verus! {

/// Clips the inclusive integer bounding box `[min_x, max_x] x [min_y,
/// max_y]` to the screen rectangle `[0, width) x [0, height)`.
///
/// This is the rasterizer's screen-coverage gate: it returns the clipped,
/// still-inclusive box exactly when the box meets the screen, and `None`
/// when the intersection is empty, in which case no fragment is emitted.
pub fn clip_bbox(
    min_x: i32,
    min_y: i32,
    max_x: i32,
    max_y: i32,
    width: usize,
    height: usize,
) -> (r: Option<(i32, i32, i32, i32)>)
    requires
        1 <= width <= i32::MAX,
        1 <= height <= i32::MAX,
    ensures
        r is Some <==> (0 <= max_x && 0 <= max_y && min_x < width && min_y < height && min_x
            <= max_x && min_y <= max_y),
        r matches Some(b) ==> {
            &&& b.0 == (if min_x < 0 { 0int } else { min_x as int })
            &&& b.1 == (if min_y < 0 { 0int } else { min_y as int })
            &&& b.2 == (if max_x as int >= width { width - 1 } else { max_x as int })
            &&& b.3 == (if max_y as int >= height { height - 1 } else { max_y as int })
            &&& 0 <= b.0 <= b.2 < width
            &&& 0 <= b.1 <= b.3 < height
        },
{
    if max_x < 0 || max_y < 0 || min_x >= width as i32 || min_y >= height as i32 {
        return None;
    }
    if min_x > max_x || min_y > max_y {
        return None;
    }
    let x0: i32 = if min_x < 0 { 0 } else { min_x };
    let y0: i32 = if min_y < 0 { 0 } else { min_y };
    let x1: i32 = if max_x >= width as i32 { width as i32 - 1 } else { max_x };
    let y1: i32 = if max_y >= height as i32 { height as i32 - 1 } else { max_y };
    Some((x0, y0, x1, y1))
}

} // verus!
