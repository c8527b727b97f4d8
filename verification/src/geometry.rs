//! Where a pin window goes when the frontend resizes it: macOS anchors a
//! resize at the bottom-left, so the window is put back either at its old
//! top-left or centred on its old centre.
use vstd::prelude::*;

verus! {

/// Half of `x`, rounded toward zero as Rust's integer division does.
pub open spec fn half_toward_zero(x: int) -> int {
    if x >= 0 {
        x / 2
    } else {
        -((-x) / 2)
    }
}

/// Whether the centred position of a resize stays in `i32`.
pub open spec fn centre_fits(pos: (i32, i32), size: (u32, u32), new_size: (i32, i32)) -> bool {
    let cx = pos.0 + half_toward_zero(size.0 as i32 as int);
    let cy = pos.1 + half_toward_zero(size.1 as i32 as int);
    &&& i32::MIN <= cx <= i32::MAX
    &&& i32::MIN <= cy <= i32::MAX
    &&& i32::MIN <= cx - half_toward_zero(new_size.0 as int) <= i32::MAX
    &&& i32::MIN <= cy - half_toward_zero(new_size.1 as int) <= i32::MAX
}

/// Whether the centred position of a resize stays in `i32`.
pub fn can_centre(pos: (i32, i32), size: (u32, u32), new_size: (i32, i32)) -> (b: bool)
    ensures
        b == centre_fits(pos, size, new_size),
{
    let cx = pos.0 as i64 + ((size.0 as i32) / 2) as i64;
    let cy = pos.1 as i64 + ((size.1 as i32) / 2) as i64;
    let min: i64 = -0x8000_0000;
    let max: i64 = 0x7fff_ffff;
    let x = cx - (new_size.0 / 2) as i64;
    let y = cy - (new_size.1 / 2) as i64;
    min <= cx && cx <= max && min <= cy && cy <= max && min <= x && x <= max && min <= y && y <= max
}

/// The physical top-left to restore after resizing a window that was at
/// `old_pos` with physical size `old_size` to physical size `new_size`: with
/// `center`, the top-left that keeps the old centre (when both old values are
/// known); without, the old top-left (when known). `None`: leave the window
/// where the resize put it.
pub fn resize_anchor(
    old_pos: Option<(i32, i32)>,
    old_size: Option<(u32, u32)>,
    new_size: (i32, i32),
    center: bool,
) -> (r: Option<(i32, i32)>)
    requires
        center ==> (old_pos matches Some(p) && old_size matches Some(s) ==> centre_fits(
            p,
            s,
            new_size,
        )),
    ensures
        r == (if center {
            match (old_pos, old_size) {
                (Some(p), Some(s)) => Some(
                    (
                        (p.0 + half_toward_zero(s.0 as i32 as int) - half_toward_zero(
                            new_size.0 as int,
                        )) as i32,
                        (p.1 + half_toward_zero(s.1 as i32 as int) - half_toward_zero(
                            new_size.1 as int,
                        )) as i32,
                    ),
                ),
                _ => None,
            }
        } else {
            old_pos
        }),
{
    if center {
        match (old_pos, old_size) {
            (Some(p), Some(s)) => {
                let cx = p.0 + (s.0 as i32) / 2;
                let cy = p.1 + (s.1 as i32) / 2;
                Some((cx - new_size.0 / 2, cy - new_size.1 / 2))
            },
            _ => None,
        }
    } else {
        old_pos
    }
}

} // verus!
