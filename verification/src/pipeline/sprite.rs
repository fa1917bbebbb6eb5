//! The 2x2 sprite sheet assembled from four review frames.
use vstd::prelude::*;

use crate::text::{decimal, owned, push_decimal, push_str};

verus! {

/// Where the four frames go on the sheet, and the sheet's size.
#[derive(Clone, Debug, PartialEq, Eq)]
pub struct SpriteSheetLayout {
    pub frame_width: u32,
    pub frame_height: u32,
    pub width: u32,
    pub height: u32,
    /// The top-left corner of each frame, in frame order.
    pub origins: Vec<(u32, u32)>,
}

/// `a * 2`, saturating at `u32::MAX`.
pub open spec fn sat_double(a: u32) -> u32 {
    if 2 * a > u32::MAX {
        u32::MAX
    } else {
        (2 * a) as u32
    }
}

/// The first frame, after the first, whose size differs from the first one's.
pub open spec fn first_mismatch(dims: Seq<(u32, u32)>) -> Option<int> {
    if exists|i: int| 1 <= i < dims.len() && #[trigger] dims[i] != dims[0] {
        Some(
            choose|i: int|
                1 <= i < dims.len() && #[trigger] dims[i] != dims[0] && forall|j: int|
                    1 <= j < i ==> #[trigger] dims[j] == dims[0],
        )
    } else {
        None
    }
}

/// The error for a wrong number of frames.
pub open spec fn frame_count_message(n: nat) -> Seq<char> {
    "Expected 4 frames for sprite sheet, got "@ + decimal(n) + "."@
}

/// The error for a frame whose size differs from the first one's.
pub open spec fn mismatch_message(idx: nat, w: u32, h: u32, got: (u32, u32)) -> Seq<char> {
    "Sprite sheet frame size mismatch at index "@ + decimal(idx) + ": expected "@ + decimal(w as nat)
        + "x"@ + decimal(h as nat) + ", got ("@ + decimal(got.0 as nat) + ", "@ + decimal(
        got.1 as nat,
    ) + ")."@
}

fn saturating_double(a: u32) -> (r: u32)
    ensures
        r == sat_double(a),
{
    if a > u32::MAX / 2 {
        u32::MAX
    } else {
        a * 2
    }
}

/// Checks that a sprite sheet gets exactly four frames.
pub fn check_sprite_sheet_frame_count(count: usize) -> (r: Result<(), String>)
    ensures
        r is Ok <==> count == 4,
        r matches Err(m) ==> m@ == frame_count_message(count as nat),
{
    if count != 4 {
        let mut m = owned("Expected 4 frames for sprite sheet, got ");
        push_decimal(&mut m, count as u64);
        push_str(&mut m, ".");
        return Err(m);
    }
    Ok(())
}

/// The layout of a 2x2 sheet of frames with the given sizes (width, height):
/// all frames must have the first one's size; the sheet is twice as wide and
/// twice as high (saturating), with the frames at the top left, top right,
/// bottom left and bottom right.
pub fn sprite_sheet_layout(dims: &Vec<(u32, u32)>) -> (r: Result<SpriteSheetLayout, String>)
    ensures
        dims@.len() != 4 ==> (r matches Err(m) && m@ == frame_count_message(dims@.len())),
        dims@.len() == 4 ==> match first_mismatch(dims@) {
            Some(i) => (r matches Err(m) && m@ == mismatch_message(
                i as nat,
                dims@[0].0,
                dims@[0].1,
                dims@[i],
            )),
            None => (r matches Ok(l) && {
                let (w, h) = dims@[0];
                &&& l.frame_width == w
                &&& l.frame_height == h
                &&& l.width == sat_double(w)
                &&& l.height == sat_double(h)
                &&& l.origins@ == seq![(0u32, 0u32), (w, 0u32), (0u32, h), (w, h)]
            }),
        },
{
    check_sprite_sheet_frame_count(dims.len())?;
    let (w, h) = dims[0];
    let mut idx: usize = 1;
    while idx < 4
        invariant
            1 <= idx <= 4,
            dims@.len() == 4,
            (w, h) == dims@[0],
            forall|j: int| 1 <= j < idx ==> #[trigger] dims@[j] == dims@[0],
        decreases 4 - idx,
    {
        let (a, b) = dims[idx];
        if a != w || b != h {
            proof {
                let i = idx as int;
                assert(dims@[i] != dims@[0]);
                let c = choose|c: int|
                    1 <= c < dims@.len() && #[trigger] dims@[c] != dims@[0] && forall|j: int|
                        1 <= j < c ==> #[trigger] dims@[j] == dims@[0];
                if c < i {
                    assert(dims@[c] == dims@[0]);
                } else if i < c {
                    assert(dims@[i] == dims@[0]);
                }
            }
            let mut m = owned("Sprite sheet frame size mismatch at index ");
            push_decimal(&mut m, idx as u64);
            push_str(&mut m, ": expected ");
            push_decimal(&mut m, w as u64);
            push_str(&mut m, "x");
            push_decimal(&mut m, h as u64);
            push_str(&mut m, ", got (");
            push_decimal(&mut m, a as u64);
            push_str(&mut m, ", ");
            push_decimal(&mut m, b as u64);
            push_str(&mut m, ").");
            return Err(m);
        }
        idx = idx + 1;
    }
    let mut origins: Vec<(u32, u32)> = Vec::new();
    origins.push((0, 0));
    origins.push((w, 0));
    origins.push((0, h));
    origins.push((w, h));
    proof {
        assert(origins@ =~= seq![(0u32, 0u32), (w, 0u32), (0u32, h), (w, h)]);
    }
    Ok(SpriteSheetLayout {
        frame_width: w,
        frame_height: h,
        width: saturating_double(w),
        height: saturating_double(h),
        origins,
    })
}

} // verus!
