//! What the DLL's exported functions hand back: a box tagged as valid or not,
//! and a NUL-terminated UTF-16 error message copied into the caller's buffer.
use vstd::prelude::*;
use crate::geometry::{Point, cur_box, to_screen, to_screen_fits, cur_box_to_screen};
use crate::error::CursorSizeErr;

verus! {

/// Whether a `maybe_cur_box` holds a measured box.
#[derive(Copy, Clone, Debug, PartialEq, Eq, Structural)]
pub enum err {
    Okay,
    Er,
}

/// A box with a tag saying whether it was measured; a failed measurement
/// hands back the error tag and a zeroed box.
#[derive(Copy, Clone, Debug, PartialEq, Eq, Structural)]
pub struct maybe_cur_box {
    /// Whether `cur_box` is valid.
    pub err: err,
    /// The measured box, all zero when `err` is `Er`.
    pub cur_box: cur_box,
}

/// The zeroed box with the error tag.
pub open spec fn error_box() -> maybe_cur_box {
    maybe_cur_box {
        err: err::Er,
        cur_box: cur_box { ptl: Point { x: 0, y: 0 }, pbr: Point { x: 0, y: 0 }, hs: Point { x: 0, y: 0 } },
    }
}

impl Default for maybe_cur_box {
    fn default() -> (m: maybe_cur_box)
        ensures
            m == error_box(),
    {
        maybe_cur_box { err: err::Er, cur_box: cur_box::default() }
    }
}

/// The tagged result of a measurement: the error tag for an error; else the
/// box, moved to screen coordinates (its hot spot onto `hs_screen`) when
/// `coord` is 0.
pub open spec fn spec_tag_box(coords: Result<cur_box, CursorSizeErr>, coord: i8, hs_screen: Point) -> maybe_cur_box {
    match coords {
        Ok(c) => maybe_cur_box { err: err::Okay, cur_box: if coord == 0 { to_screen(c, hs_screen) } else { c } },
        Err(_) => error_box(),
    }
}

/// Tags a measurement for the caller of the DLL, in screen coordinates when
/// `coord` is 0 and the hot spot's screen position `hs_screen` is known.
pub fn tag_box(coords: Result<cur_box, CursorSizeErr>, coord: i8, hs_screen: Point) -> (m: maybe_cur_box)
    requires
        coord == 0 ==> (coords matches Ok(c) ==> to_screen_fits(c, hs_screen)),
    ensures
        m == spec_tag_box(coords, coord, hs_screen),
{
    match coords {
        Ok(c) => {
            let mut c = c;
            if coord == 0 {
                cur_box_to_screen(&mut c, &hs_screen);
            }
            maybe_cur_box { err: err::Okay, cur_box: c }
        },
        Err(_) => maybe_cur_box::default(),
    }
}

/// Copies the NUL-terminated message `err_msg` (its NUL included) into a
/// caller's buffer of `err_sz` UTF-16 units, as much of it as fits in
/// `err_sz / 2` units, and ends what was copied with a NUL. Units past the
/// copied part are left as they were.
pub fn ret_error(err_msg: &[u16], err_sz: u32, err_buf: &mut [u16])
    requires
        old(err_buf)@.len() == err_sz,
        err_msg@.len() >= 1,
        err_sz / 2 >= 1,
    ensures
        ({
            let n = if err_msg@.len() < err_sz / 2 { err_msg@.len() as int } else { (err_sz / 2) as int };
            &&& final(err_buf)@.len() == err_sz
            &&& final(err_buf)@ == err_msg@.take(n - 1).push(0u16) + old(err_buf)@.skip(n)
        }),
{
    let half = (err_sz / 2) as usize;
    let max_len = if err_msg.len() < half { err_msg.len() } else { half };
    let ghost old_buf = err_buf@;
    let mut i: usize = 0;
    while i < max_len
        invariant
            max_len <= err_msg@.len(),
            max_len <= err_buf@.len(),
            err_buf@.len() == old_buf.len(),
            i <= max_len,
            err_buf@ == err_msg@.take(i as int) + old_buf.skip(i as int),
        decreases max_len - i,
    {
        err_buf[i] = err_msg[i];
        assert(err_buf@ =~= err_msg@.take(i + 1) + old_buf.skip(i + 1));
        i = i + 1;
    }
    err_buf[max_len - 1] = 0u16;
    assert(err_buf@ =~= err_msg@.take(max_len - 1).push(0u16) + old_buf.skip(max_len as int));
}

} // verus!
