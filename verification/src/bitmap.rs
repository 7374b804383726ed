//! Measuring a cursor from the bitmaps that `GetIconInfo` returns: a
//! monochrome cursor has one mask bitmap holding its AND mask on top of its
//! XOR mask; a colour cursor has a monochrome AND mask and a 32-bit BGRα
//! colour bitmap, whose α channel either is all zero (the colour is XORed or
//! replaces the screen as the mask says) or holds real transparency.
use vstd::prelude::*;
use crate::bits::{msb0_bit, msb0_bit_at, BITSLICE_MAX_BYTES};
use crate::extent::{Extent, covers, in_prefix, any_drawn, empty_extent, same_row, lemma_covers_start,
    lemma_covers_step, lemma_covers_next_row, lemma_covers_skip, lemma_covers_sides, lemma_empty_start_proper,
    lemma_covers_unique};
use crate::geometry::{Point, cur_box};
use crate::scale::{acc_delta, stretch_nat, stretch, sat_usize, sat_i32, stretch_index, stretch_coord};
use crate::error::CursorSizeErr;
use vstd::string::StringExecFns;

verus! {

/// The header fields of a GDI `BITMAP` that the measurement reads.
#[derive(Copy, Clone, Debug, PartialEq, Eq, Structural)]
pub struct BitmapInfo {
    /// Width in pixels.
    pub width: i32,
    /// Bytes per scan line (the stride).
    pub width_bytes: i32,
    /// Height in pixels.
    pub height: i32,
    /// Bits per pixel.
    pub bits_pixel: u16,
}

/// What reading one cursor bitmap gave: its header, the byte count that
/// `GetObjectW` reported (zero or less when it failed), the pixel bytes and
/// the byte count that `GetBitmapBits` reported (zero when it failed).
#[derive(Debug)]
pub struct BitmapBits {
    pub info: BitmapInfo,
    pub object_bytes: i32,
    pub bits: Vec<u8>,
    pub copied_bytes: i32,
}

/// What reading the pixels of a colour bitmap with α a second time gave:
/// the bytes and the count that `GetBitmapBits` reported (zero when it failed).
#[derive(Debug)]
pub struct BitsReread {
    pub bits: Vec<u8>,
    pub copied_bytes: i32,
}

impl BitmapInfo {
    /// The header describes a bitmap whose buffer size fits an `i32`.
    pub open spec fn wf(self) -> bool {
        &&& self.width >= 0
        &&& self.width_bytes >= 0
        &&& self.height >= 0
        &&& self.width_bytes * self.height <= i32::MAX
    }

    /// The number of pixel bytes: stride times height.
    pub open spec fn spec_size(self) -> int {
        self.width_bytes * self.height
    }

    /// The number of pixel bytes to read: stride times height.
    pub fn buffer_size(&self) -> (n: usize)
        requires
            self.wf(),
        ensures
            n == self.spec_size(),
    {
        (self.width_bytes * self.height) as usize
    }
}

impl BitmapBits {
    /// The buffer holds exactly the bytes the header describes.
    pub open spec fn wf(self) -> bool {
        &&& self.info.wf()
        &&& self.bits@.len() == self.info.spec_size()
    }
}

/// A monochrome mask that has been read can be walked: its stretch fits
/// `usize`, and the pixels of a row lie within its scan line, which `bitvec`
/// can view.
pub open spec fn mono_ready(info: BitmapInfo, sz_acc: u32) -> bool {
    let hh = info.height / 2;
    &&& (sz_acc - 1) * (hh / 2) <= usize::MAX
    &&& hh > 0 && info.width > 0 ==> info.width <= 8 * info.width_bytes && info.width_bytes < BITSLICE_MAX_BYTES
}

/// Scan line `r` of a bitmap with stride `wb`.
pub open spec fn scan_line(buf: Seq<u8>, wb: int, r: int) -> Seq<u8> {
    buf.subrange(wb * r, wb * r + wb)
}

/// A pixel of a monochrome cursor changes the screen unless its AND bit is 1
/// and its XOR bit is 0: AND 0 paints black or white, AND 1 with XOR 1
/// inverts the screen. The AND mask is the top `hh` rows, the XOR mask the
/// `hh` rows below.
pub open spec fn mono_drawn(buf: Seq<u8>, wb: int, hh: int) -> spec_fn(int, int) -> bool {
    |r: int, c: int| !msb0_bit(scan_line(buf, wb, r), c) || msb0_bit(scan_line(buf, wb, r + hh), c)
}

/// The four colour bytes of pixel `c` of scan line `r` are all zero.
pub open spec fn color_zero(buf: Seq<u8>, wb: int, r: int, c: int) -> bool {
    buf[wb * r + 4 * c] == 0 && buf[wb * r + 4 * c + 1] == 0 && buf[wb * r + 4 * c + 2] == 0 && buf[wb * r + 4
        * c + 3] == 0
}

/// A pixel of a colour cursor without α changes the screen unless its AND bit
/// is 1 and its colour is zero: AND 0 replaces the screen pixel with the
/// colour (black when the colour is zero), AND 1 XORs a non-zero colour with
/// the screen. The AND mask has stride `wab`, the colour bitmap stride `wb`.
pub open spec fn masked_drawn(abuf: Seq<u8>, wab: int, buf: Seq<u8>, wb: int) -> spec_fn(int, int) -> bool {
    |r: int, c: int| !msb0_bit(scan_line(abuf, wab, r), c) || !color_zero(buf, wb, r, c)
}

/// A pixel of a colour cursor with α is drawn when its α is not zero. Pixels
/// are `px` bytes wide and pixel `c` of a scan line starts at byte `px · c`,
/// which must lie within the line's `wb` bytes.
pub open spec fn alpha_drawn(buf: Seq<u8>, wb: int, px: int) -> spec_fn(int, int) -> bool {
    |r: int, c: int| px * c < wb && buf[wb * r + px * c + 3] != 0
}

/// Every pixel of a scan line, the shorter last one too, has an α byte.
pub open spec fn alpha_layout_ok(wb: int, px: int) -> bool {
    &&& px >= 4
    &&& (wb % px == 0 || wb % px >= 4)
}

/// The box of an extent, its corners and hot spot stretched for the
/// Accessibility size `sz_acc` when it is above 1 (on a bitmap `h` rows high).
pub open spec fn finish_box(e: Extent, hot: Point, sz_acc: u32, h: int) -> cur_box {
    if sz_acc > 1 {
        let d = acc_delta(sz_acc as int, h);
        cur_box {
            ptl: Point {
                x: sat_usize(stretch_nat(e.left as int, h, d)) as i32,
                y: sat_usize(stretch_nat(e.top as int, h, d)) as i32,
            },
            pbr: Point {
                x: sat_usize(stretch_nat(e.right as int, h, d)) as i32,
                y: sat_usize(stretch_nat(e.bottom as int, h, d)) as i32,
            },
            hs: Point {
                x: sat_i32(stretch(hot.x as int, h, d)) as i32,
                y: sat_i32(stretch(hot.y as int, h, d)) as i32,
            },
        }
    } else {
        cur_box {
            ptl: Point { x: e.left as i32, y: e.top as i32 },
            pbr: Point { x: e.right as i32, y: e.bottom as i32 },
            hs: hot,
        }
    }
}

/// `r` is the `Bitmap` error with message `msg`.
pub open spec fn bitmap_err(r: Result<cur_box, CursorSizeErr>, msg: Seq<char>) -> bool {
    r matches Err(CursorSizeErr::Bitmap(m)) && m@ == msg
}

/// `r` is the error for a bitmap that draws nothing.
pub open spec fn blank_err(r: Result<cur_box, CursorSizeErr>) -> bool {
    r matches Err(CursorSizeErr::Ii(m)) && m@ == "bounding box is invalid, is the cursor blank?"@
}

/// `r` is the box of the drawn events of the walk over `rows` rows and `cols`
/// columns, stretched for the Accessibility size on a bitmap `h` rows high;
/// when nothing is drawn, it is the error for a blank cursor.
pub open spec fn box_outcome(
    r: Result<cur_box, CursorSizeErr>,
    drawn: spec_fn(int, int) -> bool,
    rows: int,
    cols: int,
    hot: Point,
    sz_acc: u32,
    h: int,
) -> bool {
    if any_drawn(drawn, rows, cols) {
        r matches Ok(b) && exists|e: Extent|
            covers(drawn, same_row(), rows, 0, cols, empty_extent(), e) && b == finish_box(e, hot, sz_acc, h)
    } else {
        blank_err(r)
    }
}

/// Turns a full walk into the result: the error for a blank cursor when
/// nothing is drawn, else the stretched box.
fn conclude(
    e: Extent,
    Ghost(drawn): Ghost<spec_fn(int, int) -> bool>,
    rows: usize,
    cols: usize,
    hot: Point,
    sz_acc: u32,
    h: usize,
    d: usize,
) -> (r: Result<cur_box, CursorSizeErr>)
    requires
        covers(drawn, same_row(), rows as int, 0, cols as int, empty_extent(), e),
        rows <= i32::MAX,
        cols <= i32::MAX,
        rows <= h <= i32::MAX,
        sz_acc > 1 ==> d == acc_delta(sz_acc as int, h as int),
    ensures
        box_outcome(r, drawn, rows as int, cols as int, hot, sz_acc, h as int),
{
    proof {
        lemma_empty_start_proper(drawn, same_row(), rows as int, cols as int, e);
        lemma_covers_sides(drawn, same_row(), rows as int, cols as int, empty_extent(), e);
    }
    if e.left > e.right || e.top > e.bottom {
        Err(CursorSizeErr::Ii(String::from_str("bounding box is invalid, is the cursor blank?")))
    } else {
        proof {
            if e.bottom != 0 {
                let r = choose|r: int| 0 <= r < rows && #[trigger] same_row()(r) == e.bottom;
            }
        }
        let b = finish(e, hot, sz_acc, h, d);
        Ok(b)
    }
}

/// The result of measuring a monochrome cursor: an error for each read that
/// failed, in the order they are made, else the box of its mask.
pub open spec fn mono_result(r: Result<cur_box, CursorSizeErr>, bmask: BitmapBits, hot_p: Point, sz_acc: u32) -> bool {
    let hh = bmask.info.height / 2;
    &&& bmask.object_bytes <= 0 ==> bitmap_err(r, "Mono: ‘GetObjectW’ got no bytes for the 𝑏mask buffer"@)
    &&& bmask.object_bytes > 0 && bmask.copied_bytes == 0 ==> bitmap_err(
        r,
        "Mono: ‘GetBitmapBits’ copied no bytes from 𝑏mask"@,
    )
    &&& bmask.object_bytes > 0 && bmask.copied_bytes != 0 ==> box_outcome(
        r,
        mono_drawn(bmask.bits@, bmask.info.width_bytes as int, hh),
        hh,
        bmask.info.width as int,
        hot_p,
        sz_acc,
        hh,
    )
}

/// Measures a monochrome cursor from its AND/XOR mask bitmap.
fn measure_mono(bmask: &BitmapBits, hot_p: Point, sz_acc: u32) -> (r: Result<cur_box, CursorSizeErr>)
    requires
        bmask.wf(),
        sz_acc >= 1,
        bmask.object_bytes > 0 ==> mono_ready(bmask.info, sz_acc),
    ensures
        mono_result(r, *bmask, hot_p, sz_acc),
{
    if bmask.object_bytes <= 0 {
        return Err(CursorSizeErr::Bitmap(String::from_str("Mono: ‘GetObjectW’ got no bytes for the 𝑏mask buffer")));
    }
    let w = bmask.info.width as usize;
    let wb = bmask.info.width_bytes as usize;
    let hh = (bmask.info.height / 2) as usize;
    let d = ((sz_acc - 1) as usize) * (hh / 2);
    if bmask.copied_bytes == 0 {
        return Err(CursorSizeErr::Bitmap(String::from_str("Mono: ‘GetBitmapBits’ copied no bytes from 𝑏mask")));
    }
    assert(wb * (2 * hh) <= wb * bmask.info.height) by (nonlinear_arith)
        requires 2 * hh <= bmask.info.height, wb >= 0;
    let e = walk_mono(bmask.bits.as_slice(), wb, w, hh);
    conclude(e, Ghost(mono_drawn(bmask.bits@, wb as int, hh as int)), hh, w, hot_p, sz_acc, hh, d)
}

/// Some pixel of a colour bitmap has a non-zero α: its colour is blended, not
/// XORed or masked.
pub open spec fn has_alpha(bm: BitmapBits) -> bool {
    let wb = bm.info.width_bytes as int;
    any_drawn(alpha_drawn(bm.bits@, wb, (bm.info.bits_pixel / 8) as int), bm.info.height as int, wb)
}

/// A colour bitmap can be searched for α: its scan lines are not empty and
/// every pixel has an α byte.
pub open spec fn alpha_scan_ready(info: BitmapInfo) -> bool {
    &&& info.width_bytes > 0
    &&& info.height > 0 ==> alpha_layout_ok(info.width_bytes as int, (info.bits_pixel / 8) as int)
}

/// Without α, the AND mask `a` and the colour bitmap `x` can be walked
/// together: the mask has a row for each colour row and a bit for each
/// pixel, `bitvec` can view its rows, and the 4-byte colour pixels lie within
/// their scan line.
pub open spec fn masked_ready(a: BitmapInfo, x: BitmapInfo) -> bool {
    x.height > 0 ==> {
        &&& a.width_bytes < BITSLICE_MAX_BYTES
        &&& a.width_bytes > 0 ==> x.height <= a.height
        &&& x.width > 0 ==> 4 * x.width <= x.width_bytes && x.width <= 8 * a.width_bytes
    }
}

/// A colour cursor whose bitmaps have been read can be walked: its colour
/// bitmap can be searched for α, and without α it can be walked with its mask.
pub open spec fn color_ready(a: BitmapInfo, bm: BitmapBits) -> bool {
    &&& alpha_scan_ready(bm.info)
    &&& !has_alpha(bm) ==> masked_ready(a, bm.info)
}

/// Whether a colour bitmap can be searched for α.
pub fn is_alpha_scan_ready(info: &BitmapInfo) -> (b: bool)
    ensures
        b == alpha_scan_ready(*info),
{
    if info.width_bytes <= 0 {
        return false;
    }
    if info.height <= 0 {
        return true;
    }
    let px = (info.bits_pixel / 8) as i32;
    px >= 4 && (info.width_bytes % px == 0 || info.width_bytes % px >= 4)
}

/// Whether an AND mask and a colour bitmap without α can be walked together.
pub fn is_masked_ready(a: &BitmapInfo, x: &BitmapInfo) -> (b: bool)
    requires
        a.wf(),
        x.wf(),
    ensures
        b == masked_ready(*a, *x),
{
    if x.height <= 0 {
        return true;
    }
    (a.width_bytes as usize) < BITSLICE_MAX_BYTES && (a.width_bytes <= 0 || x.height <= a.height) && (x.width <= 0
        || ((x.width as i64) * 4 <= x.width_bytes as i64 && (x.width as i64) <= 8 * (a.width_bytes as i64)))
}

/// Whether a monochrome mask that was read can be walked.
pub fn is_mono_ready(info: &BitmapInfo, sz_acc: u32) -> (b: bool)
    requires
        info.wf(),
        sz_acc >= 1,
    ensures
        b == mono_ready(*info, sz_acc),
{
    let hh = (info.height / 2) as u128;
    let a = (sz_acc - 1) as u128;
    assert(a * (hh / 2) <= 0xffff_ffffu128 * 0xffff_ffffu128) by (nonlinear_arith)
        requires a <= 0xffff_ffffu128, hh / 2 <= 0xffff_ffffu128;
    let stretch_ok = a * (hh / 2) <= usize::MAX as u128;
    let lines_ok = hh == 0 || info.width == 0 || (info.width as i64 <= 8 * (info.width_bytes as i64)
        && (info.width_bytes as usize) < BITSLICE_MAX_BYTES);
    stretch_ok && lines_ok
}

/// Whether the Accessibility stretch of a bitmap `height` rows high fits `usize`.
pub fn is_stretch_ready(height: i32, sz_acc: u32) -> (b: bool)
    requires
        height >= 0,
        sz_acc >= 1,
    ensures
        b == ((sz_acc - 1) * (height / 2) <= usize::MAX),
{
    let a = (sz_acc - 1) as u128;
    let b = (height / 2) as u128;
    assert(a * b <= 0xffff_ffffu128 * 0xffff_ffffu128) by (nonlinear_arith)
        requires a <= 0xffff_ffffu128, b <= 0xffff_ffffu128;
    a * b <= usize::MAX as u128
}

/// Whether the buffer holds exactly the bytes the header describes.
pub fn is_bits_wf(bm: &BitmapBits) -> (b: bool)
    ensures
        b == bm.wf(),
{
    if !is_info_wf(&bm.info) {
        return false;
    }
    bm.bits.len() == bm.info.buffer_size()
}

/// Whether the header describes a bitmap whose buffer size fits an `i32`.
pub fn is_info_wf(info: &BitmapInfo) -> (b: bool)
    ensures
        b == info.wf(),
{
    if info.width < 0 || info.width_bytes < 0 || info.height < 0 {
        return false;
    }
    let a = info.width_bytes as i64;
    let b = info.height as i64;
    assert(a * b <= 0x8000_0000i64 * 0x8000_0000i64) by (nonlinear_arith)
        requires 0 <= a <= 0x8000_0000i64, 0 <= b <= 0x8000_0000i64;
    a * b <= i32::MAX as i64
}

/// The result of measuring a colour cursor: an error for each read that
/// failed, in the order they are made, else the box of its colour bitmap.
pub open spec fn color_result(
    r: Result<cur_box, CursorSizeErr>,
    bmask: BitmapBits,
    cur_c: BitmapBits,
    reread: Option<BitsReread>,
    hot_p: Point,
    sz_acc: u32,
) -> bool {
    &&& bmask.object_bytes <= 0 ==> bitmap_err(
            r,
            "Colorμ: ‘GetObjectW’ copied no bytes for the monochrome 𝑏mask buffer"@,
        )
    &&& bmask.object_bytes > 0 && cur_c.object_bytes <= 0 ==> bitmap_err(
            r,
            "Colorμ: ‘GetObjectW’ copied no bytes for the color 𝑏map buffer"@,
        )
    &&& bmask.object_bytes > 0 && cur_c.object_bytes > 0 && bmask.copied_bytes == 0 ==> bitmap_err(
            r,
            "Colorμ: ‘GetBitmapBits’ copied no bytes from the monochrome 𝑏mask"@,
        )
    &&& bmask.object_bytes > 0 && cur_c.object_bytes > 0 && bmask.copied_bytes != 0 && cur_c.copied_bytes == 0
            ==> bitmap_err(r, "Colorμ: ‘GetBitmapBits’ copied no bytes from the color 𝑏map"@)
    &&& bmask.object_bytes > 0 && cur_c.object_bytes > 0 && bmask.copied_bytes != 0 && cur_c.copied_bytes != 0
            ==> color_outcome(r, bmask, cur_c, reread, hot_p, sz_acc)
}

/// The second read of a colour bitmap is there and holds as many bytes as the first.
pub open spec fn reread_ready(bm: BitmapBits, reread: Option<&BitsReread>) -> bool {
    reread matches Some(rr) && rr.bits@.len() == bm.info.spec_size()
}

/// The second read, if any, as a value.
pub open spec fn opt_reread(reread: Option<&BitsReread>) -> Option<BitsReread> {
    match reread {
        Some(rr) => Some(*rr),
        None => None,
    }
}

/// Whether any pixel of a colour bitmap has a non-zero α.
pub fn bitmap_has_alpha(bm: &BitmapBits) -> (found: bool)
    requires
        bm.wf(),
        alpha_scan_ready(bm.info),
    ensures
        found == has_alpha(*bm),
{
    let wb = bm.info.width_bytes as usize;
    let h = bm.info.height as usize;
    let px = (bm.info.bits_pixel / 8) as usize;
    scan_alpha(bm.bits.as_slice(), wb, px, h)
}

/// Measures a colour cursor from its AND mask and its colour bitmap.
fn measure_color(bmask: &BitmapBits, cur_c: &BitmapBits, reread: Option<&BitsReread>, hot_p: Point, sz_acc: u32) -> (r: Result<
    cur_box,
    CursorSizeErr,
>)
    requires
        bmask.wf(),
        cur_c.wf(),
        sz_acc >= 1,
        bmask.object_bytes > 0 && cur_c.object_bytes > 0 ==> (sz_acc - 1) * (cur_c.info.height / 2) <= usize::MAX,
        bmask.object_bytes > 0 && cur_c.object_bytes > 0 && bmask.copied_bytes != 0 && cur_c.copied_bytes != 0
            ==> color_ready(bmask.info, *cur_c),
        bmask.object_bytes > 0 && cur_c.object_bytes > 0 && bmask.copied_bytes != 0 && cur_c.copied_bytes != 0
            && has_alpha(*cur_c) ==> reread_ready(*cur_c, reread),
    ensures
        color_result(r, *bmask, *cur_c, opt_reread(reread), hot_p, sz_acc),
{
    if bmask.object_bytes <= 0 {
        return Err(
            CursorSizeErr::Bitmap(
                String::from_str("Colorμ: ‘GetObjectW’ copied no bytes for the monochrome 𝑏mask buffer"),
            ),
        );
    }
    if cur_c.object_bytes <= 0 {
        return Err(
            CursorSizeErr::Bitmap(String::from_str("Colorμ: ‘GetObjectW’ copied no bytes for the color 𝑏map buffer")),
        );
    }
    let wx = cur_c.info.width as usize;
    let wxb = cur_c.info.width_bytes as usize;
    let hx = cur_c.info.height as usize;
    let px = (cur_c.info.bits_pixel / 8) as usize;
    if bmask.copied_bytes == 0 {
        return Err(
            CursorSizeErr::Bitmap(String::from_str("Colorμ: ‘GetBitmapBits’ copied no bytes from the monochrome 𝑏mask")),
        );
    }
    let d = ((sz_acc - 1) as usize) * (hx / 2);
    if cur_c.copied_bytes == 0 {
        return Err(
            CursorSizeErr::Bitmap(String::from_str("Colorμ: ‘GetBitmapBits’ copied no bytes from the color 𝑏map")),
        );
    }
    let buf = cur_c.bits.as_slice();
    if scan_alpha(buf, wxb, px, hx) {
        let rr = match reread {
            Some(rr) => rr,
            None => {
                assert(false);
                return Err(CursorSizeErr::Bitmap(String::new()));
            },
        };
        if rr.copied_bytes == 0 {
            return Err(
                CursorSizeErr::Bitmap(String::from_str("Colorα: ‘GetBitmapBits’ copied no bytes from the color 𝑏map")),
            );
        }
        let e = walk_alpha(rr.bits.as_slice(), wxb, px, hx);
        conclude(e, Ghost(alpha_drawn(rr.bits@, wxb as int, px as int)), hx, wxb, hot_p, sz_acc, hx, d)
    } else {
        let wab = bmask.info.width_bytes as usize;
        assert(wab * hx <= bmask.bits@.len()) by (nonlinear_arith)
            requires
                wab > 0 ==> hx <= bmask.info.height,
                bmask.bits@.len() == wab * bmask.info.height,
                hx >= 0,
        ;
        let e = walk_masked(bmask.bits.as_slice(), wab, buf, wxb, wx, hx);
        conclude(
            e,
            Ghost(masked_drawn(bmask.bits@, wab as int, cur_c.bits@, wxb as int)),
            hx,
            wx,
            hot_p,
            sz_acc,
            hx,
            d,
        )
    }
}

/// The box of a colour cursor whose bitmaps were read. When any pixel has a
/// non-zero α, the colour bitmap is read again: an error when that read
/// fails, else the pixels of the second read with a non-zero α. Without α,
/// the pixels with AND 0 or a non-zero colour.
pub open spec fn color_outcome(
    r: Result<cur_box, CursorSizeErr>,
    a: BitmapBits,
    bm: BitmapBits,
    reread: Option<BitsReread>,
    hot: Point,
    sz_acc: u32,
) -> bool {
    let wb = bm.info.width_bytes as int;
    let h = bm.info.height as int;
    if has_alpha(bm) {
        reread matches Some(rr) && if rr.copied_bytes == 0 {
            bitmap_err(r, "Colorα: ‘GetBitmapBits’ copied no bytes from the color 𝑏map"@)
        } else {
            box_outcome(r, alpha_drawn(rr.bits@, wb, (bm.info.bits_pixel / 8) as int), h, wb, hot, sz_acc, h)
        }
    } else {
        box_outcome(
            r,
            masked_drawn(a.bits@, a.info.width_bytes as int, bm.bits@, wb),
            h,
            bm.info.width as int,
            hot,
            sz_acc,
            h,
        )
    }
}

/// Gets the true bounding box of a cursor, the smallest box that holds every
/// pixel it draws, from the bitmaps of its icon information: the AND/XOR mask
/// alone for a monochrome cursor (`cur_c` is `None`), else the AND mask and
/// the colour bitmap; a colour bitmap with α is measured from a second read
/// of its pixels (`reread`). The corners are 0-based pixel coordinates within the
/// bitmap. The bitmaps keep the nominal size, scaled for the screen but not
/// for the Accessibility pointer size; for a size `sz_acc` above 1 the box and
/// the hot spot are stretched as the system stretches the pointer (each level
/// adds half the bitmap's height). The pointer's shadow is not accounted for.
pub fn measure_mcursor_bm(
    bmask: &BitmapBits,
    cur_c: Option<&BitmapBits>,
    reread: Option<&BitsReread>,
    hot_p: Point,
    sz_acc: u32,
) -> (r: Result<cur_box, CursorSizeErr>)
    requires
        bmask.wf(),
        sz_acc >= 1,
        match cur_c {
            None => bmask.object_bytes > 0 ==> mono_ready(bmask.info, sz_acc),
            Some(c) => {
                &&& c.wf()
                &&& bmask.object_bytes > 0 && c.object_bytes > 0 ==> (sz_acc - 1) * (c.info.height / 2) <= usize::MAX
                &&& bmask.object_bytes > 0 && c.object_bytes > 0 && bmask.copied_bytes != 0 && c.copied_bytes != 0
                    ==> color_ready(bmask.info, *c)
                &&& bmask.object_bytes > 0 && c.object_bytes > 0 && bmask.copied_bytes != 0 && c.copied_bytes != 0
                    && has_alpha(*c) ==> reread_ready(*c, reread)
            },
        },
    ensures
        match cur_c {
            None => mono_result(r, *bmask, hot_p, sz_acc),
            Some(c) => color_result(r, *bmask, *c, opt_reread(reread), hot_p, sz_acc),
        },
{
    match cur_c {
        None => measure_mono(bmask, hot_p, sz_acc),
        Some(c) => measure_color(bmask, c, reread, hot_p, sz_acc),
    }
}

/// The height the Accessibility stretch is computed on: half the mask's for
/// a monochrome cursor (its AND and XOR halves), the colour bitmap's otherwise.
pub open spec fn stretch_height(bmask: BitmapInfo, cur_c: Option<BitmapBits>) -> int {
    match cur_c {
        None => bmask.height / 2,
        Some(c) => c.info.height as int,
    }
}

/// A box corner coordinate measured at size 1, stretched for the
/// Accessibility size `sz_acc` on a bitmap `h` rows high.
pub open spec fn stretched_corner(v: i32, sz_acc: u32, h: int) -> i32 {
    sat_usize(stretch_nat(v as int, h, acc_delta(sz_acc as int, h))) as i32
}

/// A hot-spot coordinate stretched for the Accessibility size `sz_acc` on a
/// bitmap `h` rows high.
pub open spec fn stretched_hot(v: i32, sz_acc: u32, h: int) -> i32 {
    sat_i32(stretch(v as int, h, acc_delta(sz_acc as int, h))) as i32
}

/// `r` is `v · (h + d) / h` rounded to the nearest integer (halves up),
/// whenever that value fits an `i32`.
pub open spec fn rounds_to(v: i32, r: i32, h: int, d: int) -> bool {
    2 * v * (h + d) + h < 2 * h * (i32::MAX + 1) ==> 2 * h * r <= 2 * v * (h + d) + h < 2 * h * (r + 1)
}

proof fn lemma_corner_rounds(v: i32, sz_acc: u32, h: int)
    requires
        v >= 0,
        h > 0,
        sz_acc >= 1,
    ensures
        rounds_to(v, stretched_corner(v, sz_acc, h), h, acc_delta(sz_acc as int, h)),
{
    let d = acc_delta(sz_acc as int, h);
    let n = 2 * v * (h + d) + h;
    let q = stretch_nat(v as int, h, d);
    assert(d >= 0) by (nonlinear_arith)
        requires d == (sz_acc - 1) * (h / 2), sz_acc >= 1, h > 0;
    assert(n >= h) by (nonlinear_arith)
        requires n == 2 * v * (h + d) + h, v >= 0, d >= 0, h > 0;
    crate::scale::lemma_stretch_nat_nearest(v as int, h, d, q);
    if n < 2 * h * (i32::MAX + 1) {
        assert(q <= i32::MAX && q >= 0) by (nonlinear_arith)
            requires 2 * h * q <= n, n < 2 * h * (q + 1), n < 2 * h * (i32::MAX + 1), n >= h, h > 0;
    }
}

/// The outcome of a walk at Accessibility size `sz_acc` is the outcome at
/// size 1 with every coordinate of the box stretched: the left, right, top
/// and bottom sides alike, and the hot spot.
pub proof fn lemma_box_outcome_stretches(
    drawn: spec_fn(int, int) -> bool,
    rows: int,
    cols: int,
    hot: Point,
    sz_acc: u32,
    h: int,
    r1: Result<cur_box, CursorSizeErr>,
    rs: Result<cur_box, CursorSizeErr>,
)
    requires
        sz_acc > 1,
        rows <= h,
        rows <= i32::MAX,
        cols <= i32::MAX,
        box_outcome(r1, drawn, rows, cols, hot, 1, h),
        box_outcome(rs, drawn, rows, cols, hot, sz_acc, h),
    ensures
        r1 is Ok <==> rs is Ok,
        r1 matches Ok(b1) ==> rs matches Ok(bs) && {
            &&& bs.ptl.x == stretched_corner(b1.ptl.x, sz_acc, h)
            &&& bs.ptl.y == stretched_corner(b1.ptl.y, sz_acc, h)
            &&& bs.pbr.x == stretched_corner(b1.pbr.x, sz_acc, h)
            &&& bs.pbr.y == stretched_corner(b1.pbr.y, sz_acc, h)
            &&& bs.hs.x == stretched_hot(hot.x, sz_acc, h)
            &&& bs.hs.y == stretched_hot(hot.y, sz_acc, h)
            &&& b1.hs == hot
            &&& 0 <= b1.ptl.x && 0 <= b1.ptl.y && 0 <= b1.pbr.x && 0 <= b1.pbr.y
        },
{
    if any_drawn(drawn, rows, cols) {
        let e1 = choose|e: Extent|
            covers(drawn, same_row(), rows, 0, cols, empty_extent(), e) && r1->Ok_0 == finish_box(e, hot, 1, h);
        let es = choose|e: Extent|
            covers(drawn, same_row(), rows, 0, cols, empty_extent(), e) && rs->Ok_0 == finish_box(e, hot, sz_acc, h);
        lemma_covers_unique(drawn, same_row(), rows, 0, cols, empty_extent(), e1, es);
        lemma_empty_start_proper(drawn, same_row(), rows, cols, e1);
        lemma_covers_sides(drawn, same_row(), rows, cols, empty_extent(), e1);
        assert(e1.left < cols);
        assert(e1.right < cols);
        if e1.top != usize::MAX {
            let r = choose|r: int| 0 <= r < rows && #[trigger] same_row()(r) == e1.top;
        }
        if e1.bottom != 0 {
            let r = choose|r: int| 0 <= r < rows && #[trigger] same_row()(r) == e1.bottom;
        }
        assert(e1.top < rows && e1.bottom < rows);
        lemma_finish_box_unstretched(e1, hot, h);
    }
}

/// Measuring a cursor at an Accessibility size above 1 succeeds exactly
/// when measuring it at size 1 does, and gives the box measured at size 1
/// with each of its four sides and its hot spot stretched by `(h + Δ) / h`,
/// rounded to the nearest integer (see `lemma_stretch_nat_nearest`).
pub proof fn lemma_measure_stretches(
    bmask: BitmapBits,
    cur_c: Option<BitmapBits>,
    reread: Option<BitsReread>,
    hot: Point,
    sz_acc: u32,
    r1: Result<cur_box, CursorSizeErr>,
    rs: Result<cur_box, CursorSizeErr>,
)
    requires
        sz_acc > 1,
        match cur_c {
            None => mono_result(r1, bmask, hot, 1) && mono_result(rs, bmask, hot, sz_acc),
            Some(c) => color_result(r1, bmask, c, reread, hot, 1) && color_result(rs, bmask, c, reread, hot, sz_acc),
        },
    ensures
        r1 is Ok <==> rs is Ok,
        r1 matches Ok(b1) ==> rs matches Ok(bs) && {
            let h = stretch_height(bmask.info, cur_c);
            &&& bs.ptl.x == stretched_corner(b1.ptl.x, sz_acc, h)
            &&& bs.ptl.y == stretched_corner(b1.ptl.y, sz_acc, h)
            &&& bs.pbr.x == stretched_corner(b1.pbr.x, sz_acc, h)
            &&& bs.pbr.y == stretched_corner(b1.pbr.y, sz_acc, h)
            &&& bs.hs.x == stretched_hot(hot.x, sz_acc, h)
            &&& bs.hs.y == stretched_hot(hot.y, sz_acc, h)
            &&& b1.hs == hot
            &&& rounds_to(b1.ptl.x, bs.ptl.x, h, acc_delta(sz_acc as int, h))
            &&& rounds_to(b1.ptl.y, bs.ptl.y, h, acc_delta(sz_acc as int, h))
            &&& rounds_to(b1.pbr.x, bs.pbr.x, h, acc_delta(sz_acc as int, h))
            &&& rounds_to(b1.pbr.y, bs.pbr.y, h, acc_delta(sz_acc as int, h))
        },
{
    match cur_c {
        None => {
            let hh = bmask.info.height / 2;
            if bmask.object_bytes > 0 && bmask.copied_bytes != 0 {
                lemma_box_outcome_stretches(
                    mono_drawn(bmask.bits@, bmask.info.width_bytes as int, hh),
                    hh,
                    bmask.info.width as int,
                    hot,
                    sz_acc,
                    hh,
                    r1,
                    rs,
                );
            }
        },
        Some(c) => {
            let wb = c.info.width_bytes as int;
            let h = c.info.height as int;
            if bmask.object_bytes > 0 && c.object_bytes > 0 && bmask.copied_bytes != 0 && c.copied_bytes != 0 {
                if has_alpha(c) {
                    let rr = reread->0;
                    if rr.copied_bytes != 0 {
                        lemma_box_outcome_stretches(
                            alpha_drawn(rr.bits@, wb, (c.info.bits_pixel / 8) as int),
                            h,
                            wb,
                            hot,
                            sz_acc,
                            h,
                            r1,
                            rs,
                        );
                    }
                } else {
                    lemma_box_outcome_stretches(
                        masked_drawn(bmask.bits@, bmask.info.width_bytes as int, c.bits@, wb),
                        h,
                        c.info.width as int,
                        hot,
                        sz_acc,
                        h,
                        r1,
                        rs,
                    );
                }
            }
        },
    }
    if r1 is Ok {
        let h = stretch_height(bmask.info, cur_c);
        let b1 = r1->Ok_0;
        lemma_corner_rounds(b1.ptl.x, sz_acc, h);
        lemma_corner_rounds(b1.ptl.y, sz_acc, h);
        lemma_corner_rounds(b1.pbr.x, sz_acc, h);
        lemma_corner_rounds(b1.pbr.y, sz_acc, h);
    }
}

/// At Accessibility size 1, the box of a walk holds every drawn pixel.
proof fn lemma_box_outcome_holds(
    drawn: spec_fn(int, int) -> bool,
    rows: int,
    cols: int,
    hot: Point,
    h: int,
    r: Result<cur_box, CursorSizeErr>,
    row: int,
    c: int,
)
    requires
        rows <= i32::MAX,
        cols <= i32::MAX,
        box_outcome(r, drawn, rows, cols, hot, 1, h),
        0 <= row < rows,
        0 <= c < cols,
        drawn(row, c),
    ensures
        r matches Ok(b) && b.ptl.x <= c <= b.pbr.x && b.ptl.y <= row <= b.pbr.y,
{
    assert(any_drawn(drawn, rows, cols));
    let e = choose|e: Extent|
        covers(drawn, same_row(), rows, 0, cols, empty_extent(), e) && r->Ok_0 == finish_box(e, hot, 1, h);
    assert(in_prefix(row, c, rows, 0, cols));
    lemma_covers_sides(drawn, same_row(), rows, cols, empty_extent(), e);
    if e.bottom != 0 {
        let rr = choose|rr: int| 0 <= rr < rows && #[trigger] same_row()(rr) == e.bottom;
    }
    assert(e.right < cols || e.right == 0);
    lemma_finish_box_unstretched(e, hot, h);
}

/// At Accessibility size 1, each side of the box of a walk rests on a drawn pixel.
proof fn lemma_box_outcome_tight(
    drawn: spec_fn(int, int) -> bool,
    rows: int,
    cols: int,
    hot: Point,
    h: int,
    r: Result<cur_box, CursorSizeErr>,
)
    requires
        rows <= i32::MAX,
        cols <= i32::MAX,
        box_outcome(r, drawn, rows, cols, hot, 1, h),
        r is Ok,
    ensures
        exists|row: int, c: int|
            #![trigger drawn(row, c)]
            0 <= row < rows && 0 <= c < cols && drawn(row, c) && c == r->Ok_0.ptl.x,
        exists|row: int, c: int|
            #![trigger drawn(row, c)]
            0 <= row < rows && 0 <= c < cols && drawn(row, c) && c == r->Ok_0.pbr.x,
        exists|row: int, c: int|
            #![trigger drawn(row, c)]
            0 <= row < rows && 0 <= c < cols && drawn(row, c) && row == r->Ok_0.ptl.y,
        exists|row: int, c: int|
            #![trigger drawn(row, c)]
            0 <= row < rows && 0 <= c < cols && drawn(row, c) && row == r->Ok_0.pbr.y,
{
    let e = choose|e: Extent|
        covers(drawn, same_row(), rows, 0, cols, empty_extent(), e) && r->Ok_0 == finish_box(e, hot, 1, h);
    let (r0, c0) = choose|r0: int, c0: int| #![trigger drawn(r0, c0)] 0 <= r0 < rows && 0 <= c0 < cols && drawn(r0, c0);
    assert(in_prefix(r0, c0, rows, 0, cols));
    assert(e.left != usize::MAX && e.top != usize::MAX);
    assert(e.right < cols && e.bottom < rows) by {
        if e.right != 0 {
            let (rr, cc) = choose|rr: int, cc: int|
                #![trigger drawn(rr, cc)]
                in_prefix(rr, cc, rows, 0, cols) && drawn(rr, cc) && cc == e.right;
        }
        if e.bottom != 0 {
            let (rr, cc) = choose|rr: int, cc: int|
                #![trigger drawn(rr, cc)]
                in_prefix(rr, cc, rows, 0, cols) && drawn(rr, cc) && same_row()(rr) == e.bottom;
        }
    }
    lemma_finish_box_unstretched(e, hot, h);
    let (a, b) = choose|rr: int, cc: int| #![trigger drawn(rr, cc)] in_prefix(rr, cc, rows, 0, cols) && drawn(rr, cc) && cc == e.left;
    assert(drawn(a, b));
    if e.right == 0 {
        assert(drawn(r0, c0));
    } else {
        let (a, b) = choose|rr: int, cc: int| #![trigger drawn(rr, cc)] in_prefix(rr, cc, rows, 0, cols) && drawn(rr, cc) && cc == e.right;
        assert(drawn(a, b));
    }
    let (a, b) = choose|rr: int, cc: int| #![trigger drawn(rr, cc)] in_prefix(rr, cc, rows, 0, cols) && drawn(rr, cc) && same_row()(rr) == e.top;
    assert(drawn(a, b));
    if e.bottom == 0 {
        assert(drawn(r0, c0));
    } else {
        let (a, b) = choose|rr: int, cc: int| #![trigger drawn(rr, cc)] in_prefix(rr, cc, rows, 0, cols) && drawn(rr, cc) && same_row()(rr) == e.bottom;
        assert(drawn(a, b));
    }
}

/// Pixel `c` of row `row` of a monochrome cursor changes the screen: its AND
/// bit is 0 (black or white) or its XOR bit is 1 (inverted screen).
pub open spec fn mono_pixel_changes(bmask: BitmapBits, row: int, c: int) -> bool {
    let wb = bmask.info.width_bytes as int;
    let hh = bmask.info.height / 2;
    &&& 0 <= row < hh
    &&& 0 <= c < bmask.info.width
    &&& !msb0_bit(bmask.bits@.subrange(wb * row, wb * row + wb), c)
        || msb0_bit(bmask.bits@.subrange(wb * (row + hh), wb * (row + hh) + wb), c)
}

/// At Accessibility size 1 the box of a monochrome cursor is the tightest box
/// around the pixels that change the screen: each side touches one.
pub proof fn lemma_mono_box_tight(bmask: BitmapBits, hot: Point, r: Result<cur_box, CursorSizeErr>)
    requires
        mono_result(r, bmask, hot, 1),
        r is Ok,
    ensures
        exists|row: int, c: int| #[trigger] mono_pixel_changes(bmask, row, c) && c == r->Ok_0.ptl.x,
        exists|row: int, c: int| #[trigger] mono_pixel_changes(bmask, row, c) && c == r->Ok_0.pbr.x,
        exists|row: int, c: int| #[trigger] mono_pixel_changes(bmask, row, c) && row == r->Ok_0.ptl.y,
        exists|row: int, c: int| #[trigger] mono_pixel_changes(bmask, row, c) && row == r->Ok_0.pbr.y,
{
    let hh = bmask.info.height / 2;
    let d = mono_drawn(bmask.bits@, bmask.info.width_bytes as int, hh);
    lemma_box_outcome_tight(d, hh, bmask.info.width as int, hot, hh, r);
    let (a, b) = choose|row: int, c: int| #![trigger d(row, c)] 0 <= row < hh && 0 <= c < bmask.info.width && d(row, c) && c == r->Ok_0.ptl.x;
    assert(mono_pixel_changes(bmask, a, b));
    let (a, b) = choose|row: int, c: int| #![trigger d(row, c)] 0 <= row < hh && 0 <= c < bmask.info.width && d(row, c) && c == r->Ok_0.pbr.x;
    assert(mono_pixel_changes(bmask, a, b));
    let (a, b) = choose|row: int, c: int| #![trigger d(row, c)] 0 <= row < hh && 0 <= c < bmask.info.width && d(row, c) && row == r->Ok_0.ptl.y;
    assert(mono_pixel_changes(bmask, a, b));
    let (a, b) = choose|row: int, c: int| #![trigger d(row, c)] 0 <= row < hh && 0 <= c < bmask.info.width && d(row, c) && row == r->Ok_0.pbr.y;
    assert(mono_pixel_changes(bmask, a, b));
}

/// At Accessibility size 1 the box of a monochrome cursor holds every pixel
/// it draws: one whose AND bit is 0 (black or white) or whose XOR bit is 1
/// (inverted screen).
pub proof fn lemma_mono_box_holds(bmask: BitmapBits, hot: Point, r: Result<cur_box, CursorSizeErr>, row: int, c: int)
    requires
        mono_result(r, bmask, hot, 1),
        bmask.object_bytes > 0,
        bmask.copied_bytes != 0,
        ({
            let wb = bmask.info.width_bytes as int;
            let hh = bmask.info.height / 2;
            &&& 0 <= row < hh
            &&& 0 <= c < bmask.info.width
            &&& !msb0_bit(bmask.bits@.subrange(wb * row, wb * row + wb), c)
                || msb0_bit(bmask.bits@.subrange(wb * (row + hh), wb * (row + hh) + wb), c)
        }),
    ensures
        r matches Ok(b) && b.ptl.x <= c <= b.pbr.x && b.ptl.y <= row <= b.pbr.y,
{
    let hh = bmask.info.height / 2;
    lemma_box_outcome_holds(
        mono_drawn(bmask.bits@, bmask.info.width_bytes as int, hh),
        hh,
        bmask.info.width as int,
        hot,
        hh,
        r,
        row,
        c,
    );
}

/// At Accessibility size 1 the box of a colour cursor without α holds every
/// pixel whose AND bit is 0 (its colour, black included, replaces the
/// screen) or whose four colour bytes are not all zero.
pub proof fn lemma_masked_box_holds(
    bmask: BitmapBits,
    cur_c: BitmapBits,
    hot: Point,
    r: Result<cur_box, CursorSizeErr>,
    row: int,
    c: int,
)
    requires
        color_result(r, bmask, cur_c, None, hot, 1),
        bmask.object_bytes > 0 && cur_c.object_bytes > 0 && bmask.copied_bytes != 0 && cur_c.copied_bytes != 0,
        !has_alpha(cur_c),
        ({
            let wab = bmask.info.width_bytes as int;
            let wb = cur_c.info.width_bytes as int;
            let o = wb * row + 4 * c;
            &&& 0 <= row < cur_c.info.height
            &&& 0 <= c < cur_c.info.width
            &&& !msb0_bit(bmask.bits@.subrange(wab * row, wab * row + wab), c) || cur_c.bits@[o] != 0
                || cur_c.bits@[o + 1] != 0 || cur_c.bits@[o + 2] != 0 || cur_c.bits@[o + 3] != 0
        }),
    ensures
        r matches Ok(b) && b.ptl.x <= c <= b.pbr.x && b.ptl.y <= row <= b.pbr.y,
{
    let h = cur_c.info.height as int;
    lemma_box_outcome_holds(
        masked_drawn(bmask.bits@, bmask.info.width_bytes as int, cur_c.bits@, cur_c.info.width_bytes as int),
        h,
        cur_c.info.width as int,
        hot,
        h,
        r,
        row,
        c,
    );
}

/// At Accessibility size 1 the box of a colour cursor with α holds every
/// pixel of the second read whose α byte is not zero.
pub proof fn lemma_alpha_box_holds(
    bmask: BitmapBits,
    cur_c: BitmapBits,
    rr: BitsReread,
    hot: Point,
    r: Result<cur_box, CursorSizeErr>,
    row: int,
    c: int,
)
    requires
        color_result(r, bmask, cur_c, Some(rr), hot, 1),
        bmask.object_bytes > 0 && cur_c.object_bytes > 0 && bmask.copied_bytes != 0 && cur_c.copied_bytes != 0,
        has_alpha(cur_c),
        alpha_scan_ready(cur_c.info),
        rr.copied_bytes != 0,
        ({
            let wb = cur_c.info.width_bytes as int;
            let px = (cur_c.info.bits_pixel / 8) as int;
            &&& 0 <= row < cur_c.info.height
            &&& 0 <= c
            &&& px * c < wb
            &&& rr.bits@[wb * row + px * c + 3] != 0
        }),
    ensures
        r matches Ok(b) && b.ptl.x <= c <= b.pbr.x && b.ptl.y <= row <= b.pbr.y,
{
    let h = cur_c.info.height as int;
    let wb = cur_c.info.width_bytes as int;
    let px = (cur_c.info.bits_pixel / 8) as int;
    assert(c <= px * c) by (nonlinear_arith)
        requires px >= 1, c >= 0;
    lemma_box_outcome_holds(alpha_drawn(rr.bits@, wb, px), h, wb, hot, h, r, row, c);
}

/// Pixel `c` of row `row` of a colour cursor without α changes the screen:
/// its AND bit is 0 (its colour, black included, replaces the screen) or its
/// four colour bytes are not all zero.
pub open spec fn masked_pixel_changes(bmask: BitmapBits, cur_c: BitmapBits, row: int, c: int) -> bool {
    let wab = bmask.info.width_bytes as int;
    let o = cur_c.info.width_bytes * row + 4 * c;
    &&& 0 <= row < cur_c.info.height
    &&& 0 <= c < cur_c.info.width
    &&& !msb0_bit(bmask.bits@.subrange(wab * row, wab * row + wab), c) || cur_c.bits@[o] != 0
        || cur_c.bits@[o + 1] != 0 || cur_c.bits@[o + 2] != 0 || cur_c.bits@[o + 3] != 0
}

/// At Accessibility size 1 the box of a colour cursor without α is the
/// tightest box around the pixels that change the screen: each side touches one.
pub proof fn lemma_masked_box_tight(bmask: BitmapBits, cur_c: BitmapBits, hot: Point, r: Result<cur_box, CursorSizeErr>)
    requires
        color_result(r, bmask, cur_c, None, hot, 1),
        !has_alpha(cur_c),
        r is Ok,
    ensures
        exists|row: int, c: int| #[trigger] masked_pixel_changes(bmask, cur_c, row, c) && c == r->Ok_0.ptl.x,
        exists|row: int, c: int| #[trigger] masked_pixel_changes(bmask, cur_c, row, c) && c == r->Ok_0.pbr.x,
        exists|row: int, c: int| #[trigger] masked_pixel_changes(bmask, cur_c, row, c) && row == r->Ok_0.ptl.y,
        exists|row: int, c: int| #[trigger] masked_pixel_changes(bmask, cur_c, row, c) && row == r->Ok_0.pbr.y,
{
    let h = cur_c.info.height as int;
    let w = cur_c.info.width as int;
    let d = masked_drawn(bmask.bits@, bmask.info.width_bytes as int, cur_c.bits@, cur_c.info.width_bytes as int);
    lemma_box_outcome_tight(d, h, w, hot, h, r);
    let (a, b) = choose|row: int, c: int| #![trigger d(row, c)] 0 <= row < h && 0 <= c < w && d(row, c) && c == r->Ok_0.ptl.x;
    assert(masked_pixel_changes(bmask, cur_c, a, b));
    let (a, b) = choose|row: int, c: int| #![trigger d(row, c)] 0 <= row < h && 0 <= c < w && d(row, c) && c == r->Ok_0.pbr.x;
    assert(masked_pixel_changes(bmask, cur_c, a, b));
    let (a, b) = choose|row: int, c: int| #![trigger d(row, c)] 0 <= row < h && 0 <= c < w && d(row, c) && row == r->Ok_0.ptl.y;
    assert(masked_pixel_changes(bmask, cur_c, a, b));
    let (a, b) = choose|row: int, c: int| #![trigger d(row, c)] 0 <= row < h && 0 <= c < w && d(row, c) && row == r->Ok_0.pbr.y;
    assert(masked_pixel_changes(bmask, cur_c, a, b));
}

/// Pixel `c` of row `row` of the second read of a colour cursor with α shows:
/// it lies within the scan line and its α byte is not zero.
pub open spec fn alpha_pixel_shows(cur_c: BitmapBits, rr: BitsReread, row: int, c: int) -> bool {
    let wb = cur_c.info.width_bytes as int;
    let px = (cur_c.info.bits_pixel / 8) as int;
    &&& 0 <= row < cur_c.info.height
    &&& 0 <= c
    &&& px * c < wb
    &&& rr.bits@[wb * row + px * c + 3] != 0
}

/// At Accessibility size 1 the box of a colour cursor with α is the tightest
/// box around the pixels with a non-zero α: each side touches one.
pub proof fn lemma_alpha_box_tight(
    bmask: BitmapBits,
    cur_c: BitmapBits,
    rr: BitsReread,
    hot: Point,
    r: Result<cur_box, CursorSizeErr>,
)
    requires
        color_result(r, bmask, cur_c, Some(rr), hot, 1),
        has_alpha(cur_c),
        r is Ok,
    ensures
        exists|row: int, c: int| #[trigger] alpha_pixel_shows(cur_c, rr, row, c) && c == r->Ok_0.ptl.x,
        exists|row: int, c: int| #[trigger] alpha_pixel_shows(cur_c, rr, row, c) && c == r->Ok_0.pbr.x,
        exists|row: int, c: int| #[trigger] alpha_pixel_shows(cur_c, rr, row, c) && row == r->Ok_0.ptl.y,
        exists|row: int, c: int| #[trigger] alpha_pixel_shows(cur_c, rr, row, c) && row == r->Ok_0.pbr.y,
{
    let h = cur_c.info.height as int;
    let wb = cur_c.info.width_bytes as int;
    let d = alpha_drawn(rr.bits@, wb, (cur_c.info.bits_pixel / 8) as int);
    lemma_box_outcome_tight(d, h, wb, hot, h, r);
    let (a, b) = choose|row: int, c: int| #![trigger d(row, c)] 0 <= row < h && 0 <= c < wb && d(row, c) && c == r->Ok_0.ptl.x;
    assert(alpha_pixel_shows(cur_c, rr, a, b));
    let (a, b) = choose|row: int, c: int| #![trigger d(row, c)] 0 <= row < h && 0 <= c < wb && d(row, c) && c == r->Ok_0.pbr.x;
    assert(alpha_pixel_shows(cur_c, rr, a, b));
    let (a, b) = choose|row: int, c: int| #![trigger d(row, c)] 0 <= row < h && 0 <= c < wb && d(row, c) && row == r->Ok_0.ptl.y;
    assert(alpha_pixel_shows(cur_c, rr, a, b));
    let (a, b) = choose|row: int, c: int| #![trigger d(row, c)] 0 <= row < h && 0 <= c < wb && d(row, c) && row == r->Ok_0.pbr.y;
    assert(alpha_pixel_shows(cur_c, rr, a, b));
}

/// Stretching for the Accessibility size keeps a proper box proper and never
/// shrinks it: the corners move away from the origin and stay in order.
pub proof fn lemma_finish_box_ordered(e: Extent, hot: Point, sz_acc: u32, h: int)
    requires
        e.left <= e.right <= i32::MAX,
        e.top <= e.bottom <= i32::MAX,
        h > 0,
        sz_acc >= 1,
        sz_acc > 1 ==> sat_usize(stretch_nat(e.right as int, h, acc_delta(sz_acc as int, h))) <= i32::MAX
            && sat_usize(stretch_nat(e.bottom as int, h, acc_delta(sz_acc as int, h))) <= i32::MAX,
    ensures
        e.left <= finish_box(e, hot, sz_acc, h).ptl.x <= finish_box(e, hot, sz_acc, h).pbr.x,
        e.top <= finish_box(e, hot, sz_acc, h).ptl.y <= finish_box(e, hot, sz_acc, h).pbr.y,
        e.right <= finish_box(e, hot, sz_acc, h).pbr.x,
        e.bottom <= finish_box(e, hot, sz_acc, h).pbr.y,
{
    if sz_acc > 1 {
        let d = acc_delta(sz_acc as int, h);
        assert(d >= 0) by (nonlinear_arith)
            requires d == (sz_acc - 1) * (h / 2), sz_acc >= 1, h > 0;
        crate::scale::lemma_stretch_monotone(e.left as int, e.right as int, h, d);
        crate::scale::lemma_stretch_monotone(e.top as int, e.bottom as int, h, d);
        crate::scale::lemma_stretch_monotone(e.right as int, e.right as int, h, d);
        crate::scale::lemma_stretch_monotone(e.bottom as int, e.bottom as int, h, d);
    }
}

/// At Accessibility size 1 the box is the extent itself and the hot spot is kept.
pub proof fn lemma_finish_box_unstretched(e: Extent, hot: Point, h: int)
    requires
        e.left <= i32::MAX,
        e.right <= i32::MAX,
        e.top <= i32::MAX,
        e.bottom <= i32::MAX,
    ensures
        finish_box(e, hot, 1, h) == (cur_box {
            ptl: Point { x: e.left as i32, y: e.top as i32 },
            pbr: Point { x: e.right as i32, y: e.bottom as i32 },
            hs: hot,
        }),
{
}

/// Walks the `hh` rows and `w` columns of a monochrome AND/XOR mask.
fn walk_mono(buf: &[u8], wb: usize, w: usize, hh: usize) -> (e: Extent)
    requires
        wb * (2 * hh) <= buf.len(),
        hh <= i32::MAX,
        hh > 0 && w > 0 ==> w <= 8 * wb && wb < BITSLICE_MAX_BYTES,
    ensures
        covers(mono_drawn(buf@, wb as int, hh as int), same_row(), hh as int, 0, w as int, empty_extent(), e),
{
    let ghost d = mono_drawn(buf@, wb as int, hh as int);
    let mut e = Extent { left: usize::MAX, right: 0, top: usize::MAX, bottom: 0 };
    proof { lemma_covers_start(d, same_row(), w as int, empty_extent()); }
    let mut r: usize = 0;
    while r < hh
        invariant
            d == mono_drawn(buf@, wb as int, hh as int),
            wb * (2 * hh) <= buf.len(),
            hh <= i32::MAX,
            hh > 0 && w > 0 ==> w <= 8 * wb && wb < BITSLICE_MAX_BYTES,
            r <= hh,
            covers(d, same_row(), r as int, 0, w as int, empty_extent(), e),
        decreases hh - r,
    {
        assert(wb * (r + hh) + wb <= wb * (2 * hh)) by (nonlinear_arith)
            requires r < hh;
        assert(wb * r + wb <= wb * (r + hh)) by (nonlinear_arith)
            requires r < hh;
        assert(wb * r <= wb * (r + hh)) by (nonlinear_arith)
            requires r < hh;
        let beg_a = wb * r;
        let beg_x = wb * (r + hh);
        let mut c: usize = 0;
        while c < w
            invariant
                d == mono_drawn(buf@, wb as int, hh as int),
                hh > 0 && w > 0 ==> w <= 8 * wb && wb < BITSLICE_MAX_BYTES,
                r < hh,
                beg_a == wb * r,
                beg_x == wb * (r + hh),
                beg_x + wb <= buf.len(),
                beg_a + wb <= beg_x,
                c <= w,
                covers(d, same_row(), r as int, c as int, w as int, empty_extent(), e),
            decreases w - c,
        {
            let a = msb0_bit_at(buf, beg_a, beg_a + wb, c);
            let x = msb0_bit_at(buf, beg_x, beg_x + wb, c);
            let ghost e0 = e;
            if !a || x {
                e.widen(c, r);
            }
            proof {
                assert(scan_line(buf@, wb as int, r as int) == buf@.subrange(beg_a as int, beg_a + wb));
                assert(scan_line(buf@, wb as int, r + hh) == buf@.subrange(beg_x as int, beg_x + wb));
                assert(d(r as int, c as int) == (!a || x));
                lemma_covers_step(d, same_row(), r as int, c as int, w as int, empty_extent(), e0, e);
            }
            c = c + 1;
        }
        proof { lemma_covers_next_row(d, same_row(), r as int, w as int, empty_extent(), e); }
        r = r + 1;
    }
    e
}

/// Walks the `h` rows and `w` pixels of a colour bitmap without α together
/// with its AND mask.
fn walk_masked(abuf: &[u8], wab: usize, buf: &[u8], wb: usize, w: usize, h: usize) -> (e: Extent)
    requires
        wb * h <= buf.len(),
        wab * h <= abuf.len(),
        h > 0 ==> wab < BITSLICE_MAX_BYTES,
        h > 0 && w > 0 ==> 4 * w <= wb && w <= 8 * wab,
    ensures
        covers(masked_drawn(abuf@, wab as int, buf@, wb as int), same_row(), h as int, 0, w as int, empty_extent(), e),
{
    let ghost d = masked_drawn(abuf@, wab as int, buf@, wb as int);
    let mut e = Extent { left: usize::MAX, right: 0, top: usize::MAX, bottom: 0 };
    proof { lemma_covers_start(d, same_row(), w as int, empty_extent()); }
    let mut r: usize = 0;
    while r < h
        invariant
            d == masked_drawn(abuf@, wab as int, buf@, wb as int),
            wb * h <= buf.len(),
            wab * h <= abuf.len(),
            h > 0 ==> wab < BITSLICE_MAX_BYTES,
            h > 0 && w > 0 ==> 4 * w <= wb && w <= 8 * wab,
            r <= h,
            covers(d, same_row(), r as int, 0, w as int, empty_extent(), e),
        decreases h - r,
    {
        assert(wb * r + wb <= wb * h) by (nonlinear_arith)
            requires r < h;
        assert(wab * r + wab <= wab * h) by (nonlinear_arith)
            requires r < h;
        let beg = wb * r;
        let beg_a = wab * r;
        let mut c: usize = 0;
        while c < w
            invariant
                d == masked_drawn(abuf@, wab as int, buf@, wb as int),
                r < h,
                4 * w <= wb,
                w <= 8 * wab,
                wab < BITSLICE_MAX_BYTES,
                beg == wb * r,
                beg + wb <= buf.len(),
                beg_a == wab * r,
                beg_a + wab <= abuf.len(),
                c <= w,
                covers(d, same_row(), r as int, c as int, w as int, empty_extent(), e),
            decreases w - c,
        {
            let a = msb0_bit_at(abuf, beg_a, beg_a + wab, c);
            let o = beg + 4 * c;
            let zero = buf[o] == 0 && buf[o + 1] == 0 && buf[o + 2] == 0 && buf[o + 3] == 0;
            let ghost e0 = e;
            if !a || !zero {
                e.widen(c, r);
            }
            proof {
                assert(scan_line(abuf@, wab as int, r as int) == abuf@.subrange(beg_a as int, beg_a + wab));
                assert(d(r as int, c as int) == (!a || !zero));
                lemma_covers_step(d, same_row(), r as int, c as int, w as int, empty_extent(), e0, e);
            }
            c = c + 1;
        }
        proof { lemma_covers_next_row(d, same_row(), r as int, w as int, empty_extent(), e); }
        r = r + 1;
    }
    e
}

proof fn lemma_alpha_tail(wb: int, px: int, off: int, c: int)
    requires
        alpha_layout_ok(wb, px),
        off == px * c,
        0 <= off < wb,
        c >= 0,
    ensures
        off + 4 <= wb,
{
    if wb - off < px {
        assert(c * px == px * c) by (nonlinear_arith);
        vstd::arithmetic::div_mod::lemma_fundamental_div_mod_converse(wb, px, c, wb - off);
    }
}

/// Walks the `h` rows of a colour bitmap with α, pixel by pixel.
fn walk_alpha(buf: &[u8], wb: usize, px: usize, h: usize) -> (e: Extent)
    requires
        wb * h <= buf.len(),
        wb <= i32::MAX,
        px <= u16::MAX,
        h > 0 ==> alpha_layout_ok(wb as int, px as int),
    ensures
        covers(alpha_drawn(buf@, wb as int, px as int), same_row(), h as int, 0, wb as int, empty_extent(), e),
{
    let ghost d = alpha_drawn(buf@, wb as int, px as int);
    let mut e = Extent { left: usize::MAX, right: 0, top: usize::MAX, bottom: 0 };
    proof { lemma_covers_start(d, same_row(), wb as int, empty_extent()); }
    let mut r: usize = 0;
    while r < h
        invariant
            d == alpha_drawn(buf@, wb as int, px as int),
            wb * h <= buf.len(),
            wb <= i32::MAX,
            px <= u16::MAX,
            h > 0 ==> alpha_layout_ok(wb as int, px as int),
            r <= h,
            covers(d, same_row(), r as int, 0, wb as int, empty_extent(), e),
        decreases h - r,
    {
        assert(wb * r + wb <= wb * h) by (nonlinear_arith)
            requires r < h;
        let beg = wb * r;
        let mut c: usize = 0;
        let mut off: usize = 0;
        while off < wb
            invariant
                d == alpha_drawn(buf@, wb as int, px as int),
                r < h,
                alpha_layout_ok(wb as int, px as int),
                wb <= i32::MAX,
                px <= u16::MAX,
                beg == wb * r,
                beg + wb <= buf.len(),
                off == px * c,
                c <= off,
                off <= wb + px,
                covers(d, same_row(), r as int, c as int, wb as int, empty_extent(), e),
            decreases wb + px - off,
        {
            proof { lemma_alpha_tail(wb as int, px as int, off as int, c as int); }
            let drawn = buf[beg + off + 3] != 0;
            let ghost e0 = e;
            if drawn {
                e.widen(c, r);
            }
            proof {
                assert(c < wb);
                assert(d(r as int, c as int) == drawn);
                lemma_covers_step(d, same_row(), r as int, c as int, wb as int, empty_extent(), e0, e);
                assert(px * (c + 1) == px * c + px) by (nonlinear_arith);
                assert(c + 1 <= px * (c + 1)) by (nonlinear_arith)
                    requires px >= 4, c >= 0;
            }
            off = off + px;
            c = c + 1;
        }
        proof {
            assert forall|rr: int, cc: int|
                #![trigger d(rr, cc)]
                in_prefix(rr, cc, r as int, wb as int, wb as int) && !in_prefix(rr, cc, r as int, c as int, wb as int)
                implies !d(rr, cc) by {
                assert(px * cc >= px * c) by (nonlinear_arith)
                    requires cc >= c, px >= 0;
            }
            lemma_covers_skip(d, same_row(), r as int, c as int, r as int, wb as int, wb as int, empty_extent(), e);
            lemma_covers_next_row(d, same_row(), r as int, wb as int, empty_extent(), e);
        }
        r = r + 1;
    }
    e
}

/// Whether any pixel of the first `h` rows of a colour bitmap has a non-zero α.
fn scan_alpha(buf: &[u8], wb: usize, px: usize, h: usize) -> (found: bool)
    requires
        wb * h <= buf.len(),
        wb <= i32::MAX,
        px <= u16::MAX,
        h > 0 ==> alpha_layout_ok(wb as int, px as int),
    ensures
        found == any_drawn(alpha_drawn(buf@, wb as int, px as int), h as int, wb as int),
{
    let ghost d = alpha_drawn(buf@, wb as int, px as int);
    let mut r: usize = 0;
    while r < h
        invariant
            d == alpha_drawn(buf@, wb as int, px as int),
            wb * h <= buf.len(),
            wb <= i32::MAX,
            px <= u16::MAX,
            h > 0 ==> alpha_layout_ok(wb as int, px as int),
            r <= h,
            forall|rr: int, cc: int| #![trigger d(rr, cc)] 0 <= rr < r && 0 <= cc < wb ==> !d(rr, cc),
        decreases h - r,
    {
        assert(wb * r + wb <= wb * h) by (nonlinear_arith)
            requires r < h;
        let beg = wb * r;
        let mut c: usize = 0;
        let mut off: usize = 0;
        while off < wb
            invariant
                d == alpha_drawn(buf@, wb as int, px as int),
                r < h,
                alpha_layout_ok(wb as int, px as int),
                wb <= i32::MAX,
                px <= u16::MAX,
                beg == wb * r,
                beg + wb <= buf.len(),
                off == px * c,
                c <= off,
                off <= wb + px,
                forall|rr: int, cc: int| #![trigger d(rr, cc)] 0 <= rr < r && 0 <= cc < wb ==> !d(rr, cc),
                forall|cc: int| #![trigger d(r as int, cc)] 0 <= cc < c ==> !d(r as int, cc),
            decreases wb + px - off,
        {
            proof { lemma_alpha_tail(wb as int, px as int, off as int, c as int); }
            if buf[beg + off + 3] != 0 {
                assert(d(r as int, c as int));
                return true;
            }
            proof {
                assert(px * (c + 1) == px * c + px) by (nonlinear_arith);
                assert(c + 1 <= px * (c + 1)) by (nonlinear_arith)
                    requires px >= 4, c >= 0;
            }
            off = off + px;
            c = c + 1;
        }
        assert forall|cc: int| #![trigger d(r as int, cc)] 0 <= cc < wb implies !d(r as int, cc) by {
            if cc >= c {
                assert(px * cc >= px * c) by (nonlinear_arith)
                    requires cc >= c, px >= 0;
            }
        }
        r = r + 1;
    }
    false
}

/// The box of a non-empty extent, stretched for the Accessibility size.
fn finish(e: Extent, hot: Point, sz_acc: u32, h: usize, d: usize) -> (b: cur_box)
    requires
        e.left <= e.right <= u32::MAX,
        e.top <= e.bottom <= u32::MAX,
        h <= u32::MAX,
        sz_acc > 1 ==> h > 0 && d == acc_delta(sz_acc as int, h as int),
    ensures
        b == finish_box(e, hot, sz_acc, h as int),
{
    if sz_acc > 1 {
        let l = stretch_index(e.left, h, d);
        let t = stretch_index(e.top, h, d);
        let r = stretch_index(e.right, h, d);
        let bt = stretch_index(e.bottom, h, d);
        let hx = stretch_coord(hot.x, h, d);
        let hy = stretch_coord(hot.y, h, d);
        cur_box {
            ptl: Point { x: l as i32, y: t as i32 },
            pbr: Point { x: r as i32, y: bt as i32 },
            hs: Point { x: hx, y: hy },
        }
    } else {
        cur_box {
            ptl: Point { x: e.left as i32, y: e.top as i32 },
            pbr: Point { x: e.right as i32, y: e.bottom as i32 },
            hs: hot,
        }
    }
}

} // verus!
