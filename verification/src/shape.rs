//! Measuring the pointer from the shape that DXGI desktop duplication
//! captures with a frame: its buffer holds scan lines of `pitch` bytes,
//! either a monochrome AND mask above an XOR mask (1 bit per pixel), or BGRα
//! pixels of 4 bytes, whose α either is transparency (colour shapes) or says
//! whether the colour replaces or is XORed with the screen (masked colour
//! shapes). The capture already accounts for screen scaling, the
//! Accessibility size and the shadow.
use vstd::prelude::*;
use crate::bits::{msb0_bit, msb0_bit_at, BITSLICE_MAX_BYTES};
use crate::extent::{Extent, covers, in_prefix, lemma_covers_start, lemma_covers_step, lemma_covers_next_row,
    lemma_covers_skip};
use crate::geometry::{Point, cur_box};
use crate::error::CursorSizeErr;
use vstd::string::StringExecFns;

verus! {

/// `DXGI_OUTDUPL_POINTER_SHAPE_TYPE_MONOCHROME`.
pub const SHAPE_MONOCHROME: u32 = 1;
/// `DXGI_OUTDUPL_POINTER_SHAPE_TYPE_COLOR`.
pub const SHAPE_COLOR: u32 = 2;
/// `DXGI_OUTDUPL_POINTER_SHAPE_TYPE_MASKED_COLOR`.
pub const SHAPE_MASKED_COLOR: u32 = 4;

/// The fields of `DXGI_OUTDUPL_POINTER_SHAPE_INFO` that the measurement reads.
#[derive(Copy, Clone, Debug, PartialEq, Eq, Structural)]
pub struct PointerShapeInfo {
    /// One of the `SHAPE_*` kinds.
    pub shape_type: u32,
    /// Width in pixels.
    pub width: u32,
    /// Height in pixels (of both masks together for a monochrome shape).
    pub height: u32,
    /// Bytes per scan line.
    pub pitch: u32,
    /// The hot spot relative to the shape's top-left pixel.
    pub hot_spot: Point,
}

/// Scan line `r` (the last one may be shorter) starts before the end of the buffer.
pub open spec fn line_exists(p: int, len: int, r: int) -> bool {
    0 <= r && p * r < len
}

/// Where scan line `r` ends: a pitch later, or at the end of the buffer.
pub open spec fn line_end(p: int, len: int, r: int) -> int {
    if p * r + p < len { p * r + p } else { len }
}

/// Scan line `r` of the shape buffer.
pub open spec fn line(buf: Seq<u8>, p: int, r: int) -> Seq<u8> {
    buf.subrange(p * r, line_end(p, buf.len() as int, r))
}

/// A monochrome shape draws where its AND bit is 0 (the top `hm` lines) and
/// where its XOR bit is 1 (the lines below); every bit of a line counts.
pub open spec fn mono_shape_drawn(buf: Seq<u8>, p: int, hm: int) -> spec_fn(int, int) -> bool {
    |r: int, c: int|
        line_exists(p, buf.len() as int, r) && 0 <= c < 8 * line(buf, p, r).len() && if r < hm {
            !msb0_bit(line(buf, p, r), c)
        } else {
            msb0_bit(line(buf, p, r), c)
        }
}

/// Line `r` of the AND mask and line `r + hm` of the XOR mask are pointer row `r`.
pub open spec fn mono_shape_row(hm: int) -> spec_fn(int) -> int {
    |r: int| if r < hm { r } else { r - hm }
}

/// A colour shape draws every 4-byte pixel that is not all zero; a shorter
/// piece at the end of a line counts as drawn.
pub open spec fn color_shape_drawn(buf: Seq<u8>, p: int) -> spec_fn(int, int) -> bool {
    |r: int, k: int|
        line_exists(p, buf.len() as int, r) && 0 <= 4 * k < line(buf, p, r).len() && !(4 * k + 4 <= line(
            buf,
            p,
            r,
        ).len() && line(buf, p, r)[4 * k] == 0 && line(buf, p, r)[4 * k + 1] == 0 && line(buf, p, r)[4 * k + 2]
            == 0 && line(buf, p, r)[4 * k + 3] == 0)
}

/// A masked colour shape draws a pixel whose mask (α) byte is 0, as its
/// colour replaces the screen, and one whose mask is 255 (XOR with the
/// screen) unless its colour is black, which leaves the screen unchanged.
pub open spec fn masked_shape_drawn(buf: Seq<u8>, p: int) -> spec_fn(int, int) -> bool {
    |r: int, k: int|
        line_exists(p, buf.len() as int, r) && 0 <= 4 * k < line(buf, p, r).len() && (line(buf, p, r)[4 * k
            + 3] == 0 || (line(buf, p, r)[4 * k + 3] == 255 && !(line(buf, p, r)[4 * k] == 0 && line(buf, p, r)[4
            * k + 1] == 0 && line(buf, p, r)[4 * k + 2] == 0)))
}

/// What a shape of a kind not measured draws: nothing.
pub open spec fn nothing_drawn() -> spec_fn(int, int) -> bool {
    |r: int, c: int| false
}

/// The drawn pixels of a shape, by its kind.
pub open spec fn shape_drawn(info: PointerShapeInfo, buf: Seq<u8>) -> spec_fn(int, int) -> bool {
    if info.shape_type == SHAPE_MONOCHROME {
        mono_shape_drawn(buf, info.pitch as int, (info.height / 2) as int)
    } else if info.shape_type == SHAPE_COLOR {
        color_shape_drawn(buf, info.pitch as int)
    } else if info.shape_type == SHAPE_MASKED_COLOR {
        masked_shape_drawn(buf, info.pitch as int)
    } else {
        nothing_drawn()
    }
}

/// The pointer row of each buffer line, by the shape's kind.
pub open spec fn shape_row(info: PointerShapeInfo) -> spec_fn(int) -> int {
    if info.shape_type == SHAPE_MONOCHROME {
        mono_shape_row((info.height / 2) as int)
    } else {
        mono_shape_row(0)
    }
}

/// The columns a line can hold: its bits for a monochrome shape, else (at most) its bytes.
pub open spec fn shape_cols(info: PointerShapeInfo) -> int {
    if info.shape_type == SHAPE_MONOCHROME { 8 * info.pitch } else { info.pitch as int }
}

/// The walk over the shape starts from its width and height.
pub open spec fn shape_init(info: PointerShapeInfo) -> Extent {
    Extent { left: info.width as usize, right: 0, top: info.height as usize, bottom: 0 }
}

/// The box of an extent, with the shape's hot spot.
pub open spec fn shape_box(e: Extent, hs: Point) -> cur_box {
    cur_box {
        ptl: Point { x: e.left as i32, y: e.top as i32 },
        pbr: Point { x: e.right as i32, y: e.bottom as i32 },
        hs,
    }
}

/// The result of measuring a captured shape: the box of the walk's extent,
/// or the error that carries it when it is inverted.
pub open spec fn shape_outcome(r: Result<cur_box, CursorSizeErr>, info: PointerShapeInfo, buf: Seq<u8>) -> bool {
    exists|e: Extent|
        covers(shape_drawn(info, buf), shape_row(info), buf.len() as int, 0, shape_cols(info), shape_init(info), e)
            && r == if e.left > e.right || e.top > e.bottom {
            Err::<cur_box, CursorSizeErr>(CursorSizeErr::BoxSzInvalid(shape_box(e, info.hot_spot)))
        } else {
            Ok::<cur_box, CursorSizeErr>(shape_box(e, info.hot_spot))
        }
}

/// The shape can be walked: lines are at least a byte, a monochrome line
/// can be viewed by `bitvec`, and every pixel of a masked colour shape is 4 bytes.
pub open spec fn shape_ready(info: PointerShapeInfo, len: int) -> bool {
    &&& (info.shape_type == SHAPE_MONOCHROME || info.shape_type == SHAPE_COLOR || info.shape_type
        == SHAPE_MASKED_COLOR) ==> info.pitch > 0
    &&& info.shape_type == SHAPE_MONOCHROME ==> info.pitch < BITSLICE_MAX_BYTES || len < BITSLICE_MAX_BYTES
    &&& info.shape_type == SHAPE_MASKED_COLOR ==> len % 4 == 0 && (len <= info.pitch || info.pitch % 4 == 0)
}

/// Whether a captured shape can be walked.
pub fn is_shape_ready(info: &PointerShapeInfo, len: usize) -> (b: bool)
    ensures
        b == shape_ready(*info, len as int),
{
    let t = info.shape_type;
    let p = info.pitch;
    let pitch_ok = !(t == SHAPE_MONOCHROME || t == SHAPE_COLOR || t == SHAPE_MASKED_COLOR) || p > 0;
    let mono_ok = t != SHAPE_MONOCHROME || (p as usize) < BITSLICE_MAX_BYTES || len < BITSLICE_MAX_BYTES;
    let masked_ok = t != SHAPE_MASKED_COLOR || (len % 4 == 0 && (len <= p as usize || p % 4 == 0));
    pitch_ok && mono_ok && masked_ok
}

/// Past the last line nothing is drawn: the walk can stop there.
proof fn lemma_lines_end(
    d: spec_fn(int, int) -> bool,
    ro: spec_fn(int) -> int,
    p: int,
    len: int,
    r: int,
    cols: int,
    init: Extent,
    e: Extent,
)
    requires
        covers(d, ro, r, 0, cols, init, e),
        p > 0,
        0 <= r,
        p * r >= len,
        forall|rr: int, c: int| #![trigger d(rr, c)] d(rr, c) ==> line_exists(p, len, rr),
    ensures
        covers(d, ro, if r < len { len } else { r }, 0, cols, init, e),
{
    if r < len {
        assert forall|rr: int, c: int|
            #![trigger d(rr, c)]
            in_prefix(rr, c, len, 0, cols) && !in_prefix(rr, c, r, 0, cols) implies !d(rr, c) by {
            assert(p * rr >= p * r) by (nonlinear_arith)
                requires rr >= r, p > 0;
        }
        lemma_covers_skip(d, ro, r, 0, len, 0, cols, init, e);
    }
}

/// Walks a monochrome shape line by line, bit by bit.
fn walk_mono_shape(buf: &[u8], p: usize, hm: usize, init: Extent) -> (e: Extent)
    requires
        p > 0,
        p < BITSLICE_MAX_BYTES || buf@.len() < BITSLICE_MAX_BYTES,
    ensures
        covers(mono_shape_drawn(buf@, p as int, hm as int), mono_shape_row(hm as int), buf@.len() as int, 0,
            8 * p, init, e),
{
    let ghost d = mono_shape_drawn(buf@, p as int, hm as int);
    let ghost ro = mono_shape_row(hm as int);
    let len = buf.len();
    let mut e = init;
    proof { lemma_covers_start(d, ro, 8 * p, init); }
    let mut r: usize = 0;
    let mut beg: usize = 0;
    while beg < len
        invariant
            d == mono_shape_drawn(buf@, p as int, hm as int),
            ro == mono_shape_row(hm as int),
            len == buf@.len(),
            p > 0,
            p < BITSLICE_MAX_BYTES || len < BITSLICE_MAX_BYTES,
            r <= len,
            beg == if p * r < len { p * r } else { len as int },
            covers(d, ro, r as int, 0, 8 * p, init, e),
        decreases len - beg,
    {
        assert(p * r < len);
        assert(r <= p * r) by (nonlinear_arith)
            requires p > 0, r >= 0;
        let rest = len - beg;
        let end = if rest > p { beg + p } else { len };
        let nbits = 8 * (end - beg);
        let row = if r < hm { r } else { r - hm };
        assert(line(buf@, p as int, r as int) == buf@.subrange(beg as int, end as int));
        let mut c: usize = 0;
        while c < nbits
            invariant
                d == mono_shape_drawn(buf@, p as int, hm as int),
                ro == mono_shape_row(hm as int),
                len == buf@.len(),
                beg == p * r,
                beg < end <= len,
                end - beg <= p,
                end - beg < BITSLICE_MAX_BYTES,
                nbits == 8 * (end - beg),
                line(buf@, p as int, r as int) == buf@.subrange(beg as int, end as int),
                row == ro(r as int),
                c <= nbits,
                covers(d, ro, r as int, c as int, 8 * p, init, e),
            decreases nbits - c,
        {
            let bit = msb0_bit_at(buf, beg, end, c);
            let drawn = if r < hm { !bit } else { bit };
            let ghost e0 = e;
            if drawn {
                e.widen(c, row);
            }
            proof {
                assert(d(r as int, c as int) == drawn);
                lemma_covers_step(d, ro, r as int, c as int, 8 * p, init, e0, e);
            }
            c = c + 1;
        }
        proof {
            lemma_covers_skip(d, ro, r as int, c as int, r as int, 8 * p, 8 * p, init, e);
            lemma_covers_next_row(d, ro, r as int, 8 * p, init, e);
            assert(p * (r + 1) == p * r + p) by (nonlinear_arith);
            assert(r + 1 <= p * (r + 1)) by (nonlinear_arith)
                requires p > 0, r >= 0;
        }
        r = r + 1;
        beg = end;
    }
    proof { lemma_lines_end(d, ro, p as int, len as int, r as int, 8 * p, init, e); }
    e
}

/// The drawn pixels of a colour shape, masked or not.
pub open spec fn color_kind_drawn(buf: Seq<u8>, p: int, masked: bool) -> spec_fn(int, int) -> bool {
    if masked { masked_shape_drawn(buf, p) } else { color_shape_drawn(buf, p) }
}

/// Walks a colour or masked colour shape line by line, 4 bytes at a time.
fn walk_color_shape(buf: &[u8], p: usize, masked: bool, init: Extent) -> (e: Extent)
    requires
        0 < p <= u32::MAX,
        masked ==> buf@.len() % 4 == 0 && (buf@.len() <= p || p % 4 == 0),
    ensures
        covers(color_kind_drawn(buf@, p as int, masked), mono_shape_row(0), buf@.len() as int, 0, p as int,
            init, e),
{
    let ghost d = color_kind_drawn(buf@, p as int, masked);
    let ghost ro = mono_shape_row(0);
    let len = buf.len();
    let mut e = init;
    proof { lemma_covers_start(d, ro, p as int, init); }
    let mut r: usize = 0;
    let mut beg: usize = 0;
    while beg < len
        invariant
            d == color_kind_drawn(buf@, p as int, masked),
            ro == mono_shape_row(0),
            len == buf@.len(),
            0 < p <= u32::MAX,
            masked ==> len % 4 == 0 && (len <= p || p % 4 == 0),
            r <= len,
            beg == if p * r < len { p * r } else { len as int },
            covers(d, ro, r as int, 0, p as int, init, e),
        decreases len - beg,
    {
        assert(p * r < len);
        assert(r <= p * r) by (nonlinear_arith)
            requires p > 0, r >= 0;
        let rest = len - beg;
        let end = if rest > p { beg + p } else { len };
        let clen = end - beg;
        assert(line(buf@, p as int, r as int) == buf@.subrange(beg as int, end as int));
        if masked && r > 0 {
            assert(p * r >= p) by (nonlinear_arith)
                requires r > 0, p > 0;
            proof { vstd::arithmetic::div_mod::lemma_mul_mod_noop_left(p as int, r as int, 4); }
        }
        let mut k: usize = 0;
        let mut off: usize = 0;
        while off < clen
            invariant
                d == color_kind_drawn(buf@, p as int, masked),
                ro == mono_shape_row(0),
                len == buf@.len(),
                beg == p * r,
                beg < end <= len,
                clen == end - beg,
                clen <= p,
                p <= u32::MAX,
                masked ==> clen % 4 == 0 && off % 4 == 0,
                line(buf@, p as int, r as int) == buf@.subrange(beg as int, end as int),
                off == if 4 * k < clen { 4 * k } else { clen as int },
                covers(d, ro, r as int, k as int, p as int, init, e),
            decreases clen - off,
        {
            let ghost ln = line(buf@, p as int, r as int);
            let o = beg + off;
            let drawn = if masked {
                assert(off + 4 <= clen);
                let a = buf[o + 3];
                a == 0 || (a == 255 && !(buf[o] == 0 && buf[o + 1] == 0 && buf[o + 2] == 0))
            } else {
                let full = clen - off >= 4;
                !(full && buf[o] == 0 && buf[o + 1] == 0 && buf[o + 2] == 0 && buf[o + 3] == 0)
            };
            let ghost e0 = e;
            if drawn {
                e.widen(k, r);
            }
            proof {
                assert(ln[4 * k] == buf@[o as int]);
                assert(d(r as int, k as int) == drawn);
                lemma_covers_step(d, ro, r as int, k as int, p as int, init, e0, e);
            }
            off = if clen - off > 4 { off + 4 } else { clen };
            k = k + 1;
        }
        proof {
            assert forall|rr: int, cc: int|
                #![trigger d(rr, cc)]
                in_prefix(rr, cc, r as int, p as int, p as int) && !in_prefix(rr, cc, r as int, k as int, p as int)
                implies !d(rr, cc) by {}
            lemma_covers_skip(d, ro, r as int, k as int, r as int, p as int, p as int, init, e);
            lemma_covers_next_row(d, ro, r as int, p as int, init, e);
            assert(p * (r + 1) == p * r + p) by (nonlinear_arith);
        }
        r = r + 1;
        beg = end;
    }
    proof { lemma_lines_end(d, ro, p as int, len as int, r as int, p as int, init, e); }
    e
}

/// Pixel `k` of scan line `row` of a colour shape is a whole 4-byte pixel of the buffer.
pub open spec fn whole_pixel(info: PointerShapeInfo, len: int, row: int, k: int) -> bool {
    &&& 0 <= row
    &&& 0 <= k
    &&& 4 * k + 4 <= info.pitch
    &&& info.pitch * row + 4 * k + 4 <= len
}

/// Where the walk counts a pixel, the measured box holds it: it is then a
/// box (not the error for an inverted one) with the pixel's column and row
/// between its sides.
proof fn lemma_counted_pixel_in_box(info: PointerShapeInfo, buf: Seq<u8>, r: Result<cur_box, CursorSizeErr>, row: int, k: int)
    requires
        info.shape_type == SHAPE_COLOR || info.shape_type == SHAPE_MASKED_COLOR,
        info.pitch > 0,
        buf.len() <= i32::MAX,
        shape_outcome(r, info, buf),
        whole_pixel(info, buf.len() as int, row, k),
        shape_drawn(info, buf)(row, k),
    ensures
        r matches Ok(b) && b.ptl.x <= k <= b.pbr.x && b.ptl.y <= row <= b.pbr.y,
{
    let p = info.pitch as int;
    let d = shape_drawn(info, buf);
    let ro = shape_row(info);
    let cols = shape_cols(info);
    let e = choose|e: Extent|
        covers(d, ro, buf.len() as int, 0, cols, shape_init(info), e) && r == if e.left > e.right || e.top > e.bottom {
            Err::<cur_box, CursorSizeErr>(CursorSizeErr::BoxSzInvalid(shape_box(e, info.hot_spot)))
        } else {
            Ok::<cur_box, CursorSizeErr>(shape_box(e, info.hot_spot))
        };
    assert(row <= p * row) by (nonlinear_arith)
        requires p > 0, row >= 0;
    assert(in_prefix(row, k, buf.len() as int, 0, cols));
    assert(d(row, k));
    assert(e.left <= k <= e.right && e.top <= row <= e.bottom);
    if e.right != 0 {
        let (rr, c) = choose|rr: int, c: int|
            #![trigger d(rr, c)]
            in_prefix(rr, c, buf.len() as int, 0, cols) && d(rr, c) && c == e.right;
        assert(c < cols);
    }
    if e.bottom != 0 {
        let (rr, c) = choose|rr: int, c: int|
            #![trigger d(rr, c)]
            in_prefix(rr, c, buf.len() as int, 0, cols) && d(rr, c) && ro(rr) == e.bottom;
        assert(rr < buf.len());
    }
}

/// A captured colour shape's box holds every 4-byte pixel whose bytes are
/// not all zero, translucent black shadow and black outline pixels among them.
pub proof fn lemma_color_shape_box_holds_nonzero(
    info: PointerShapeInfo,
    buf: Seq<u8>,
    r: Result<cur_box, CursorSizeErr>,
    row: int,
    k: int,
)
    requires
        info.shape_type == SHAPE_COLOR,
        buf.len() <= i32::MAX,
        shape_outcome(r, info, buf),
        whole_pixel(info, buf.len() as int, row, k),
        ({
            let o = info.pitch * row + 4 * k;
            buf[o] != 0 || buf[o + 1] != 0 || buf[o + 2] != 0 || buf[o + 3] != 0
        }),
    ensures
        r matches Ok(b) && b.ptl.x <= k <= b.pbr.x && b.ptl.y <= row <= b.pbr.y,
{
    let p = info.pitch as int;
    assert(p * row + p <= buf.len() || line_end(p, buf.len() as int, row) == buf.len());
    assert(line(buf, p, row).len() >= 4 * k + 4);
    lemma_counted_pixel_in_box(info, buf, r, row, k);
}

/// A captured masked colour shape's box holds every pixel whose mask byte is
/// 0, whatever its colour (black replaces the screen too), and every pixel
/// whose mask byte is 255 and whose colour is not black.
pub proof fn lemma_masked_shape_box_holds_drawn(
    info: PointerShapeInfo,
    buf: Seq<u8>,
    r: Result<cur_box, CursorSizeErr>,
    row: int,
    k: int,
)
    requires
        info.shape_type == SHAPE_MASKED_COLOR,
        buf.len() <= i32::MAX,
        shape_outcome(r, info, buf),
        whole_pixel(info, buf.len() as int, row, k),
        ({
            let o = info.pitch * row + 4 * k;
            buf[o + 3] == 0 || (buf[o + 3] == 255 && (buf[o] != 0 || buf[o + 1] != 0 || buf[o + 2] != 0))
        }),
    ensures
        r matches Ok(b) && b.ptl.x <= k <= b.pbr.x && b.ptl.y <= row <= b.pbr.y,
{
    let p = info.pitch as int;
    assert(line(buf, p, row).len() >= 4 * k + 4);
    lemma_counted_pixel_in_box(info, buf, r, row, k);
}

/// A captured monochrome shape's box holds every pixel it draws: a 0 bit of
/// its AND lines (the top half) and a 1 bit of its XOR lines (the bottom
/// half), at the pointer row of that line.
pub proof fn lemma_mono_shape_box_holds_drawn(
    info: PointerShapeInfo,
    buf: Seq<u8>,
    r: Result<cur_box, CursorSizeErr>,
    row: int,
    c: int,
)
    requires
        info.shape_type == SHAPE_MONOCHROME,
        8 * buf.len() <= i32::MAX,
        shape_outcome(r, info, buf),
        0 <= row,
        0 <= c < 8 * info.pitch,
        info.pitch * row + c / 8 < buf.len(),
        ({
            let ln = line(buf, info.pitch as int, row);
            if row < info.height / 2 { !msb0_bit(ln, c) } else { msb0_bit(ln, c) }
        }),
    ensures
        r matches Ok(b) && b.ptl.x <= c <= b.pbr.x && ({
            let prow = if row < info.height / 2 { row } else { row - info.height / 2 };
            b.ptl.y <= prow <= b.pbr.y
        }),
{
    let p = info.pitch as int;
    let hm = (info.height / 2) as int;
    let len = buf.len() as int;
    let d = shape_drawn(info, buf);
    let ro = shape_row(info);
    let cols = shape_cols(info);
    let e = choose|e: Extent|
        covers(d, ro, len, 0, cols, shape_init(info), e) && r == if e.left > e.right || e.top > e.bottom {
            Err::<cur_box, CursorSizeErr>(CursorSizeErr::BoxSzInvalid(shape_box(e, info.hot_spot)))
        } else {
            Ok::<cur_box, CursorSizeErr>(shape_box(e, info.hot_spot))
        };
    assert(p > 0);
    assert(row <= p * row) by (nonlinear_arith)
        requires p > 0, row >= 0;
    assert(c < 8 * line(buf, p, row).len());
    assert(in_prefix(row, c, len, 0, cols));
    assert(d(row, c));
    if e.right != 0 {
        let (rr, cc) = choose|rr: int, cc: int|
            #![trigger d(rr, cc)]
            in_prefix(rr, cc, len, 0, cols) && d(rr, cc) && cc == e.right;
        assert(line(buf, p, rr).len() <= len);
    }
    if e.bottom != 0 {
        let (rr, cc) = choose|rr: int, cc: int|
            #![trigger d(rr, cc)]
            in_prefix(rr, cc, len, 0, cols) && d(rr, cc) && ro(rr) == e.bottom;
        assert(rr < len);
    }
}

/// Each side of a measured shape's box rests on a pixel the walk counts, or
/// is still where the walk started it (the width and height for the left
/// and top sides, 0 for the right and bottom ones).
proof fn lemma_shape_tight(info: PointerShapeInfo, buf: Seq<u8>, r: Result<cur_box, CursorSizeErr>)
    requires
        info.shape_type == SHAPE_COLOR || info.shape_type == SHAPE_MASKED_COLOR,
        buf.len() <= i32::MAX,
        shape_outcome(r, info, buf),
        r is Ok,
    ensures
        ({
            let d = shape_drawn(info, buf);
            let b = r->Ok_0;
            &&& b.ptl.x == info.width as i32 || exists|row: int, k: int| #[trigger] d(row, k) && k == b.ptl.x
            &&& b.pbr.x == 0 || exists|row: int, k: int| #[trigger] d(row, k) && k == b.pbr.x
            &&& b.ptl.y == info.height as i32 || exists|row: int, k: int| #[trigger] d(row, k) && row == b.ptl.y
            &&& b.pbr.y == 0 || exists|row: int, k: int| #[trigger] d(row, k) && row == b.pbr.y
        }),
{
    let len = buf.len() as int;
    let d = shape_drawn(info, buf);
    let ro = shape_row(info);
    let cols = shape_cols(info);
    let init = shape_init(info);
    let e = choose|e: Extent|
        covers(d, ro, len, 0, cols, init, e) && r == if e.left > e.right || e.top > e.bottom {
            Err::<cur_box, CursorSizeErr>(CursorSizeErr::BoxSzInvalid(shape_box(e, info.hot_spot)))
        } else {
            Ok::<cur_box, CursorSizeErr>(shape_box(e, info.hot_spot))
        };
    if e.left != init.left {
        let (a, k) = choose|a: int, k: int| #![trigger d(a, k)] in_prefix(a, k, len, 0, cols) && d(a, k) && k == e.left;
        assert(4 * k < len);
        assert(d(a, k) && k == r->Ok_0.ptl.x);
    }
    if e.right != init.right {
        let (a, k) = choose|a: int, k: int| #![trigger d(a, k)] in_prefix(a, k, len, 0, cols) && d(a, k) && k == e.right;
        assert(4 * k < len);
        assert(d(a, k) && k == r->Ok_0.pbr.x);
    }
    if e.top != init.top {
        let (a, k) = choose|a: int, k: int| #![trigger d(a, k)] in_prefix(a, k, len, 0, cols) && d(a, k) && ro(a) == e.top;
        assert(a < len);
        assert(d(a, k) && a == r->Ok_0.ptl.y);
    }
    if e.bottom != init.bottom {
        let (a, k) = choose|a: int, k: int| #![trigger d(a, k)] in_prefix(a, k, len, 0, cols) && d(a, k) && ro(a) == e.bottom;
        assert(a < len);
        assert(d(a, k) && a == r->Ok_0.pbr.y);
    }
}

/// Pixel `k` of scan line `row` of a colour shape shows: it starts within the
/// line, and it is a piece shorter than 4 bytes at the line's end or its
/// four bytes are not all zero.
pub open spec fn color_shape_pixel_shows(info: PointerShapeInfo, buf: Seq<u8>, row: int, k: int) -> bool {
    let ln = line(buf, info.pitch as int, row);
    &&& 0 <= row
    &&& info.pitch * row < buf.len()
    &&& 0 <= 4 * k < ln.len()
    &&& 4 * k + 4 > ln.len() || ln[4 * k] != 0 || ln[4 * k + 1] != 0 || ln[4 * k + 2] != 0 || ln[4 * k + 3] != 0
}

/// Each side of a captured colour shape's box touches a pixel that shows, or
/// is still at its start (the shape's width and height for the left and top
/// sides, 0 for the right and bottom ones).
pub proof fn lemma_color_shape_box_tight(info: PointerShapeInfo, buf: Seq<u8>, r: Result<cur_box, CursorSizeErr>)
    requires
        info.shape_type == SHAPE_COLOR,
        buf.len() <= i32::MAX,
        shape_outcome(r, info, buf),
        r is Ok,
    ensures
        ({
            let b = r->Ok_0;
            &&& b.ptl.x == info.width as i32 || exists|row: int, k: int|
                #[trigger] color_shape_pixel_shows(info, buf, row, k) && k == b.ptl.x
            &&& b.pbr.x == 0 || exists|row: int, k: int| #[trigger] color_shape_pixel_shows(info, buf, row, k) && k == b.pbr.x
            &&& b.ptl.y == info.height as i32 || exists|row: int, k: int|
                #[trigger] color_shape_pixel_shows(info, buf, row, k) && row == b.ptl.y
            &&& b.pbr.y == 0 || exists|row: int, k: int| #[trigger] color_shape_pixel_shows(info, buf, row, k) && row == b.pbr.y
        }),
{
    lemma_shape_tight(info, buf, r);
    let d = shape_drawn(info, buf);
    assert forall|row: int, k: int| #[trigger] d(row, k) implies color_shape_pixel_shows(info, buf, row, k) by {}
}

/// Pixel `k` of scan line `row` of a masked colour shape changes the screen:
/// it is a whole 4-byte pixel within the line whose mask byte is 0 (it
/// replaces the screen), or 255 with a colour that is not black (XOR).
pub open spec fn masked_shape_pixel_changes(info: PointerShapeInfo, buf: Seq<u8>, row: int, k: int) -> bool {
    let ln = line(buf, info.pitch as int, row);
    &&& 0 <= row
    &&& info.pitch * row < buf.len()
    &&& 0 <= 4 * k < ln.len()
    &&& ln[4 * k + 3] == 0 || (ln[4 * k + 3] == 255 && (ln[4 * k] != 0 || ln[4 * k + 1] != 0 || ln[4 * k + 2] != 0))
}

/// Each side of a captured masked colour shape's box touches a pixel that
/// changes the screen, or is still at its start (the shape's width and
/// height for the left and top sides, 0 for the right and bottom ones).
pub proof fn lemma_masked_shape_box_tight(info: PointerShapeInfo, buf: Seq<u8>, r: Result<cur_box, CursorSizeErr>)
    requires
        info.shape_type == SHAPE_MASKED_COLOR,
        buf.len() <= i32::MAX,
        shape_outcome(r, info, buf),
        r is Ok,
    ensures
        ({
            let b = r->Ok_0;
            &&& b.ptl.x == info.width as i32 || exists|row: int, k: int|
                #[trigger] masked_shape_pixel_changes(info, buf, row, k) && k == b.ptl.x
            &&& b.pbr.x == 0 || exists|row: int, k: int|
                #[trigger] masked_shape_pixel_changes(info, buf, row, k) && k == b.pbr.x
            &&& b.ptl.y == info.height as i32 || exists|row: int, k: int|
                #[trigger] masked_shape_pixel_changes(info, buf, row, k) && row == b.ptl.y
            &&& b.pbr.y == 0 || exists|row: int, k: int|
                #[trigger] masked_shape_pixel_changes(info, buf, row, k) && row == b.pbr.y
        }),
{
    lemma_shape_tight(info, buf, r);
    let d = shape_drawn(info, buf);
    assert forall|row: int, k: int| #[trigger] d(row, k) implies masked_shape_pixel_changes(info, buf, row, k) by {}
}

/// Gets the true bounding box of the pointer, the smallest box that holds
/// every pixel it draws, from the shape captured by DXGI desktop duplication
/// (`None` when no shape came with the frame). The corners are 0-based pixel
/// coordinates within the shape; the hot spot is the shape's. Unlike the
/// icon bitmaps, the captured shape includes the Accessibility size and the
/// pointer's shadow (which masked colour pointers do not cast).
pub fn get_mptr_sz(shape: Option<PointerShapeInfo>, buf: &[u8]) -> (r: Result<cur_box, CursorSizeErr>)
    requires
        shape matches Some(info) ==> shape_ready(info, buf@.len() as int),
    ensures
        match shape {
            None => r matches Err(CursorSizeErr::DXDupe(m)) && m@ == "Failed to capture pointer shape"@,
            Some(info) => shape_outcome(r, info, buf@),
        },
{
    let info = match shape {
        None => {
            return Err(CursorSizeErr::DXDupe(String::from_str("Failed to capture pointer shape")));
        },
        Some(info) => info,
    };
    let init = Extent { left: info.width as usize, right: 0, top: info.height as usize, bottom: 0 };
    let p = info.pitch as usize;
    let e = if info.shape_type == SHAPE_MONOCHROME {
        walk_mono_shape(buf, p, (info.height / 2) as usize, init)
    } else if info.shape_type == SHAPE_COLOR {
        walk_color_shape(buf, p, false, init)
    } else if info.shape_type == SHAPE_MASKED_COLOR {
        walk_color_shape(buf, p, true, init)
    } else {
        proof {
            lemma_covers_start(nothing_drawn(), mono_shape_row(0), shape_cols(info), init);
            lemma_covers_skip(nothing_drawn(), mono_shape_row(0), 0, 0, buf@.len() as int, 0, shape_cols(info), init, init);
        }
        init
    };
    let res_box = cur_box {
        ptl: Point { x: e.left as i32, y: e.top as i32 },
        pbr: Point { x: e.right as i32, y: e.bottom as i32 },
        hs: info.hot_spot,
    };
    assert(covers(shape_drawn(info, buf@), shape_row(info), buf@.len() as int, 0, shape_cols(info), shape_init(info), e));
    if e.left > e.right || e.top > e.bottom {
        Err(CursorSizeErr::BoxSzInvalid(res_box))
    } else {
        Ok(res_box)
    }
}

} // verus!
