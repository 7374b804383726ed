//! Text drawings of a cursor's masks and colour bitmaps, one glyph per
//! pixel and one text line per scan line, each line ending with its number.
use vstd::prelude::*;
use crate::bits::{msb0_bit, msb0_bit_at, BITSLICE_MAX_BYTES};
use crate::pixel::{
    spec_xor_glyph, spec_alpha_glyph, spec_shape_color_glyph, spec_shape_masked_glyph, xor_glyph, alpha_glyph,
    shape_color_glyph, shape_masked_glyph,
};
use crate::text::{padded, push_padded};
use crate::bitmap::{scan_line, mono_drawn, masked_drawn};
use crate::shape::{PointerShapeInfo, SHAPE_MONOCHROME, SHAPE_COLOR, SHAPE_MASKED_COLOR, line};
use crate::pixel::{spec_mono_glyph, mono_glyph, spec_masked_pixel_glyph, masked_pixel_glyph, lemma_mono_glyph_blank,
    lemma_masked_pixel_glyph_blank, lemma_masked_pixel_glyph_inverts};
use vstd::string::StringExecFns;

verus! {

/// The lines `line(0)`, …, `line(n - 1)`, one after the other.
pub open spec fn lines(n: int, line: spec_fn(int) -> Seq<char>) -> Seq<char>
    decreases n,
{
    if n <= 0 { Seq::empty() } else { lines(n - 1, line) + line(n - 1) }
}

/// The width of the line numbers of a drawing `h` lines high.
pub open spec fn pad_width(h: int) -> nat {
    if h <= 9 { 1 } else if h <= 99 { 2 } else { 3 }
}

fn pad_of(h: u64) -> (p: usize)
    ensures p == pad_width(h as int),
{
    if h <= 9 { 1 } else if h <= 99 { 2 } else { 3 }
}

/// The end of a line: a bar, the line number `n` right-aligned in `width`, a newline.
pub open spec fn row_end(n: int, width: nat) -> Seq<char> {
    "¦ №"@ + padded(n as nat, width) + "\n"@
}

fn push_row_end(n: u64, width: usize, s: &mut String)
    ensures final(s)@ == old(s)@ + row_end(n as int, width as nat),
{
    let ghost s0 = s@;
    s.append("¦ №");
    push_padded(n, width, s);
    s.append("\n");
    assert(s@ =~= s0 + row_end(n as int, width as nat));
}

/// The glyphs that drawings use.
pub open spec fn is_glyph(c: char) -> bool {
    c == '█' || c == '▇' || c == '▓' || c == '□' || c == '◻' || c == '░' || c == '▒' || c == '•' || c == ' '
        || c == '⎅' || c == '◧' || c == '■' || c == 'ℯ' || c == '¦'
}

fn push_glyph(c: char, s: &mut String)
    requires is_glyph(c),
    ensures final(s)@ == old(s)@.push(c),
{
    proof {
        reveal_strlit("█"); reveal_strlit("▇"); reveal_strlit("▓"); reveal_strlit("□"); reveal_strlit("◻");
        reveal_strlit("░"); reveal_strlit("▒"); reveal_strlit("•"); reveal_strlit(" "); reveal_strlit("⎅");
        reveal_strlit("◧"); reveal_strlit("■"); reveal_strlit("ℯ"); reveal_strlit("¦");
    }
    if c == '█' { s.append("█") }
    else if c == '▇' { s.append("▇") }
    else if c == '▓' { s.append("▓") }
    else if c == '□' { s.append("□") }
    else if c == '◻' { s.append("◻") }
    else if c == '░' { s.append("░") }
    else if c == '▒' { s.append("▒") }
    else if c == '•' { s.append("•") }
    else if c == ' ' { s.append(" ") }
    else if c == '⎅' { s.append("⎅") }
    else if c == '◧' { s.append("◧") }
    else if c == '■' { s.append("■") }
    else if c == 'ℯ' { s.append("ℯ") }
    else { s.append("¦") }
}

/// `a / b` rounded up.
pub open spec fn ceil_div(a: int, b: int) -> int {
    (a + b - 1) / b
}

proof fn lemma_ceil_div(a: int, b: int, k: int)
    requires
        a >= 0,
        b > 0,
        k >= 0,
        k * b >= a,
        (k - 1) * b < a || k == 0,
    ensures
        k == ceil_div(a, b),
{
    assert(a + b - 1 == k * b + (a + b - 1 - k * b));
    assert(0 <= a + b - 1 - k * b < b) by (nonlinear_arith)
        requires k * b >= a, (k - 1) * b < a || k == 0, a >= 0, b > 0, k >= 0;
    vstd::arithmetic::div_mod::lemma_fundamental_div_mod_converse(a + b - 1, b, k, a + b - 1 - k * b);
}

/// One glyph for every `step` bits of a line, from its first bit: `•` where
/// the bit is `on`, blank elsewhere.
pub open spec fn bit_glyphs(line: Seq<u8>, step: int, on: bool) -> Seq<char> {
    Seq::new(ceil_div(8 * line.len() as int, step) as nat, |k: int| if msb0_bit(line, k * step) == on { '•' } else { ' ' })
}

fn push_bit_glyphs(buf: &[u8], start: usize, end: usize, step: usize, on: bool, s: &mut String)
    requires
        start <= end <= buf@.len(),
        end - start < BITSLICE_MAX_BYTES,
        1 <= step <= u16::MAX,
    ensures
        final(s)@ == old(s)@ + bit_glyphs(buf@.subrange(start as int, end as int), step as int, on),
{
    let ghost s0 = s@;
    let ghost line = buf@.subrange(start as int, end as int);
    let nbits = 8 * (end - start);
    let mut k: usize = 0;
    let mut off: usize = 0;
    while off < nbits
        invariant
            start <= end <= buf@.len(),
            end - start < BITSLICE_MAX_BYTES,
            1 <= step <= u16::MAX,
            line == buf@.subrange(start as int, end as int),
            nbits == 8 * (end - start),
            off == k * step,
            k <= off || k == 0,
            off < nbits + step,
            k == 0 || (k - 1) * step < nbits,
            s@ == s0 + Seq::new(k as nat, |i: int| if msb0_bit(line, i * step) == on { '•' } else { ' ' }),
        decreases nbits + step - off,
    {
        let b = msb0_bit_at(buf, start, end, off);
        let g = if b == on { '•' } else { ' ' };
        push_glyph(g, s);
        assert(s0 + Seq::new((k + 1) as nat, |i: int| if msb0_bit(line, i * step) == on { '•' } else { ' ' })
            =~= s0 + Seq::new(k as nat, |i: int| if msb0_bit(line, i * step) == on { '•' } else { ' ' }).push(g));
        assert((k + 1) * step == k * step + step) by (nonlinear_arith);
        assert(k + 1 <= (k + 1) * step) by (nonlinear_arith)
            requires step >= 1, k >= 0;
        off = off + step;
        k = k + 1;
    }
    proof { lemma_ceil_div(nbits as int, step as int, k as int); }
}

/// What a pixel's glyph is drawn from.
#[derive(Copy, Clone, Debug, PartialEq, Eq, Structural)]
pub enum PieceKind {
    /// A colour bitmap without α, on its own.
    Xor,
    /// A colour bitmap with α.
    Alpha,
    /// A captured colour shape.
    ShapeColor,
    /// A captured masked colour shape.
    ShapeMasked,
}

/// The glyph of a pixel of the given kind.
pub open spec fn spec_piece_glyph(kind: PieceKind, px: Seq<u8>) -> char {
    match kind {
        PieceKind::Xor => spec_xor_glyph(px),
        PieceKind::Alpha => spec_alpha_glyph(px),
        PieceKind::ShapeColor => spec_shape_color_glyph(px),
        PieceKind::ShapeMasked => spec_shape_masked_glyph(px),
    }
}

/// Pixel `k` of a line of `px`-byte pixels (the last one may be shorter).
pub open spec fn piece(line: Seq<u8>, px: int, k: int) -> Seq<u8> {
    line.subrange(px * k, if px * k + px < line.len() { px * k + px } else { line.len() as int })
}

/// The glyphs of the pixels of a line.
pub open spec fn piece_glyphs(line: Seq<u8>, px: int, kind: PieceKind) -> Seq<char> {
    Seq::new(ceil_div(line.len() as int, px) as nat, |k: int| spec_piece_glyph(kind, piece(line, px, k)))
}

/// Every pixel of a line of `len` bytes, the shorter last one too, has 4 bytes or more.
pub open spec fn pieces_ok(len: int, px: int) -> bool {
    &&& px >= 4
    &&& (len % px == 0 || len % px >= 4)
}

proof fn lemma_piece_tail(len: int, px: int, off: int, k: int)
    requires
        pieces_ok(len, px),
        off == px * k,
        0 <= off < len,
        k >= 0,
    ensures
        off + 4 <= len,
{
    if len - off < px {
        assert(k * px == px * k) by (nonlinear_arith);
        vstd::arithmetic::div_mod::lemma_fundamental_div_mod_converse(len, px, k, len - off);
    }
}

fn push_piece_glyphs(buf: &[u8], start: usize, end: usize, px: usize, kind: PieceKind, s: &mut String)
    requires
        start <= end <= buf@.len(),
        px <= u16::MAX,
        pieces_ok((end - start) as int, px as int),
    ensures
        final(s)@ == old(s)@ + piece_glyphs(buf@.subrange(start as int, end as int), px as int, kind),
{
    let ghost s0 = s@;
    let ghost line = buf@.subrange(start as int, end as int);
    let len = end - start;
    let mut k: usize = 0;
    let mut off: usize = 0;
    while off < len
        invariant
            start <= end <= buf@.len(),
            len == end - start,
            px <= u16::MAX,
            pieces_ok(len as int, px as int),
            line == buf@.subrange(start as int, end as int),
            off == if px * k < len { px * k } else { len as int },
            k == 0 || (k - 1) * px < len,
            k <= len,
            s@ == s0 + Seq::new(k as nat, |i: int| spec_piece_glyph(kind, piece(line, px as int, i))),
        decreases len - off,
    {
        assert(off == px * k);
        assert(k <= px * k) by (nonlinear_arith)
            requires px >= 4, k >= 0;
        proof { lemma_piece_tail(len as int, px as int, off as int, k as int); }
        let pend = if len - off > px { off + px } else { len };
        let p = &buf[start + off..start + pend];
        assert(p@ =~= piece(line, px as int, k as int));
        let g = match kind {
            PieceKind::Xor => xor_glyph(p),
            PieceKind::Alpha => alpha_glyph(p),
            PieceKind::ShapeColor => shape_color_glyph(p),
            PieceKind::ShapeMasked => shape_masked_glyph(p),
        };
        push_glyph(g, s);
        assert(s0 + Seq::new((k + 1) as nat, |i: int| spec_piece_glyph(kind, piece(line, px as int, i)))
            =~= s0 + Seq::new(k as nat, |i: int| spec_piece_glyph(kind, piece(line, px as int, i))).push(g));
        assert(px * (k + 1) == px * k + px) by (nonlinear_arith);
        assert(k * px == px * k) by (nonlinear_arith);
        off = pend;
        k = k + 1;
    }
    proof {
        assert(k * px == px * k) by (nonlinear_arith);
        lemma_ceil_div(len as int, px as int, k as int);
    }
}

/// The title of a monochrome mask's AND half.
pub open spec fn and_title() -> Seq<char> {
    "——— ⋀AND Mono◧ bitmask 1≝ 0Δ• ———¦\n¦"@
}

/// The title of a monochrome mask's XOR half.
pub open spec fn xor_title() -> Seq<char> {
    "——— ⊻XOR Mono◧ bitmask 0≝ 1Δ• ———¦\n¦"@
}

/// Line `i` of the drawing of a monochrome mask of `hh` AND rows over `hh`
/// XOR rows: the AND half shows its 0 bits, the XOR half its 1 bits, each
/// numbered from 0, with a title over each half.
pub open spec fn mono_mask_line(buf: Seq<u8>, wb: int, hh: int, step: int) -> spec_fn(int) -> Seq<char> {
    |i: int|
        seq!['¦'] + (if i < hh && i == 0 { and_title() } else if i >= hh && i == hh { xor_title() } else {
            Seq::empty()
        }) + bit_glyphs(scan_line(buf, wb, i), step, i >= hh) + row_end(if i < hh { i } else { i - hh }, pad_width(hh))
}

/// Draws the two halves of a monochrome mask bitmap of `h` rows of `wb`
/// bytes, a glyph for every `step` bits.
pub fn draw_mono_masks(buf: &[u8], wb: usize, h: usize, step: usize) -> (s: String)
    requires
        0 < wb < BITSLICE_MAX_BYTES,
        wb * h <= buf.len(),
        h <= i32::MAX,
        h > 0 ==> 1 <= step <= u16::MAX,
    ensures
        s@ == lines(h as int, mono_mask_line(buf@, wb as int, (h / 2) as int, step as int)),
{
    let hh = h / 2;
    let ghost line = mono_mask_line(buf@, wb as int, hh as int, step as int);
    let pad = pad_of(hh as u64);
    let mut s = String::new();
    let mut i: usize = 0;
    while i < h
        invariant
            0 < wb < BITSLICE_MAX_BYTES,
            wb * h <= buf.len(),
            h <= i32::MAX,
            h > 0 ==> 1 <= step <= u16::MAX,
            hh == h / 2,
            pad == pad_width(hh as int),
            line == mono_mask_line(buf@, wb as int, hh as int, step as int),
            i <= h,
            s@ == lines(i as int, line),
        decreases h - i,
    {
        assert(wb * i + wb <= wb * h) by (nonlinear_arith)
            requires i < h;
        let ghost s0 = s@;
        push_glyph('¦', &mut s);
        if i < hh && i == 0 {
            s.append("——— ⋀AND Mono◧ bitmask 1≝ 0Δ• ———¦\n¦");
        } else if i >= hh && i == hh {
            s.append("——— ⊻XOR Mono◧ bitmask 0≝ 1Δ• ———¦\n¦");
        }
        let beg = wb * i;
        push_bit_glyphs(buf, beg, beg + wb, step, i >= hh, &mut s);
        let label = if i < hh { i } else { i - hh };
        push_row_end(label as u64, pad, &mut s);
        assert(s@ =~= s0 + line(i as int));
        i = i + 1;
    }
    s
}

/// Line `r` of the drawing of a monochrome cursor: the glyph of each of its
/// `w` pixels from its AND and XOR bits.
pub open spec fn mono_line(buf: Seq<u8>, wb: int, w: int, hh: int) -> spec_fn(int) -> Seq<char> {
    |r: int|
        seq!['¦'] + Seq::new(
            w as nat,
            |c: int| spec_mono_glyph(msb0_bit(scan_line(buf, wb, r), c), msb0_bit(scan_line(buf, wb, r + hh), c)),
        ) + row_end(r, pad_width(hh))
}

/// The title of the drawing of a monochrome cursor.
pub open spec fn mono_title() -> Seq<char> {
    "¦——— ⋀AND + ⊻XOR Mono◧ bitmask 00•=■black 01••□white 11=•◧inverted🖵 ␠transparent🖵 ———¦\n"@
}

/// Draws a monochrome cursor of `hh` rows and `w` pixels, both masks applied.
pub fn draw_mono(buf: &[u8], wb: usize, w: usize, hh: usize) -> (s: String)
    requires
        wb * (2 * hh) <= buf.len(),
        hh <= i32::MAX,
        hh > 0 && w > 0 ==> w <= 8 * wb && wb < BITSLICE_MAX_BYTES,
    ensures
        s@ == mono_title() + lines(hh as int, mono_line(buf@, wb as int, w as int, hh as int)),
{
    let ghost line = mono_line(buf@, wb as int, w as int, hh as int);
    let pad = pad_of(hh as u64);
    let mut s = String::from_str("¦——— ⋀AND + ⊻XOR Mono◧ bitmask 00•=■black 01••□white 11=•◧inverted🖵 ␠transparent🖵 ———¦\n");
    let ghost t = s@;
    let mut r: usize = 0;
    while r < hh
        invariant
            wb * (2 * hh) <= buf.len(),
            hh <= i32::MAX,
            hh > 0 && w > 0 ==> w <= 8 * wb && wb < BITSLICE_MAX_BYTES,
            pad == pad_width(hh as int),
            line == mono_line(buf@, wb as int, w as int, hh as int),
            r <= hh,
            s@ == t + lines(r as int, line),
        decreases hh - r,
    {
        assert(wb * (r + hh) + wb <= wb * (2 * hh)) by (nonlinear_arith)
            requires r < hh;
        assert(wb * r + wb <= wb * (r + hh)) by (nonlinear_arith)
            requires r < hh;
        assert(wb * r <= wb * (r + hh)) by (nonlinear_arith)
            requires r < hh;
        let beg_a = wb * r;
        let beg_x = wb * (r + hh);
        let ghost s0 = s@;
        let ghost g = Seq::new(
            w as nat,
            |c: int| spec_mono_glyph(msb0_bit(scan_line(buf@, wb as int, r as int), c), msb0_bit(scan_line(buf@, wb as int, r + hh), c)),
        );
        push_glyph('¦', &mut s);
        let mut c: usize = 0;
        while c < w
            invariant
                hh > 0 && w > 0 ==> w <= 8 * wb && wb < BITSLICE_MAX_BYTES,
                r < hh,
                beg_a == wb * r,
                beg_x == wb * (r + hh),
                beg_x + wb <= buf.len(),
                beg_a + wb <= beg_x,
                g == Seq::new(
                    w as nat,
                    |c: int| spec_mono_glyph(msb0_bit(scan_line(buf@, wb as int, r as int), c), msb0_bit(scan_line(buf@, wb as int, r + hh), c)),
                ),
                c <= w,
                s@ == s0.push('¦') + g.take(c as int),
            decreases w - c,
        {
            let a = msb0_bit_at(buf, beg_a, beg_a + wb, c);
            let x = msb0_bit_at(buf, beg_x, beg_x + wb, c);
            proof {
                assert(scan_line(buf@, wb as int, r as int) == buf@.subrange(beg_a as int, beg_a + wb));
                assert(scan_line(buf@, wb as int, r + hh) == buf@.subrange(beg_x as int, beg_x + wb));
            }
            push_glyph(mono_glyph(a, x), &mut s);
            assert(g.take(c + 1) =~= g.take(c as int).push(g[c as int]));
            c = c + 1;
        }
        push_row_end(r as u64, pad, &mut s);
        assert(g.take(w as int) =~= g);
        assert(s@ =~= s0 + line(r as int));
        r = r + 1;
    }
    s
}

/// Line `i` of the drawing of an AND mask: its 0 bits, a glyph for every `step` bits.
pub open spec fn and_mask_line(buf: Seq<u8>, wb: int, step: int, pad: nat) -> spec_fn(int) -> Seq<char> {
    |i: int| seq!['¦'] + bit_glyphs(scan_line(buf, wb, i), step, false) + row_end(i, pad)
}

/// The title of the drawing of an AND mask, with a warning when the
/// Accessibility size makes the drawing of a colour cursor with α meaningless.
pub open spec fn and_mask_title(acc_note: bool) -> Seq<char> {
    "——— ⋀AND Mono◧ bitmask 1≝ 0Δ• ———¦\n"@ + if acc_note {
        "——— (likely nonsensical since 🮰sz Accessibility Size > 1)¦\n"@
    } else {
        Seq::empty()
    }
}

/// Draws the AND mask of a colour cursor, `h` rows of `wb` bytes, its line
/// numbers as wide as for a drawing `pad_h` lines high.
pub fn draw_and_mask(buf: &[u8], wb: usize, h: usize, step: usize, pad_h: usize, acc_note: bool) -> (s: String)
    requires
        0 < wb < BITSLICE_MAX_BYTES,
        wb * h <= buf.len(),
        h <= i32::MAX,
        h > 0 ==> 1 <= step <= u16::MAX,
    ensures
        s@ == and_mask_title(acc_note) + lines(
            h as int,
            and_mask_line(buf@, wb as int, step as int, pad_width(pad_h as int)),
        ),
{
    let pad = pad_of(pad_h as u64);
    let ghost line = and_mask_line(buf@, wb as int, step as int, pad_width(pad_h as int));
    let mut s = String::from_str("——— ⋀AND Mono◧ bitmask 1≝ 0Δ• ———¦\n");
    if acc_note {
        s.append("——— (likely nonsensical since 🮰sz Accessibility Size > 1)¦\n");
    }
    let ghost t = s@;
    let mut i: usize = 0;
    while i < h
        invariant
            0 < wb < BITSLICE_MAX_BYTES,
            wb * h <= buf.len(),
            h <= i32::MAX,
            h > 0 ==> 1 <= step <= u16::MAX,
            pad == pad_width(pad_h as int),
            line == and_mask_line(buf@, wb as int, step as int, pad_width(pad_h as int)),
            i <= h,
            s@ == t + lines(i as int, line),
        decreases h - i,
    {
        assert(wb * i + wb <= wb * h) by (nonlinear_arith)
            requires i < h;
        let ghost s0 = s@;
        push_glyph('¦', &mut s);
        let beg = wb * i;
        push_bit_glyphs(buf, beg, beg + wb, step, false, &mut s);
        push_row_end(i as u64, pad, &mut s);
        assert(s@ =~= s0 + line(i as int));
        i = i + 1;
    }
    s
}

/// Line `i` of the drawing of a colour bitmap: the glyph of each of its `px`-byte pixels.
pub open spec fn color_line(buf: Seq<u8>, wb: int, px: int, kind: PieceKind, pad: nat) -> spec_fn(int) -> Seq<char> {
    |i: int| seq!['¦'] + piece_glyphs(scan_line(buf, wb, i), px, kind) + row_end(i, pad)
}

/// The title of the drawing of a colour bitmap without α, on its own.
pub open spec fn xor_color_title() -> Seq<char> {
    "——— ⊻XOR Color bitmap 0≝ 1Δ• ———¦\n"@
}

/// The title of the drawing of a colour bitmap with α.
pub open spec fn alpha_color_title() -> Seq<char> {
    "——— Color 𝑏map ■dark¦□light¦•other ———\n"@
}

/// Draws a colour bitmap of `h` rows of `wb` bytes and `px`-byte pixels,
/// each pixel drawn as a colour without α on its own (`alpha` false) or
/// with α, under the matching title.
pub fn draw_color(buf: &[u8], wb: usize, h: usize, px: usize, alpha: bool) -> (s: String)
    requires
        0 < wb <= i32::MAX,
        wb * h <= buf.len(),
        h <= i32::MAX,
        px <= u16::MAX,
        h > 0 ==> pieces_ok(wb as int, px as int),
    ensures
        s@ == (if alpha { alpha_color_title() } else { xor_color_title() }) + lines(
            h as int,
            color_line(buf@, wb as int, px as int, if alpha { PieceKind::Alpha } else { PieceKind::Xor }, pad_width(h as int)),
        ),
{
    let kind = if alpha { PieceKind::Alpha } else { PieceKind::Xor };
    let pad = pad_of(h as u64);
    let ghost line = color_line(buf@, wb as int, px as int, kind, pad_width(h as int));
    let mut s = if alpha {
        String::from_str("——— Color 𝑏map ■dark¦□light¦•other ———\n")
    } else {
        String::from_str("——— ⊻XOR Color bitmap 0≝ 1Δ• ———¦\n")
    };
    let ghost t = s@;
    let mut i: usize = 0;
    while i < h
        invariant
            0 < wb <= i32::MAX,
            wb * h <= buf.len(),
            h <= i32::MAX,
            px <= u16::MAX,
            h > 0 ==> pieces_ok(wb as int, px as int),
            pad == pad_width(h as int),
            line == color_line(buf@, wb as int, px as int, kind, pad_width(h as int)),
            i <= h,
            s@ == t + lines(i as int, line),
        decreases h - i,
    {
        assert(wb * i + wb <= wb * h) by (nonlinear_arith)
            requires i < h;
        let ghost s0 = s@;
        push_glyph('¦', &mut s);
        let beg = wb * i;
        push_piece_glyphs(buf, beg, beg + wb, px, kind, &mut s);
        push_row_end(i as u64, pad, &mut s);
        assert(s@ =~= s0 + line(i as int));
        i = i + 1;
    }
    s
}

/// Line `r` of the drawing of a colour cursor without α: the glyph of each
/// of its `w` pixels from its AND bit and its colour.
pub open spec fn masked_line(abuf: Seq<u8>, wab: int, buf: Seq<u8>, wb: int, w: int, h: int) -> spec_fn(int) -> Seq<
    char,
> {
    |r: int|
        seq!['¦'] + Seq::new(
            w as nat,
            |c: int|
                spec_masked_pixel_glyph(
                    msb0_bit(scan_line(abuf, wab, r), c),
                    buf.subrange(wb * r + 4 * c, wb * r + 4 * c + 4),
                ),
        ) + row_end(r, pad_width(h))
}

/// The title of the drawing of a colour cursor without α.
pub open spec fn masked_title() -> Seq<char> {
    "¦——— ⋀AND Mono◧ 𝑏mask + ⊻XOR Color 0𝑐_••→■dark¦□light¦•other 1𝑐_␠•_◧inverted🖵¦␠transparent🖵¦⊻XORed🖵 ———¦\n"@
}

/// Draws a colour cursor without α of `h` rows and `w` pixels, its AND mask
/// applied to its colour bitmap.
pub fn draw_masked(abuf: &[u8], wab: usize, buf: &[u8], wb: usize, w: usize, h: usize) -> (s: String)
    requires
        wb * h <= buf.len(),
        wab * h <= abuf.len(),
        h <= i32::MAX,
        h > 0 ==> wab < BITSLICE_MAX_BYTES,
        h > 0 && w > 0 ==> 4 * w <= wb && w <= 8 * wab,
    ensures
        s@ == masked_title() + lines(h as int, masked_line(abuf@, wab as int, buf@, wb as int, w as int, h as int)),
{
    let ghost line = masked_line(abuf@, wab as int, buf@, wb as int, w as int, h as int);
    let pad = pad_of(h as u64);
    let mut s = String::from_str(
        "¦——— ⋀AND Mono◧ 𝑏mask + ⊻XOR Color 0𝑐_••→■dark¦□light¦•other 1𝑐_␠•_◧inverted🖵¦␠transparent🖵¦⊻XORed🖵 ———¦\n",
    );
    let ghost t = s@;
    let mut r: usize = 0;
    while r < h
        invariant
            wb * h <= buf.len(),
            wab * h <= abuf.len(),
            h <= i32::MAX,
            h > 0 ==> wab < BITSLICE_MAX_BYTES,
            h > 0 && w > 0 ==> 4 * w <= wb && w <= 8 * wab,
            pad == pad_width(h as int),
            line == masked_line(abuf@, wab as int, buf@, wb as int, w as int, h as int),
            r <= h,
            s@ == t + lines(r as int, line),
        decreases h - r,
    {
        assert(wb * r + wb <= wb * h) by (nonlinear_arith)
            requires r < h;
        assert(wab * r + wab <= wab * h) by (nonlinear_arith)
            requires r < h;
        let beg = wb * r;
        let beg_a = wab * r;
        let ghost s0 = s@;
        let ghost g = Seq::new(
            w as nat,
            |c: int|
                spec_masked_pixel_glyph(
                    msb0_bit(scan_line(abuf@, wab as int, r as int), c),
                    buf@.subrange(wb * r + 4 * c, wb * r + 4 * c + 4),
                ),
        );
        push_glyph('¦', &mut s);
        let mut c: usize = 0;
        while c < w
            invariant
                r < h,
                4 * w <= wb,
                w <= 8 * wab,
                wab < BITSLICE_MAX_BYTES,
                beg == wb * r,
                beg + wb <= buf.len(),
                beg_a == wab * r,
                beg_a + wab <= abuf.len(),
                g == Seq::new(
                    w as nat,
                    |c: int|
                        spec_masked_pixel_glyph(
                            msb0_bit(scan_line(abuf@, wab as int, r as int), c),
                            buf@.subrange(wb * r + 4 * c, wb * r + 4 * c + 4),
                        ),
                ),
                c <= w,
                s@ == s0.push('¦') + g.take(c as int),
            decreases w - c,
        {
            let a = msb0_bit_at(abuf, beg_a, beg_a + wab, c);
            let o = beg + 4 * c;
            let p = &buf[o..o + 4];
            proof {
                assert(scan_line(abuf@, wab as int, r as int) == abuf@.subrange(beg_a as int, beg_a + wab));
            }
            push_glyph(masked_pixel_glyph(a, p), &mut s);
            assert(g.take(c + 1) =~= g.take(c as int).push(g[c as int]));
            c = c + 1;
        }
        push_row_end(r as u64, pad, &mut s);
        assert(g.take(w as int) =~= g);
        assert(s@ =~= s0 + line(r as int));
        r = r + 1;
    }
    s
}

/// The title of the XOR half of a captured monochrome shape.
pub open spec fn shape_xor_title() -> Seq<char> {
    "———  ⊻XOR Mono◧ bitmask 0≝ 1Δ• ———¦\n¦"@
}

/// Line `i` of the drawing of a captured shape, by its kind: a monochrome
/// shape shows the 0 bits of its AND lines and the 1 bits of its XOR lines,
/// each half under its title; a colour or masked colour shape shows the
/// glyph of each 4-byte pixel.
pub open spec fn shape_line(info: PointerShapeInfo, buf: Seq<u8>) -> spec_fn(int) -> Seq<char> {
    let p = info.pitch as int;
    let hm = (info.height / 2) as int;
    |i: int|
        if info.shape_type == SHAPE_MONOCHROME {
            seq!['¦'] + (if i < hm && i == 0 { and_title() } else if i >= hm && i == hm { shape_xor_title() } else {
                Seq::empty()
            }) + bit_glyphs(line(buf, p, i), 1, i >= hm) + row_end(i, pad_width(hm))
        } else {
            seq!['¦'] + piece_glyphs(
                line(buf, p, i),
                4,
                if info.shape_type == SHAPE_COLOR { PieceKind::ShapeColor } else { PieceKind::ShapeMasked },
            ) + row_end(i, pad_width(info.height as int))
        }
}

/// The drawing of a captured shape: a line for each of its lines for the
/// three kinds measured, nothing for another kind.
pub open spec fn shape_drawing(info: PointerShapeInfo, buf: Seq<u8>) -> Seq<char> {
    if info.shape_type == SHAPE_MONOCHROME || info.shape_type == SHAPE_COLOR || info.shape_type
        == SHAPE_MASKED_COLOR {
        lines(ceil_div(buf.len() as int, info.pitch as int), shape_line(info, buf))
    } else {
        Seq::empty()
    }
}

/// A captured shape can be drawn: it can be walked, and the pixels of a
/// colour shape are 4 bytes too.
pub open spec fn shape_drawable(info: PointerShapeInfo, len: int) -> bool {
    &&& crate::shape::shape_ready(info, len)
    &&& info.shape_type == SHAPE_COLOR ==> len % 4 == 0 && (len <= info.pitch || info.pitch % 4 == 0)
}

/// Whether a captured shape can be drawn.
pub fn is_shape_drawable(info: &PointerShapeInfo, len: usize) -> (b: bool)
    ensures
        b == shape_drawable(*info, len as int),
{
    crate::shape::is_shape_ready(info, len) && (info.shape_type != SHAPE_COLOR || (len % 4 == 0 && (len
        <= info.pitch as usize || info.pitch % 4 == 0)))
}

/// Draws a captured pointer shape.
pub fn draw_shape(info: &PointerShapeInfo, buf: &[u8]) -> (s: String)
    requires
        shape_drawable(*info, buf@.len() as int),
    ensures
        s@ == shape_drawing(*info, buf@),
{
    let t = info.shape_type;
    let mut s = String::new();
    if !(t == SHAPE_MONOCHROME || t == SHAPE_COLOR || t == SHAPE_MASKED_COLOR) {
        return s;
    }
    let ghost ln = shape_line(*info, buf@);
    let p = info.pitch as usize;
    let hm = (info.height / 2) as usize;
    let pad = if t == SHAPE_MONOCHROME { pad_of(hm as u64) } else { pad_of(info.height as u64) };
    let len = buf.len();
    let mut i: usize = 0;
    let mut beg: usize = 0;
    while beg < len
        invariant
            shape_drawable(*info, len as int),
            t == info.shape_type,
            t == SHAPE_MONOCHROME || t == SHAPE_COLOR || t == SHAPE_MASKED_COLOR,
            p == info.pitch,
            p > 0,
            hm == info.height / 2,
            pad == if t == SHAPE_MONOCHROME { pad_width(hm as int) } else { pad_width(info.height as int) },
            ln == shape_line(*info, buf@),
            len == buf@.len(),
            i <= len,
            beg == if p * i < len { p * i } else { len as int },
            i == 0 || p * (i - 1) < len,
            s@ == lines(i as int, ln),
        decreases len - beg,
    {
        assert(p * i < len);
        assert(i <= p * i) by (nonlinear_arith)
            requires p > 0, i >= 0;
        let rest = len - beg;
        let end = if rest > p { beg + p } else { len };
        assert(line(buf@, p as int, i as int) == buf@.subrange(beg as int, end as int));
        push_shape_line(info, buf, i, beg, end, pad, &mut s);
        proof {
            assert(p * (i + 1) == p * i + p) by (nonlinear_arith);
        }
        i = i + 1;
        beg = end;
    }
    proof {
        assert(p * i >= len);
        assert(i * p == p * i) by (nonlinear_arith);
        assert(i == 0 || (i - 1) * p == p * (i - 1)) by (nonlinear_arith);
        lemma_ceil_div(len as int, p as int, i as int);
    }
    s
}

fn push_shape_line(info: &PointerShapeInfo, buf: &[u8], i: usize, beg: usize, end: usize, pad: usize, s: &mut String)
    requires
        shape_drawable(*info, buf@.len() as int),
        info.shape_type == SHAPE_MONOCHROME || info.shape_type == SHAPE_COLOR || info.shape_type == SHAPE_MASKED_COLOR,
        beg == info.pitch * i,
        beg < end,
        end == if info.pitch * i + info.pitch < buf@.len() { info.pitch * i + info.pitch } else { buf@.len() as int },
        pad == if info.shape_type == SHAPE_MONOCHROME { pad_width((info.height / 2) as int) } else { pad_width(info.height as int) },
    ensures
        final(s)@ == old(s)@ + shape_line(*info, buf@)(i as int),
{
    let t = info.shape_type;
    let p = info.pitch as usize;
    let hm = (info.height / 2) as usize;
    let ghost s0 = s@;
    assert(line(buf@, p as int, i as int) == buf@.subrange(beg as int, end as int));
    push_glyph('¦', s);
    if t == SHAPE_MONOCHROME {
        if i < hm && i == 0 {
            s.append("——— ⋀AND Mono◧ bitmask 1≝ 0Δ• ———¦\n¦");
        } else if i >= hm && i == hm {
            s.append("———  ⊻XOR Mono◧ bitmask 0≝ 1Δ• ———¦\n¦");
        }
        push_bit_glyphs(buf, beg, end, 1, i >= hm, s);
    } else {
        proof {
            if i > 0 {
                assert(p * i >= p) by (nonlinear_arith)
                    requires i > 0, p > 0;
                vstd::arithmetic::div_mod::lemma_mul_mod_noop_left(p as int, i as int, 4);
            }
        }
        let kind = if t == SHAPE_COLOR { PieceKind::ShapeColor } else { PieceKind::ShapeMasked };
        push_piece_glyphs(buf, beg, end, 4, kind, s);
    }
    push_row_end(i as u64, pad, s);
    assert(s@ =~= s0 + shape_line(*info, buf@)(i as int));
}

/// The drawing of a monochrome cursor leaves a pixel blank exactly when the
/// measurement does not count it.
pub proof fn lemma_mono_drawing_blank(buf: Seq<u8>, wb: int, w: int, hh: int, r: int, c: int)
    requires
        0 <= r < hh,
        0 <= c < w,
    ensures
        (mono_line(buf, wb, w, hh)(r)[c + 1] == ' ') <==> !mono_drawn(buf, wb, hh)(r, c),
{
    lemma_mono_glyph_blank(msb0_bit(scan_line(buf, wb, r), c), msb0_bit(scan_line(buf, wb, r + hh), c));
}

/// The drawing of a colour cursor without α leaves a pixel blank exactly when
/// the measurement does not count it.
pub proof fn lemma_masked_drawing_blank(abuf: Seq<u8>, wab: int, buf: Seq<u8>, wb: int, w: int, h: int, r: int, c: int)
    requires
        0 <= r < h,
        0 <= c < w,
        0 <= wb * r + 4 * c,
        wb * r + 4 * c + 4 <= buf.len(),
    ensures
        (masked_line(abuf, wab, buf, wb, w, h)(r)[c + 1] == ' ') <==> !masked_drawn(abuf, wab, buf, wb)(r, c),
{
    let px = buf.subrange(wb * r + 4 * c, wb * r + 4 * c + 4);
    lemma_masked_pixel_glyph_blank(msb0_bit(scan_line(abuf, wab, r), c), px);
    assert(px[0] == buf[wb * r + 4 * c] && px[1] == buf[wb * r + 4 * c + 1] && px[2] == buf[wb * r + 4 * c + 2]
        && px[3] == buf[wb * r + 4 * c + 3]);
}

/// In the drawing of a colour cursor without α, a pixel is drawn `◧` (it
/// inverts the screen by XOR) exactly when its AND bit is 1 and its four
/// colour bytes are not all zero.
pub proof fn lemma_masked_drawing_inverts(abuf: Seq<u8>, wab: int, buf: Seq<u8>, wb: int, w: int, h: int, r: int, c: int)
    requires
        0 <= r < h,
        0 <= c < w,
        0 <= wb * r + 4 * c,
        wb * r + 4 * c + 4 <= buf.len(),
    ensures
        (masked_line(abuf, wab, buf, wb, w, h)(r)[c + 1] == '◧') <==> (msb0_bit(scan_line(abuf, wab, r), c) && ({
            let o = wb * r + 4 * c;
            buf[o] != 0 || buf[o + 1] != 0 || buf[o + 2] != 0 || buf[o + 3] != 0
        })),
{
    let px = buf.subrange(wb * r + 4 * c, wb * r + 4 * c + 4);
    lemma_masked_pixel_glyph_inverts(msb0_bit(scan_line(abuf, wab, r), c), px);
    assert(px[0] == buf[wb * r + 4 * c] && px[1] == buf[wb * r + 4 * c + 1] && px[2] == buf[wb * r + 4 * c + 2]
        && px[3] == buf[wb * r + 4 * c + 3]);
}

} // verus!
