//! The kinds of cursor bitmaps and masks, and the BGRα pixel.
use vstd::prelude::*;
use crate::bitmap::{BitmapBits, has_alpha, alpha_scan_ready};
use vstd::string::StringExecFns;

verus! {

/// The kind of a cursor's colour data.
///
/// | Colour       | AND 24b | AND 32b | XOR 24b   | XOR 32b  | DX masked | DX colour |
/// |--------------|---------|---------|-----------|----------|-----------|-----------|
/// | Black        | 0       | 0       | 0, α 0    | 0, α 255 | 0, mask 0 | 0, α 255  |
/// | White        | 0       | 0       | 255, α 0  |          | 255, mask 0 | 255, α 255 |
/// | Inverted     | 1       | —       | 255, α 0  | —        | 255, mask 255 | —     |
/// | α grey       | —       | 0       | —         |          | colour, mask 0 | 0, α between |
/// | Transparent  |         |         |           |          | 0, mask 255 | 0, α 0  |
///
/// Colour is stored as BGRα, one byte per channel. A 24-bit colour cursor has
/// all α bytes zero; the DX duplication interface turns its α bytes into a
/// mask: 0 replaces the screen pixel with the colour, 255 XORs them. A 32-bit
/// cursor with real α has no inverted pixels.
#[derive(Copy, Clone, Debug, PartialEq, Eq, Structural)]
pub enum CursorColor {
    /// 1 bit per pixel: an AND mask and an XOR mask.
    Mono,
    /// 32 bits per pixel BGRα with α all zero: an AND mask and a colour bitmap
    /// that the mask replaces or XORs with the screen.
    ColorMasked,
    /// 32 bits per pixel BGRα with real α transparency.
    ColorAlpha,
}

/// The kind of a single pixel mask.
///
/// | AND \ XOR | 0 | 1 |
/// |-----------|---|---|
/// | 0 | black (replaces) | white (replaces) |
/// | 1 | transparent (screen unchanged) | inverts the screen |
#[derive(Copy, Clone, Debug, PartialEq, Eq, Structural)]
pub enum Mask {
    /// The AND mask.
    And,
    /// The XOR mask.
    Xor,
}

/// A pixel of the DXGI desktop image: blue, green, red and α channels.
#[derive(Copy, Clone, Debug, PartialEq, Eq, Structural, PartialOrd, Ord)]
pub struct BGRA8 {
    pub b: u8,
    pub g: u8,
    pub r: u8,
    pub a: u8,
}

/// The kind of a cursor from its icon bitmaps: monochrome without a colour
/// bitmap, else with real α when any pixel's α is not zero.
pub open spec fn spec_cursor_color(cur_c: Option<BitmapBits>) -> CursorColor {
    match cur_c {
        None => CursorColor::Mono,
        Some(c) => if has_alpha(c) { CursorColor::ColorAlpha } else { CursorColor::ColorMasked },
    }
}

/// Tells the kind of a cursor from its icon bitmaps.
pub fn cursor_color(cur_c: Option<&BitmapBits>) -> (k: CursorColor)
    requires
        cur_c matches Some(c) ==> c.wf() && alpha_scan_ready(c.info),
    ensures
        k == spec_cursor_color(match cur_c { None => None, Some(c) => Some(*c) }),
{
    match cur_c {
        None => CursorColor::Mono,
        Some(c) => {
            if crate::bitmap::bitmap_has_alpha(c) {
                CursorColor::ColorAlpha
            } else {
                CursorColor::ColorMasked
            }
        },
    }
}

impl CursorColor {
    /// The short label of the kind, `"🖰 𝐶:𝟙"` and so on, or with `alternate`
    /// its name: `"🖰 𝐶:Mono"`, `"🖰 𝐶:All"`, `"🖰 𝐶:Masked"`.
    pub fn label(&self, alternate: bool) -> (s: String)
        ensures
            s@ == "🖰 𝐶:"@ + if !alternate {
                match self {
                    CursorColor::Mono => "𝟙"@,
                    CursorColor::ColorAlpha => "𝟛α"@,
                    CursorColor::ColorMasked => "𝟛🆭"@,
                }
            } else {
                match self {
                    CursorColor::Mono => "Mono"@,
                    CursorColor::ColorAlpha => "All"@,
                    CursorColor::ColorMasked => "Masked"@,
                }
            },
    {
        let mut s = String::from_str("🖰 𝐶:");
        if !alternate {
            match self {
                CursorColor::Mono => s.append("𝟙"),
                CursorColor::ColorAlpha => s.append("𝟛α"),
                CursorColor::ColorMasked => s.append("𝟛🆭"),
            }
        } else {
            match self {
                CursorColor::Mono => s.append("Mono"),
                CursorColor::ColorAlpha => s.append("All"),
                CursorColor::ColorMasked => s.append("Masked"),
            }
        }
        s
    }

    /// The debug text of the kind: its type's path and its symbol, or with
    /// `alternate` the layout of its data.
    pub fn debug_text(&self, alternate: bool) -> (s: String)
        ensures
            s@ == if !alternate {
                "mptrsz::kinds::CursorColor::"@ + match self {
                    CursorColor::Mono => "𝟙"@,
                    CursorColor::ColorAlpha => "𝟛α"@,
                    CursorColor::ColorMasked => "𝟛🆭"@,
                }
            } else {
                self.layout_text()
            },
    {
        if alternate {
            String::from_str(self.layout())
        } else {
            let mut s = String::from_str("mptrsz::kinds::CursorColor::");
            match self {
                CursorColor::Mono => s.append("𝟙"),
                CursorColor::ColorAlpha => s.append("𝟛α"),
                CursorColor::ColorMasked => s.append("𝟛🆭"),
            }
            s
        }
    }

    /// The layout of the kind's data, as text.
    pub open spec fn layout_text(&self) -> Seq<char> {
        match self {
            CursorColor::Mono => " 1𝑐   ·1𝑏⁄𝑐= 1𝑏⁄𝑝      DIB, ⋀AND + ⊻XOR 𝑏mask"@,
            CursorColor::ColorAlpha => "(3𝑐+α)·8𝑏⁄𝑐=32𝑏⁄𝑝 BGRα DIB, ⋀AND 𝑏mask + 4color 𝑏map"@,
            CursorColor::ColorMasked => "(3𝑐+🆭)·8𝑏⁄𝑐=32𝑏⁄𝑝 BGRα DIB, ⋀AND 𝑏mask + 3color 𝑏map + 🆭=0=⋀AND ¦🆭=255=⊻XOR 𝑏mask"@,
        }
    }

    /// The layout of the kind's data.
    pub fn layout(&self) -> (s: &'static str)
        ensures
            s@ == self.layout_text(),
    {
        match self {
            CursorColor::Mono => " 1𝑐   ·1𝑏⁄𝑐= 1𝑏⁄𝑝      DIB, ⋀AND + ⊻XOR 𝑏mask",
            CursorColor::ColorAlpha => "(3𝑐+α)·8𝑏⁄𝑐=32𝑏⁄𝑝 BGRα DIB, ⋀AND 𝑏mask + 4color 𝑏map",
            CursorColor::ColorMasked => "(3𝑐+🆭)·8𝑏⁄𝑐=32𝑏⁄𝑝 BGRα DIB, ⋀AND 𝑏mask + 3color 𝑏map + 🆭=0=⋀AND ¦🆭=255=⊻XOR 𝑏mask",
        }
    }
}

} // verus!
