//! Pixel values and their classification into dark, light and grey shades.
use vstd::prelude::*;

verus! {

/// A fully transparent BGRα pixel.
pub const px0: [u8; 4] = [0, 0, 0, 0];
/// A pixel with every channel at its maximum.
pub const px1: [u8; 4] = [255, 255, 255, 255];
/// Some cursor editors store this in place of `px1`.
pub const px_1: [u8; 4] = [254, 254, 254, 254];
/// Mask value of a colour-masked pixel whose RGB replaces the screen pixel.
pub const cmask_rep: u8 = 0;
/// Mask value of a colour-masked pixel whose RGB is XORed with the screen pixel.
pub const cmask_xor: u8 = 255;
/// Upper bound (exclusive) of a dark channel, about the bottom third of 255.
pub const cdark: u8 = 85;
/// Lower bound (exclusive) of a light channel, about the top third of 255.
pub const clight: u8 = 170;

/// Pure black with a full α channel.
pub open spec fn spec_px4_black(px: Seq<u8>) -> bool {
    px[0] == 0 && px[1] == 0 && px[2] == 0 && px[3] == 255
}

/// Nearly black (each colour channel below 4) with a full α channel.
pub open spec fn spec_px4_blackish(px: Seq<u8>) -> bool {
    px[0] < 4 && px[1] < 4 && px[2] < 4 && px[3] == 255
}

/// Pure black colour channels.
pub open spec fn spec_px3_black(px: Seq<u8>) -> bool {
    px[0] == 0 && px[1] == 0 && px[2] == 0
}

/// Each colour channel below 4.
pub open spec fn spec_px3_blackish(px: Seq<u8>) -> bool {
    px[0] < 4 && px[1] < 4 && px[2] < 4
}

/// Pure white colour channels.
pub open spec fn spec_px3_white(px: Seq<u8>) -> bool {
    px[0] == 255 && px[1] == 255 && px[2] == 255
}

/// Each colour channel above 252.
pub open spec fn spec_px3_whiteish(px: Seq<u8>) -> bool {
    px[0] > 252 && px[1] > 252 && px[2] > 252
}

/// Each colour channel below `cdark`.
pub open spec fn spec_px3_dark(px: Seq<u8>) -> bool {
    px[0] < cdark && px[1] < cdark && px[2] < cdark
}

/// Each colour channel above `clight`.
pub open spec fn spec_px3_light(px: Seq<u8>) -> bool {
    px[0] > clight && px[1] > clight && px[2] > clight
}

/// Black colour channels with a low α: a dark grey once blended.
pub open spec fn spec_px4_grey_d(px: Seq<u8>) -> bool {
    px[0] == 0 && px[1] == 0 && px[2] == 0 && px[3] < cdark
}

/// Black colour channels with a high α: a light grey once blended.
pub open spec fn spec_px4_grey_l(px: Seq<u8>) -> bool {
    px[0] == 0 && px[1] == 0 && px[2] == 0 && px[3] > clight
}

/// All three colour channels equal.
pub open spec fn spec_px3_grey(px: Seq<u8>) -> bool {
    px[0] == px[1] && px[1] == px[2]
}

pub fn is_px4_black(px: &[u8]) -> (r: bool)
    requires px@.len() >= 4,
    ensures r == spec_px4_black(px@),
{
    px[0] == 0 && px[1] == 0 && px[2] == 0 && px[3] == 255
}

pub fn is_px4_blackish(px: &[u8]) -> (r: bool)
    requires px@.len() >= 4,
    ensures r == spec_px4_blackish(px@),
{
    px[0] < 4 && px[1] < 4 && px[2] < 4 && px[3] == 255
}

pub fn is_px3_black(px: &[u8]) -> (r: bool)
    requires px@.len() >= 3,
    ensures r == spec_px3_black(px@),
{
    px[0] == 0 && px[1] == 0 && px[2] == 0
}

pub fn is_px3_blackish(px: &[u8]) -> (r: bool)
    requires px@.len() >= 3,
    ensures r == spec_px3_blackish(px@),
{
    px[0] < 4 && px[1] < 4 && px[2] < 4
}

pub fn is_px3_white(px: &[u8]) -> (r: bool)
    requires px@.len() >= 3,
    ensures r == spec_px3_white(px@),
{
    px[0] == 255 && px[1] == 255 && px[2] == 255
}

pub fn is_px3_whiteish(px: &[u8]) -> (r: bool)
    requires px@.len() >= 3,
    ensures r == spec_px3_whiteish(px@),
{
    px[0] > 252 && px[1] > 252 && px[2] > 252
}

pub fn is_px3_dark(px: &[u8]) -> (r: bool)
    requires px@.len() >= 3,
    ensures r == spec_px3_dark(px@),
{
    px[0] < cdark && px[1] < cdark && px[2] < cdark
}

pub fn is_px3_light(px: &[u8]) -> (r: bool)
    requires px@.len() >= 3,
    ensures r == spec_px3_light(px@),
{
    px[0] > clight && px[1] > clight && px[2] > clight
}

pub fn is_px4_grey_d(px: &[u8]) -> (r: bool)
    requires px@.len() >= 4,
    ensures r == spec_px4_grey_d(px@),
{
    px[0] == 0 && px[1] == 0 && px[2] == 0 && px[3] < cdark
}

pub fn is_px4_grey_l(px: &[u8]) -> (r: bool)
    requires px@.len() >= 4,
    ensures r == spec_px4_grey_l(px@),
{
    px[0] == 0 && px[1] == 0 && px[2] == 0 && px[3] > clight
}

pub fn is_px3_grey(px: &[u8]) -> (r: bool)
    requires px@.len() >= 3,
    ensures r == spec_px3_grey(px@),
{
    px[0] == px[1] && px[1] == px[2]
}

/// The glyph of a pixel whose colour replaces the screen: black, nearly
/// black, dark, white, nearly white, light, grey, or another colour.
pub open spec fn spec_shade_glyph(px: Seq<u8>) -> char {
    if spec_px3_black(px) { '█' }
    else if spec_px3_blackish(px) { '▇' }
    else if spec_px3_dark(px) { '▓' }
    else if spec_px3_white(px) { '□' }
    else if spec_px3_whiteish(px) { '◻' }
    else if spec_px3_light(px) { '░' }
    else if spec_px3_grey(px) { '▒' }
    else { '•' }
}

/// The glyph of a pixel whose colour replaces the screen.
pub fn shade_glyph(px: &[u8]) -> (g: char)
    requires px@.len() >= 3,
    ensures g == spec_shade_glyph(px@),
{
    if is_px3_black(px) { '█' }
    else if is_px3_blackish(px) { '▇' }
    else if is_px3_dark(px) { '▓' }
    else if is_px3_white(px) { '□' }
    else if is_px3_whiteish(px) { '◻' }
    else if is_px3_light(px) { '░' }
    else if is_px3_grey(px) { '▒' }
    else { '•' }
}

/// The four bytes are all `v`.
pub open spec fn spec_all4(px: Seq<u8>, v: u8) -> bool {
    px.len() == 4 && px[0] == v && px[1] == v && px[2] == v && px[3] == v
}

fn all4(px: &[u8], v: u8) -> (b: bool)
    ensures b == spec_all4(px@, v),
{
    px.len() == 4 && px[0] == v && px[1] == v && px[2] == v && px[3] == v
}

/// The glyph of a pixel of a colour bitmap without α, as drawn on its own:
/// blank when zero, `⎅` when all 255 (or all 254, as some editors store it),
/// else its shade.
pub open spec fn spec_xor_glyph(px: Seq<u8>) -> char {
    if spec_all4(px, 0) { ' ' }
    else if spec_all4(px, 255) || spec_all4(px, 254) { '⎅' }
    else { spec_shade_glyph(px) }
}

/// The glyph of a pixel of a colour bitmap without α, as drawn on its own.
pub fn xor_glyph(px: &[u8]) -> (g: char)
    requires px@.len() >= 3,
    ensures g == spec_xor_glyph(px@),
{
    if all4(px, 0) { ' ' }
    else if all4(px, 255) || all4(px, 254) { '⎅' }
    else { shade_glyph(px) }
}

/// The glyph of a pixel of a cursor with an AND mask and a colour bitmap
/// without α: over AND 0 the colour replaces the screen (a zero colour is
/// black), over AND 1 a non-zero colour changes the screen (`◧`), a zero one
/// leaves it (blank).
pub open spec fn spec_masked_pixel_glyph(and_bit: bool, px: Seq<u8>) -> char {
    if !and_bit {
        if spec_all4(px, 0) { '█' } else { spec_shade_glyph(px) }
    } else {
        if spec_all4(px, 0) { ' ' } else { '◧' }
    }
}

/// The glyph of a pixel of a cursor with an AND mask and a colour bitmap without α.
pub fn masked_pixel_glyph(and_bit: bool, px: &[u8]) -> (g: char)
    requires px@.len() >= 3,
    ensures g == spec_masked_pixel_glyph(and_bit, px@),
{
    if !and_bit {
        if all4(px, 0) { '█' } else { shade_glyph(px) }
    } else {
        if all4(px, 0) { ' ' } else { '◧' }
    }
}

/// The glyph of a pixel of a colour bitmap with α: blank when transparent,
/// else dark, light or another shade.
pub open spec fn spec_alpha_glyph(px: Seq<u8>) -> char {
    if spec_all4(px, 0) || px[3] == 0 { ' ' }
    else if spec_px3_dark(px) { '▓' }
    else if spec_px3_light(px) { '░' }
    else { '•' }
}

/// The glyph of a pixel of a colour bitmap with α.
pub fn alpha_glyph(px: &[u8]) -> (g: char)
    requires px@.len() >= 4,
    ensures g == spec_alpha_glyph(px@),
{
    if all4(px, 0) || px[3] == 0 { ' ' }
    else if is_px3_dark(px) { '▓' }
    else if is_px3_light(px) { '░' }
    else { '•' }
}

/// The glyph of a pixel of a monochrome cursor: AND 0 paints black (XOR 0)
/// or white (XOR 1), AND 1 leaves the screen (XOR 0) or inverts it (XOR 1).
pub open spec fn spec_mono_glyph(and_bit: bool, xor_bit: bool) -> char {
    if !and_bit && !xor_bit { '■' }
    else if !and_bit && xor_bit { '□' }
    else if and_bit && !xor_bit { ' ' }
    else { '◧' }
}

/// The glyph of a pixel of a monochrome cursor.
pub fn mono_glyph(and_bit: bool, xor_bit: bool) -> (g: char)
    ensures g == spec_mono_glyph(and_bit, xor_bit),
{
    if !and_bit && !xor_bit { '■' }
    else if !and_bit && xor_bit { '□' }
    else if and_bit && !xor_bit { ' ' }
    else { '◧' }
}

/// The glyph of a pixel of a captured colour shape: blank when zero, `⎅`
/// when all 255, then black and grey shades with their α, then its colour's shade.
pub open spec fn spec_shape_color_glyph(px: Seq<u8>) -> char {
    if spec_all4(px, 0) { ' ' }
    else if spec_all4(px, 255) { '⎅' }
    else if spec_px4_black(px) { '█' }
    else if spec_px4_blackish(px) { '▇' }
    else if spec_px4_grey_d(px) { '▓' }
    else if spec_px4_grey_l(px) { '▒' }
    else if spec_px3_dark(px) { '▓' }
    else if spec_px3_white(px) { '□' }
    else if spec_px3_whiteish(px) { '◻' }
    else if spec_px3_light(px) { '░' }
    else if spec_px3_grey(px) { '▒' }
    else { '•' }
}

/// The glyph of a pixel of a captured colour shape.
pub fn shape_color_glyph(px: &[u8]) -> (g: char)
    requires px@.len() >= 4,
    ensures g == spec_shape_color_glyph(px@),
{
    if all4(px, 0) { ' ' }
    else if all4(px, 255) { '⎅' }
    else if is_px4_black(px) { '█' }
    else if is_px4_blackish(px) { '▇' }
    else if is_px4_grey_d(px) { '▓' }
    else if is_px4_grey_l(px) { '▒' }
    else if is_px3_dark(px) { '▓' }
    else if is_px3_white(px) { '□' }
    else if is_px3_whiteish(px) { '◻' }
    else if is_px3_light(px) { '░' }
    else if is_px3_grey(px) { '▒' }
    else { '•' }
}

/// The glyph of a pixel of a captured masked colour shape: mask 0 replaces
/// the screen with the colour's shade; mask 255 XORs, which changes nothing
/// for black (blank) and changes the screen otherwise (`◧`); any other mask
/// value is invalid (`ℯ`).
pub open spec fn spec_shape_masked_glyph(px: Seq<u8>) -> char {
    if px[3] == cmask_rep { spec_shade_glyph(px) }
    else if px[3] == cmask_xor { if spec_px3_black(px) { ' ' } else { '◧' } }
    else { 'ℯ' }
}

/// The glyph of a pixel of a captured masked colour shape.
pub fn shape_masked_glyph(px: &[u8]) -> (g: char)
    requires px@.len() >= 4,
    ensures g == spec_shape_masked_glyph(px@),
{
    if px[3] == cmask_rep { shade_glyph(px) }
    else if px[3] == cmask_xor { if is_px3_black(px) { ' ' } else { '◧' } }
    else { 'ℯ' }
}

/// A monochrome pixel's glyph is blank exactly when the pixel leaves the
/// screen unchanged (AND 1, XOR 0), the one case the measurement does not count.
pub proof fn lemma_mono_glyph_blank(and_bit: bool, xor_bit: bool)
    ensures
        (spec_mono_glyph(and_bit, xor_bit) == ' ') <==> !(!and_bit || xor_bit),
{
}

/// A pixel of a colour cursor without α has a blank glyph exactly when the
/// measurement does not count it: AND 1 over a zero colour.
pub proof fn lemma_masked_pixel_glyph_blank(and_bit: bool, px: Seq<u8>)
    requires
        px.len() == 4,
    ensures
        (spec_masked_pixel_glyph(and_bit, px) == ' ') <==> !(!and_bit || !spec_all4(px, 0)),
{
}

/// A pixel of a colour cursor without α is drawn `◧` (it changes the screen
/// by XOR) exactly when its AND bit is 1 and its colour bytes are not all
/// zero; a pixel that replaces the screen (AND 0) is drawn with a shade,
/// never `◧` and never blank.
pub proof fn lemma_masked_pixel_glyph_inverts(and_bit: bool, px: Seq<u8>)
    requires
        px.len() == 4,
    ensures
        (spec_masked_pixel_glyph(and_bit, px) == '◧') <==> (and_bit && (px[0] != 0 || px[1] != 0 || px[2] != 0
            || px[3] != 0)),
        !and_bit ==> spec_masked_pixel_glyph(and_bit, px) != ' ',
{
}

/// A pixel of a captured masked colour shape with a valid mask (0 or 255)
/// has a blank glyph exactly when the measurement does not count it.
pub proof fn lemma_shape_masked_glyph_blank(px: Seq<u8>)
    requires
        px.len() == 4,
        px[3] == cmask_rep || px[3] == cmask_xor,
    ensures
        (spec_shape_masked_glyph(px) == ' ') <==> !(px[3] == 0 || (px[3] == 255 && !spec_px3_black(px))),
{
}

/// A pixel of a captured colour shape has a blank glyph exactly when all four
/// bytes are zero, the one case the measurement does not count.
pub proof fn lemma_shape_color_glyph_blank(px: Seq<u8>)
    requires
        px.len() == 4,
    ensures
        (spec_shape_color_glyph(px) == ' ') <==> spec_all4(px, 0),
{
}

/// A pixel of a colour bitmap with α has a blank glyph exactly when its α is
/// zero, the one case the measurement does not count.
pub proof fn lemma_alpha_glyph_blank(px: Seq<u8>)
    requires
        px.len() == 4,
    ensures
        (spec_alpha_glyph(px) == ' ') <==> px[3] == 0,
{
}

/// The shades nest: black is blackish, blackish is dark, white is whiteish,
/// whiteish is light; a dark pixel is never light; black with full α is black.
pub proof fn lemma_shades_nest(px: Seq<u8>)
    requires px.len() >= 4,
    ensures
        spec_px4_black(px) ==> spec_px4_blackish(px) && spec_px3_black(px),
        spec_px4_blackish(px) ==> spec_px3_blackish(px),
        spec_px3_black(px) ==> spec_px3_blackish(px) && spec_px3_grey(px),
        spec_px3_blackish(px) ==> spec_px3_dark(px),
        spec_px3_white(px) ==> spec_px3_whiteish(px) && spec_px3_grey(px),
        spec_px3_whiteish(px) ==> spec_px3_light(px),
        !(spec_px3_dark(px) && spec_px3_light(px)),
        !(spec_px4_grey_d(px) && spec_px4_grey_l(px)),
        spec_px4_grey_d(px) || spec_px4_grey_l(px) ==> spec_px3_black(px),
{
}

} // verus!
