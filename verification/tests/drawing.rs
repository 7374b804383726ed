use mptrsz::drawing::{draw_and_mask, draw_color, draw_masked, draw_mono, draw_mono_masks, draw_shape, is_shape_drawable};
use mptrsz::geometry::Point;
use mptrsz::kinds::CursorColor;
use mptrsz::shape::{PointerShapeInfo, SHAPE_COLOR, SHAPE_MONOCHROME};
use mptrsz::text::push_padded;

const AND_TITLE: &str = "——— ⋀AND Mono◧ bitmask 1≝ 0Δ• ———¦\n";

/// AND rows 0..2 above XOR rows 2..4, 8 pixels wide, 2 bytes a line.
fn mono_bits() -> Vec<u8> {
    vec![0b1110_0111, 0x00, 0xFF, 0xFF, 0x00, 0x00, 0b0000_0001, 0x00]
}

#[test]
fn mono_cursor_drawing_applies_both_masks() {
    let s = draw_mono(&mono_bits(), 2, 8, 2);
    let expected = "¦——— ⋀AND + ⊻XOR Mono◧ bitmask 00•=■black 01••□white 11=•◧inverted🖵 ␠transparent🖵 ———¦\n".to_string()
        + "¦   ■■   ¦ №0\n"
        + "¦       ◧¦ №1\n";
    assert_eq!(s, expected);
}

#[test]
fn mono_masks_drawn_one_after_the_other() {
    let s = draw_mono_masks(&mono_bits(), 2, 4, 1);
    let expected = format!("¦{AND_TITLE}¦   ••   ••••••••¦ №0\n")
        + "¦                ¦ №1\n"
        + "¦——— ⊻XOR Mono◧ bitmask 0≝ 1Δ• ———¦\n¦                ¦ №0\n"
        + "¦       •        ¦ №1\n";
    assert_eq!(s, expected);
}

#[test]
fn and_mask_drawing_with_accessibility_note() {
    let s = draw_and_mask(&[0b0011_1111, 0xFF], 2, 1, 1, 1, true);
    let expected = format!("{AND_TITLE}——— (likely nonsensical since 🮰sz Accessibility Size > 1)¦\n")
        + "¦••              ¦ №0\n";
    assert_eq!(s, expected);
    let s = draw_and_mask(&[0b0011_1111, 0xFF], 2, 1, 1, 12, false);
    assert_eq!(s, format!("{AND_TITLE}¦••              ¦ № 0\n"));
}

#[test]
fn color_drawings_with_and_without_alpha() {
    let buf = [0, 0, 0, 0, 255, 255, 255, 255, 9, 9, 9, 0, 255, 255, 255, 0];
    let s = draw_color(&buf, 16, 1, 4, false);
    assert_eq!(s, "——— ⊻XOR Color bitmap 0≝ 1Δ• ———¦\n¦ ⎅▓□¦ №0\n");
    let s = draw_color(&buf, 16, 1, 4, true);
    assert_eq!(s, "——— Color 𝑏map ■dark¦□light¦•other ———\n¦ ░  ¦ №0\n");
}

#[test]
fn masked_drawing_shows_black_over_and_zero() {
    let title = "¦——— ⋀AND Mono◧ 𝑏mask + ⊻XOR Color 0𝑐_••→■dark¦□light¦•other 1𝑐_␠•_◧inverted🖵¦␠transparent🖵¦⊻XORed🖵 ———¦\n";
    let color = [0, 0, 0, 0, 9, 9, 9, 0];
    let s = draw_masked(&[0b0011_1111, 0xFF], 2, &color, 8, 2, 1);
    assert_eq!(s, format!("{title}¦█▓¦ №0\n"));
    let s = draw_masked(&[0b1011_1111, 0xFF], 2, &color, 8, 2, 1);
    assert_eq!(s, format!("{title}¦ ▓¦ №0\n"));
}

#[test]
fn shape_drawings() {
    let color = PointerShapeInfo { shape_type: SHAPE_COLOR, width: 2, height: 1, pitch: 8, hot_spot: Point { x: 0, y: 0 } };
    let buf = [0, 0, 0, 0, 255, 255, 255, 255];
    assert!(is_shape_drawable(&color, buf.len()));
    assert_eq!(draw_shape(&color, &buf), "¦ ⎅¦ №0\n");

    let mono = PointerShapeInfo { shape_type: SHAPE_MONOCHROME, width: 8, height: 2, pitch: 1, hot_spot: Point { x: 0, y: 0 } };
    let buf = [0b0111_1111, 0b1000_0000];
    assert!(is_shape_drawable(&mono, buf.len()));
    let expected = format!("¦{AND_TITLE}¦•       ¦ №0\n") + "¦———  ⊻XOR Mono◧ bitmask 0≝ 1Δ• ———¦\n¦•       ¦ №1\n";
    assert_eq!(draw_shape(&mono, &buf), expected);

    let other = PointerShapeInfo { shape_type: 3, width: 2, height: 1, pitch: 8, hot_spot: Point { x: 0, y: 0 } };
    assert_eq!(draw_shape(&other, &[1, 2, 3, 4]), "");
}

#[test]
fn cursor_color_debug_text() {
    assert_eq!(CursorColor::Mono.debug_text(false), "mptrsz::kinds::CursorColor::𝟙");
    assert_eq!(CursorColor::ColorAlpha.debug_text(false), "mptrsz::kinds::CursorColor::𝟛α");
    assert_eq!(CursorColor::ColorMasked.debug_text(false), "mptrsz::kinds::CursorColor::𝟛🆭");
    assert_eq!(CursorColor::Mono.debug_text(true), CursorColor::Mono.layout());
}

#[test]
fn padded_numbers() {
    let mut s = String::new();
    push_padded(7, 3, &mut s);
    push_padded(1234, 2, &mut s);
    assert_eq!(s, "  71234");
}
