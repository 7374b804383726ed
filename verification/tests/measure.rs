use mptrsz::bitmap::{measure_mcursor_bm, BitmapBits, BitmapInfo, BitsReread};
use mptrsz::error::CursorSizeErr;
use mptrsz::geometry::{cur_box, Point};
use mptrsz::kinds::{cursor_color, CursorColor};

fn bm(width: i32, width_bytes: i32, height: i32, bits_pixel: u16, bits: Vec<u8>) -> BitmapBits {
    let info = BitmapInfo { width, width_bytes, height, bits_pixel };
    assert_eq!(info.buffer_size(), bits.len());
    BitmapBits { info, object_bytes: 32, bits, copied_bytes: 1 }
}

fn bx(l: i32, t: i32, r: i32, b: i32, hx: i32, hy: i32) -> cur_box {
    cur_box { ptl: Point { x: l, y: t }, pbr: Point { x: r, y: b }, hs: Point { x: hx, y: hy } }
}

/// AND rows 0..2 above XOR rows 2..4, 8 pixels wide, 2 bytes a line.
fn mono_mask() -> BitmapBits {
    bm(8, 2, 4, 1, vec![0b1110_0111, 0x00, 0xFF, 0xFF, 0x00, 0x00, 0b0000_0001, 0x00])
}

#[test]
fn mono_box_holds_black_white_and_inverted_pixels() {
    let r = measure_mcursor_bm(&mono_mask(), None, None, Point { x: 1, y: 1 }, 1).unwrap();
    assert_eq!(r, bx(3, 0, 7, 1, 1, 1));
}

#[test]
fn mono_box_stretched_for_accessibility_size_two() {
    // half the height of a 2-row mask is added: a factor of 1.5, halves rounded up
    let r = measure_mcursor_bm(&mono_mask(), None, None, Point { x: 1, y: 1 }, 2).unwrap();
    assert_eq!(r, bx(5, 0, 11, 2, 2, 2));
}

#[test]
fn mono_box_stretched_for_accessibility_size_three() {
    // factor 2 on an even height
    let r = measure_mcursor_bm(&mono_mask(), None, None, Point { x: -3, y: 1 }, 3).unwrap();
    assert_eq!(r, bx(6, 0, 14, 2, -6, 2));
}

#[test]
fn mono_blank_cursor_is_an_error() {
    let blank = bm(8, 2, 4, 1, vec![0xFF, 0xFF, 0xFF, 0xFF, 0, 0, 0, 0]);
    match measure_mcursor_bm(&blank, None, None, Point { x: 0, y: 0 }, 1) {
        Err(CursorSizeErr::Ii(m)) => assert_eq!(m, "bounding box is invalid, is the cursor blank?"),
        other => panic!("unexpected {:?}", other),
    }
}

#[test]
fn mono_failed_reads_are_errors() {
    let mut m = mono_mask();
    m.object_bytes = 0;
    match measure_mcursor_bm(&m, None, None, Point { x: 0, y: 0 }, 1) {
        Err(CursorSizeErr::Bitmap(s)) => assert_eq!(s, "Mono: ‘GetObjectW’ got no bytes for the 𝑏mask buffer"),
        other => panic!("unexpected {:?}", other),
    }
    let mut m = mono_mask();
    m.copied_bytes = 0;
    match measure_mcursor_bm(&m, None, None, Point { x: 0, y: 0 }, 1) {
        Err(CursorSizeErr::Bitmap(s)) => assert_eq!(s, "Mono: ‘GetBitmapBits’ copied no bytes from 𝑏mask"),
        other => panic!("unexpected {:?}", other),
    }
}

fn and_mask() -> BitmapBits {
    bm(2, 2, 2, 1, vec![0; 4])
}

/// An AND mask of 1 bits: no pixel replaces the screen.
fn and_mask_ones() -> BitmapBits {
    bm(2, 2, 2, 1, vec![0xFF; 4])
}

#[test]
fn masked_color_box_holds_non_zero_pixels() {
    let color = bm(2, 8, 2, 32, vec![0, 0, 0, 0, 255, 255, 255, 0, 0, 0, 0, 0, 0, 0, 0, 0]);
    assert_eq!(cursor_color(Some(&color)), CursorColor::ColorMasked);
    let r = measure_mcursor_bm(&and_mask_ones(), Some(&color), None, Point { x: 0, y: 0 }, 1).unwrap();
    assert_eq!(r, bx(1, 0, 1, 0, 0, 0));
    // under AND 0 every pixel replaces the screen, the zero ones with black
    let r = measure_mcursor_bm(&and_mask(), Some(&color), None, Point { x: 0, y: 0 }, 1).unwrap();
    assert_eq!(r, bx(0, 0, 1, 1, 0, 0));
}

#[test]
fn masked_color_black_pixel_on_the_edge_counts() {
    // 2×1: AND bits 0,0; colours [0,0,0,0] (black over AND 0) and [9,9,9,0]
    let mask = bm(2, 2, 1, 1, vec![0b0011_1111, 0xFF]);
    let color = bm(2, 8, 1, 32, vec![0, 0, 0, 0, 9, 9, 9, 0]);
    let r = measure_mcursor_bm(&mask, Some(&color), None, Point { x: 0, y: 0 }, 1).unwrap();
    assert_eq!(r, bx(0, 0, 1, 0, 0, 0));
    // with AND 1 the zero pixel leaves the screen as it is
    let mask = bm(2, 2, 1, 1, vec![0b1011_1111, 0xFF]);
    let r = measure_mcursor_bm(&mask, Some(&color), None, Point { x: 0, y: 0 }, 1).unwrap();
    assert_eq!(r, bx(1, 0, 1, 0, 0, 0));
}

#[test]
fn alpha_color_box_holds_pixels_with_alpha() {
    let color = bm(2, 8, 2, 32, vec![0, 0, 0, 0, 255, 255, 255, 0, 10, 10, 10, 128, 0, 0, 0, 0]);
    assert_eq!(cursor_color(Some(&color)), CursorColor::ColorAlpha);
    let rr = BitsReread { bits: color.bits.clone(), copied_bytes: 16 };
    let r = measure_mcursor_bm(&and_mask(), Some(&color), Some(&rr), Point { x: 0, y: 0 }, 1).unwrap();
    assert_eq!(r, bx(0, 1, 0, 1, 0, 0));
}

#[test]
fn alpha_color_measures_the_second_read() {
    let color = bm(2, 8, 2, 32, vec![0, 0, 0, 0, 255, 255, 255, 0, 10, 10, 10, 128, 0, 0, 0, 0]);
    let rr = BitsReread { bits: vec![0, 0, 0, 0, 1, 1, 1, 7, 0, 0, 0, 0, 0, 0, 0, 0], copied_bytes: 16 };
    let r = measure_mcursor_bm(&and_mask(), Some(&color), Some(&rr), Point { x: 0, y: 0 }, 1).unwrap();
    assert_eq!(r, bx(1, 0, 1, 0, 0, 0));
}

#[test]
fn alpha_color_failed_second_read_is_an_error() {
    let color = bm(2, 8, 2, 32, vec![0, 0, 0, 0, 255, 255, 255, 0, 10, 10, 10, 128, 0, 0, 0, 0]);
    let rr = BitsReread { bits: vec![0; 16], copied_bytes: 0 };
    match measure_mcursor_bm(&and_mask(), Some(&color), Some(&rr), Point { x: 0, y: 0 }, 1) {
        Err(CursorSizeErr::Bitmap(s)) => assert_eq!(s, "Colorα: ‘GetBitmapBits’ copied no bytes from the color 𝑏map"),
        other => panic!("unexpected {:?}", other),
    }
}

#[test]
fn color_failed_reads_are_errors_in_order() {
    let color = bm(2, 8, 2, 32, vec![0; 16]);
    let mut mask = and_mask();
    mask.object_bytes = -1;
    let mut c2 = bm(2, 8, 2, 32, vec![0; 16]);
    c2.object_bytes = 0;
    match measure_mcursor_bm(&mask, Some(&c2), None, Point { x: 0, y: 0 }, 1) {
        Err(CursorSizeErr::Bitmap(s)) => {
            assert_eq!(s, "Colorμ: ‘GetObjectW’ copied no bytes for the monochrome 𝑏mask buffer")
        }
        other => panic!("unexpected {:?}", other),
    }
    match measure_mcursor_bm(&and_mask(), Some(&c2), None, Point { x: 0, y: 0 }, 1) {
        Err(CursorSizeErr::Bitmap(s)) => assert_eq!(s, "Colorμ: ‘GetObjectW’ copied no bytes for the color 𝑏map buffer"),
        other => panic!("unexpected {:?}", other),
    }
    let mut mask = and_mask();
    mask.copied_bytes = 0;
    match measure_mcursor_bm(&mask, Some(&color), None, Point { x: 0, y: 0 }, 1) {
        Err(CursorSizeErr::Bitmap(s)) => {
            assert_eq!(s, "Colorμ: ‘GetBitmapBits’ copied no bytes from the monochrome 𝑏mask")
        }
        other => panic!("unexpected {:?}", other),
    }
    let mut c3 = bm(2, 8, 2, 32, vec![0; 16]);
    c3.copied_bytes = 0;
    match measure_mcursor_bm(&and_mask(), Some(&c3), None, Point { x: 0, y: 0 }, 1) {
        Err(CursorSizeErr::Bitmap(s)) => assert_eq!(s, "Colorμ: ‘GetBitmapBits’ copied no bytes from the color 𝑏map"),
        other => panic!("unexpected {:?}", other),
    }
    match measure_mcursor_bm(&and_mask_ones(), Some(&color), None, Point { x: 0, y: 0 }, 1) {
        Err(CursorSizeErr::Ii(_)) => {}
        other => panic!("unexpected {:?}", other),
    }
}

#[test]
fn monochrome_kind_without_color_bitmap() {
    assert_eq!(cursor_color(None), CursorColor::Mono);
}
