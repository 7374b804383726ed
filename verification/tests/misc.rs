use mptrsz::bits::{get_bits, getb_row};
use mptrsz::error::CursorSizeErr;
use mptrsz::ffi::{err, maybe_cur_box, ret_error, tag_box};
use mptrsz::geometry::{cur_box, cur_box_to_screen, Point};
use mptrsz::kinds::CursorColor;
use mptrsz::pixel::{
    is_px3_black, is_px3_blackish, is_px3_dark, is_px3_grey, is_px3_light, is_px3_white, is_px3_whiteish,
    is_px4_black, is_px4_blackish, is_px4_grey_d, is_px4_grey_l, mono_glyph, shape_masked_glyph,
};
use mptrsz::rows::{parse_rows, RowsError};
use mptrsz::scale::{stretch_coord, stretch_index};

#[test]
fn format_error() {
    assert_eq!(CursorSizeErr::DXDupe("?u?".to_string()).message(), "DX Duplication error: ?u?");
}

#[test]
fn cursor_color_debug_display() {
    let b = CursorColor::Mono;
    let c = CursorColor::ColorMasked;
    let m = CursorColor::ColorAlpha;
    println!(
        "\n{}\n{}\n{:?}\n{}\n\n{}\n{}\n{:?}\n{}\n\n{}\n{}\n{:?}\n{}",
        b.label(false), b.label(true), b, b.layout(),
        c.label(false), c.label(true), c, c.layout(),
        m.label(false), m.label(true), m, m.layout()
    );
    assert_eq!(b.label(false), "🖰 𝐶:𝟙");
    assert_eq!(c.label(true), "🖰 𝐶:Masked");
    assert_eq!(m.label(true), "🖰 𝐶:All");
}

#[test]
fn error_messages() {
    assert_eq!(CursorSizeErr::Bitmap("x".to_string()).message(), "Failed parsing cursor bitmap: x");
    assert_eq!(CursorSizeErr::Ii("y".to_string()).message(), "IconInfo error: y");
    assert_eq!(CursorSizeErr::ResourceLeak("z".to_string()).message(), "🛑GDI resource leak!");
    let b = cur_box { ptl: Point { x: -12, y: 0 }, pbr: Point { x: 3, y: 2147483647 }, hs: Point { x: -2147483648, y: 9 } };
    assert_eq!(
        CursorSizeErr::BoxSzInvalid(b).message(),
        "Bounding box has invalid size: cur_box { ptl: Point { x: -12, y: 0 }, pbr: Point { x: 3, y: 2147483647 }, hs: Point { x: -2147483648, y: 9 } }"
    );
}

#[test]
fn bits_text() {
    assert_eq!(get_bits(5), "00000101 ");
    assert_eq!(get_bits(0xA0), "10100000 ");
    let mut s = String::from(">");
    getb_row(&[1, 255], &mut s);
    assert_eq!(s, ">00000001 11111111 ");
}

#[test]
fn box_to_screen_moves_hot_spot_onto_point() {
    let mut b = cur_box { ptl: Point { x: 2, y: 3 }, pbr: Point { x: 10, y: 20 }, hs: Point { x: 4, y: 4 } };
    cur_box_to_screen(&mut b, &Point { x: 100, y: -50 });
    assert_eq!(b, cur_box { ptl: Point { x: 98, y: -51 }, pbr: Point { x: 106, y: -34 }, hs: Point { x: 100, y: -50 } });
    // twice is once to the last point
    cur_box_to_screen(&mut b, &Point { x: 0, y: 0 });
    assert_eq!(b, cur_box { ptl: Point { x: -2, y: -1 }, pbr: Point { x: 6, y: 16 }, hs: Point { x: 0, y: 0 } });
}

#[test]
fn tagging_for_the_dll() {
    let b = cur_box { ptl: Point { x: 1, y: 1 }, pbr: Point { x: 2, y: 2 }, hs: Point { x: 1, y: 1 } };
    let m = tag_box(Ok(b), 0, Point { x: 11, y: 21 });
    assert_eq!(m.err, err::Okay);
    assert_eq!(m.cur_box.ptl, Point { x: 11, y: 21 });
    let m = tag_box(Ok(b), 1, Point { x: 11, y: 21 });
    assert_eq!(m.cur_box, b);
    let m = tag_box(Err(CursorSizeErr::Ii("no".to_string())), 0, Point { x: 0, y: 0 });
    assert_eq!(m, maybe_cur_box::default());
    assert_eq!(m.err, err::Er);
}

#[test]
fn error_buffer_is_truncated_and_nul_terminated() {
    let msg: Vec<u16> = "hello\0".encode_utf16().collect();
    let mut buf = vec![7u16; 6];
    ret_error(&msg, 6, &mut buf);
    assert_eq!(buf, vec![b'h' as u16, b'e' as u16, 0, 7, 7, 7]);
    let mut buf = vec![7u16; 20];
    ret_error(&msg, 20, &mut buf);
    assert_eq!(&buf[..6], &msg[..]);
    assert_eq!(buf[6], 7);
}

#[test]
fn pixel_shades() {
    assert!(is_px4_black(&[0, 0, 0, 255]));
    assert!(!is_px4_black(&[0, 0, 0, 254]));
    assert!(is_px4_blackish(&[3, 1, 2, 255]));
    assert!(is_px3_black(&[0, 0, 0]));
    assert!(is_px3_blackish(&[3, 3, 3]));
    assert!(!is_px3_blackish(&[4, 3, 3]));
    assert!(is_px3_white(&[255, 255, 255]));
    assert!(is_px3_whiteish(&[253, 254, 255]));
    assert!(!is_px3_whiteish(&[252, 254, 255]));
    assert!(is_px3_dark(&[84, 84, 84]));
    assert!(!is_px3_dark(&[85, 0, 0]));
    assert!(is_px3_light(&[171, 200, 255]));
    assert!(!is_px3_light(&[170, 200, 255]));
    assert!(is_px4_grey_d(&[0, 0, 0, 84]));
    assert!(is_px4_grey_l(&[0, 0, 0, 171]));
    assert!(is_px3_grey(&[9, 9, 9]));
    assert!(!is_px3_grey(&[9, 9, 8]));
}

#[test]
fn glyphs() {
    assert_eq!(mono_glyph(false, false), '■');
    assert_eq!(mono_glyph(false, true), '□');
    assert_eq!(mono_glyph(true, false), ' ');
    assert_eq!(mono_glyph(true, true), '◧');
    assert_eq!(shape_masked_glyph(&[0, 0, 0, 255]), ' ');
    assert_eq!(shape_masked_glyph(&[255, 255, 255, 255]), '◧');
    assert_eq!(shape_masked_glyph(&[255, 255, 255, 0]), '□');
    assert_eq!(shape_masked_glyph(&[1, 1, 1, 7]), 'ℯ');
}

#[test]
fn stretching() {
    assert_eq!(stretch_index(3, 2, 1), 5);
    assert_eq!(stretch_index(0, 48, 24), 0);
    assert_eq!(stretch_index(48, 48, 24), 72);
    assert_eq!(stretch_coord(-3, 2, 1), -5);
    assert_eq!(stretch_coord(7, 3, 0), 7);
}

#[test]
fn row_lists() {
    assert_eq!(parse_rows("1,2,3"), Ok(vec![1, 2, 3]));
    assert_eq!(parse_rows("+7"), Ok(vec![7]));
    assert_eq!(parse_rows("0012"), Ok(vec![12]));
    assert_eq!(parse_rows(""), Err(RowsError::Empty));
    assert_eq!(parse_rows("1,,2"), Err(RowsError::Empty));
    assert_eq!(parse_rows("1,"), Err(RowsError::Empty));
    assert_eq!(parse_rows("-1"), Err(RowsError::InvalidDigit));
    assert_eq!(parse_rows("+"), Err(RowsError::InvalidDigit));
    assert_eq!(parse_rows("1,x"), Err(RowsError::InvalidDigit));
    assert_eq!(parse_rows("99999999999999999999999,x"), Err(RowsError::PosOverflow));
    assert_eq!(RowsError::Empty.message(), "cannot parse integer from empty string");
    for s in ["12", "+3", "", "-", "+", "1a", "184467440737095516150"] {
        let ours = parse_rows(s).map(|v| v[0]).map_err(|e| e.message().to_string());
        let std = s.parse::<usize>().map_err(|e| e.to_string());
        assert_eq!(ours, std, "{s}");
    }
}
