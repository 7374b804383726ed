use mptrsz::error::CursorSizeErr;
use mptrsz::geometry::{cur_box, Point};
use mptrsz::shape::{get_mptr_sz, PointerShapeInfo, SHAPE_COLOR, SHAPE_MASKED_COLOR, SHAPE_MONOCHROME};

fn info(shape_type: u32, width: u32, height: u32, pitch: u32) -> PointerShapeInfo {
    PointerShapeInfo { shape_type, width, height, pitch, hot_spot: Point { x: 4, y: 5 } }
}

fn bx(l: i32, t: i32, r: i32, b: i32) -> cur_box {
    cur_box { ptl: Point { x: l, y: t }, pbr: Point { x: r, y: b }, hs: Point { x: 4, y: 5 } }
}

#[test]
fn monochrome_shape_counts_and_zero_and_xor_one() {
    let buf = [0xFF, 0b1011_1111, 0x00, 0b0000_0100];
    let r = get_mptr_sz(Some(info(SHAPE_MONOCHROME, 8, 4, 1)), &buf).unwrap();
    assert_eq!(r, bx(1, 1, 5, 1));
}

#[test]
fn color_shape_counts_non_zero_pixels() {
    let buf = [0, 0, 0, 0, 1, 2, 3, 4];
    let r = get_mptr_sz(Some(info(SHAPE_COLOR, 2, 1, 8)), &buf).unwrap();
    assert_eq!(r, bx(1, 0, 1, 0));
}

#[test]
fn masked_shape_skips_transparent_xor_black() {
    let buf = [0, 0, 0, 255, 9, 9, 9, 0, 7, 0, 0, 255, 0, 0, 0, 255];
    let r = get_mptr_sz(Some(info(SHAPE_MASKED_COLOR, 2, 2, 8)), &buf).unwrap();
    assert_eq!(r, bx(0, 0, 1, 1));
}

#[test]
fn empty_shape_reports_the_inverted_box() {
    let buf = [0u8; 8];
    match get_mptr_sz(Some(info(SHAPE_COLOR, 2, 1, 8)), &buf) {
        Err(CursorSizeErr::BoxSzInvalid(b)) => assert_eq!(b, bx(2, 1, 0, 0)),
        other => panic!("unexpected {:?}", other),
    }
}

#[test]
fn unknown_shape_kind_draws_nothing() {
    let buf = [0xFFu8; 8];
    match get_mptr_sz(Some(info(3, 2, 1, 8)), &buf) {
        Err(CursorSizeErr::BoxSzInvalid(b)) => assert_eq!(b, bx(2, 1, 0, 0)),
        other => panic!("unexpected {:?}", other),
    }
}

#[test]
fn no_shape_is_a_duplication_error() {
    match get_mptr_sz(None, &[]) {
        Err(e) => assert_eq!(e.message(), "DX Duplication error: Failed to capture pointer shape"),
        other => panic!("unexpected {:?}", other),
    }
}
