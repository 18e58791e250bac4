//! The image compositor: strip placement, clipping, transparency and
//! dimming.

use raycaster::fx::Fx;
use raycaster::mat2::Vec2x;
use raycaster::render::{dim_color, ImageColumn};
use raycaster::texture::VerticalImage;

const WHITE: u32 = 255 * 65536 + 255 * 256 + 255;

fn solid_image(w: usize, h: usize, px: Option<[u8; 3]>) -> VerticalImage {
    VerticalImage::from_parts(w, h, vec![px; w * h]).unwrap()
}

#[test]
fn strip_inside_screen_writes_exact_rows() {
    // Destination 0.25..0.75 of a 100-row column: rows 25..=74.
    let col = ImageColumn::new(0, 1, 100);
    let img = solid_image(1, 1, Some([255, 255, 255]));
    let mut buf: Vec<u32> = vec![0; 100];
    col.draw_partial_image(
        &mut buf,
        &img,
        0,
        Fx::from_raw(0),
        Fx::from_int(1),
        Fx::from_raw(16384),
        Fx::from_raw(49152),
        Fx::from_int(1),
    );
    for row in 0..100 {
        if (25..=74).contains(&row) {
            assert_eq!(buf[row], WHITE, "row {} should be written", row);
        } else {
            assert_eq!(buf[row], 0, "row {} should stay background", row);
        }
    }
}

#[test]
fn strip_below_screen_clips_and_shrinks_crop() {
    // Destination -0.5..0.5: clipped to row 0, and the crop window loses
    // exactly its first half, so only the source's lower half is drawn.
    let col = ImageColumn::new(0, 1, 100);
    let mut pixels: Vec<Option<[u8; 3]>> = Vec::new();
    pixels.push(Some([200, 0, 0]));
    pixels.push(Some([0, 0, 200]));
    let img = VerticalImage::from_parts(1, 2, pixels).unwrap();
    let mut buf: Vec<u32> = vec![7; 100];
    col.draw_partial_image(
        &mut buf,
        &img,
        0,
        Fx::from_raw(0),
        Fx::from_int(1),
        Fx::from_raw(-32768),
        Fx::from_raw(32768),
        Fx::from_int(1),
    );
    let blue: u32 = 200;
    for row in 0..100 {
        if row < 50 {
            assert_eq!(buf[row], blue, "row {} should sample the second source row", row);
        } else {
            assert_eq!(buf[row], 7, "row {} should stay background", row);
        }
    }
}

#[test]
fn strip_fully_off_screen_draws_nothing() {
    let col = ImageColumn::new(0, 1, 50);
    let img = solid_image(1, 1, Some([255, 255, 255]));
    let mut buf: Vec<u32> = vec![3; 50];
    col.draw_partial_image(
        &mut buf,
        &img,
        0,
        Fx::from_raw(0),
        Fx::from_int(1),
        Fx::from_int(-3),
        Fx::from_int(-1),
        Fx::from_int(1),
    );
    assert!(buf.iter().all(|&p| p == 3));
    col.draw_partial_image(
        &mut buf,
        &img,
        0,
        Fx::from_raw(0),
        Fx::from_int(1),
        Fx::from_int(2),
        Fx::from_int(3),
        Fx::from_int(1),
    );
    assert!(buf.iter().all(|&p| p == 3));
}

#[test]
fn transparent_pixels_are_skipped() {
    let col = ImageColumn::new(0, 1, 40);
    let img = solid_image(1, 1, None);
    let mut buf: Vec<u32> = vec![9; 40];
    col.draw_partial_image(
        &mut buf,
        &img,
        0,
        Fx::from_raw(0),
        Fx::from_int(1),
        Fx::from_raw(0),
        Fx::from_int(1),
        Fx::from_int(1),
    );
    assert!(buf.iter().all(|&p| p == 9));
}

#[test]
fn other_columns_stay_untouched() {
    // Column 1 of a 3-wide buffer: columns 0 and 2 keep their contents.
    let col = ImageColumn::new(1, 3, 10);
    let img = solid_image(1, 1, Some([10, 20, 30]));
    let mut buf: Vec<u32> = vec![5; 30];
    col.draw_partial_image(
        &mut buf,
        &img,
        0,
        Fx::from_raw(0),
        Fx::from_int(1),
        Fx::from_raw(0),
        Fx::from_int(1),
        Fx::from_int(1),
    );
    for row in 0..10 {
        assert_eq!(buf[row * 3], 5);
        assert_eq!(buf[row * 3 + 2], 5);
        if row < 9 {
            assert_eq!(buf[row * 3 + 1], 10 * 65536 + 20 * 256 + 30);
        }
    }
}

#[test]
fn textured_span_interpolates_both_coordinates() {
    // A 1-wide, 2-tall bitmap: red on top, blue below. Sweeping the
    // vertical texture coordinate from 0 to 1 down a 10-row column paints
    // the upper rows red and the lower rows blue; the last row stays
    // clamped off, as in the row-range convention of the strip drawer.
    let mut pixels: Vec<Option<[u8; 3]>> = Vec::new();
    pixels.push(Some([200, 0, 0]));
    pixels.push(Some([0, 0, 200]));
    let img = VerticalImage::from_parts(1, 2, pixels).unwrap();
    let col = ImageColumn::new(0, 1, 10);
    let mut buf: Vec<u32> = vec![7; 10];
    col.draw_uv_row(
        &mut buf,
        &img,
        Vec2x::new(Fx::from_raw(0), Fx::from_raw(0)),
        Vec2x::new(Fx::from_raw(0), Fx::from_int(1)),
        Fx::from_raw(0),
        Fx::from_int(1),
        Fx::from_int(1),
    );
    let red: u32 = 200 * 65536;
    let blue: u32 = 200;
    for row in 0..10 {
        if row < 5 {
            assert_eq!(buf[row], red, "row {} samples the top of the bitmap", row);
        } else if row < 9 {
            assert_eq!(buf[row], blue, "row {} samples the bottom of the bitmap", row);
        } else {
            assert_eq!(buf[row], 7, "the clamped last row stays background");
        }
    }
}

#[test]
fn dim_color_quadratic_red_green_linear_blue() {
    // Half brightness: red and green scale by a quarter, blue by a half.
    let half = Fx::from_raw(32768);
    let (r, g, b, a) = dim_color((200, 100, 80, 255), half);
    assert_eq!(r, 50);
    assert_eq!(g, 25);
    assert_eq!(b, 40);
    assert_eq!(a, 0);
    let full = Fx::from_int(1);
    assert_eq!(dim_color((7, 8, 9, 255), full), (7, 8, 9, 0));
    let off = Fx::from_raw(0);
    assert_eq!(dim_color((255, 255, 255, 255), off), (0, 0, 0, 0));
}
