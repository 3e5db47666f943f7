use dni_clock::buf2d::Vec2d;
use dni_clock::colors::{from_u8_rgb, to_u8_rgb, BG, FG};

fn numbered(width: usize, height: usize) -> Vec2d<u32> {
    let mut b = Vec2d::new(0u32, width, height);
    for y in 0..height {
        for x in 0..width {
            b.set(x, y, (100 * y + x) as u32);
        }
    }
    b
}

#[test]
fn new_fills_every_cell() {
    let b = Vec2d::new(7u32, 3, 2);
    assert_eq!(b.width(), 3);
    assert_eq!(b.height(), 2);
    assert_eq!(b.as_1d(), &[7, 7, 7, 7, 7, 7]);
    assert!(b.is_wf());
}

#[test]
fn zero_width_is_empty() {
    let b = Vec2d::new(7u32, 0, 5);
    assert_eq!(b.width(), 0);
    assert_eq!(b.height(), 0);
    assert!(b.as_1d().is_empty());
    let d: Vec2d<u32> = Vec2d::default();
    assert_eq!(d.width(), 0);
    assert_eq!(d.height(), 0);
}

#[test]
fn get_after_set_returns_value_and_leaves_others() {
    let mut b = Vec2d::new(0u32, 4, 3);
    b.set(2, 1, 9);
    assert_eq!(b.get(2, 1), 9);
    for y in 0..3 {
        for x in 0..4 {
            if (x, y) != (2, 1) {
                assert_eq!(b.get(x, y), 0);
            }
        }
    }
    assert_eq!(b.as_1d()[1 * 4 + 2], 9);
}

#[test]
fn rows_are_contiguous_slices() {
    let mut b = numbered(3, 2);
    assert_eq!(b.row(1), &[100, 101, 102]);
    b.row_mut(0)[1] = 55;
    assert_eq!(b.row(0), &[0, 55, 2]);
    assert_eq!(b.get(1, 0), 55);
}

#[test]
fn copy_overwrites_footprint_only() {
    let mut dst = Vec2d::new(1u32, 5, 4);
    let src = numbered(2, 3);
    dst.copy_to_from(2, 1, &src);
    for y in 0..4 {
        for x in 0..5 {
            let inside = (2..4).contains(&x) && (1..4).contains(&y);
            if inside {
                assert_eq!(dst.get(x, y), src.get(x - 2, y - 1));
            } else {
                assert_eq!(dst.get(x, y), 1);
            }
        }
    }
}

#[test]
fn copy_if_always_true_matches_copy() {
    let mut a = numbered(4, 4);
    let mut b = numbered(4, 4);
    let src = Vec2d::new(9u32, 2, 2);
    a.copy_to_from(1, 2, &src);
    b.copy_to_from_if(1, 2, &src, |_| true);
    assert_eq!(a.as_1d(), b.as_1d());
}

#[test]
fn copy_if_always_false_leaves_destination() {
    let mut a = numbered(4, 4);
    let before = a.as_1d().to_vec();
    let src = Vec2d::new(9u32, 2, 2);
    a.copy_to_from_if(0, 0, &src, |_| false);
    assert_eq!(a.as_1d(), &before[..]);
}

#[test]
fn copy_if_tests_current_destination_value() {
    let mut a = numbered(3, 1);
    let src = Vec2d::new(9u32, 3, 1);
    a.copy_to_from_if(0, 0, &src, |v| v % 2 == 0);
    assert_eq!(a.as_1d(), &[9, 1, 9]);
}

#[test]
fn pack_and_unpack_colors() {
    assert_eq!(from_u8_rgb(0x12, 0x34, 0x56), 0x0012_3456);
    assert_eq!(to_u8_rgb(0xAA12_3456), (0x12, 0x34, 0x56));
    assert_eq!(to_u8_rgb(from_u8_rgb(1, 2, 3)), (1, 2, 3));
}

#[test]
fn background_is_zero_and_foreground_is_white() {
    assert_eq!(BG, 0);
    assert_eq!(FG, from_u8_rgb(255, 255, 255));
}
