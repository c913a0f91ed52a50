use block_motion::estimate::{check_inputs, estimate_motion, estimate_row, MotionError};
use block_motion::field::{block_count, encode_displacement, MotionField};
use block_motion::frame::Frame;
use block_motion::matching::{best_displacement, tile_cost};

fn frame_from(width: u32, height: u32, pixel: impl Fn(u32, u32) -> [u8; 3]) -> Frame {
    let mut data = Vec::new();
    for y in 0..height {
        for x in 0..width {
            data.extend_from_slice(&pixel(x, y));
        }
    }
    Frame::new(width, height, data).expect("three bytes per pixel")
}

/// A pattern in which every shift changes some channel; the last row and the
/// last column are black.
fn gradient(size: u32) -> impl Fn(u32, u32) -> [u8; 3] {
    move |x, y| {
        if x == size - 1 || y == size - 1 {
            [0, 0, 0]
        } else {
            [x as u8 + 1, y as u8 + 1, 7]
        }
    }
}

fn vectors(field: &MotionField) -> Vec<(i32, i32)> {
    let mut out = Vec::new();
    for by in 0..field.height() {
        for bx in 0..field.width() {
            out.push(field.vector(bx, by));
        }
    }
    out
}

#[test]
fn frame_rejects_wrong_length() {
    assert!(Frame::new(2, 2, vec![0; 11]).is_none());
    assert!(Frame::new(2, 2, vec![0; 13]).is_none());
    let f = Frame::new(2, 2, vec![0; 12]).unwrap();
    assert_eq!((f.width(), f.height()), (2, 2));
}

#[test]
fn frame_channel_reads_row_major() {
    let f = frame_from(3, 2, |x, y| [x as u8, y as u8, 9]);
    assert_eq!(f.channel(2, 1, 0), 2);
    assert_eq!(f.channel(2, 1, 1), 1);
    assert_eq!(f.channel(2, 1, 2), 9);
    assert_eq!(f.as_bytes()[3 * (3 + 2)], 2);
}

#[test]
fn block_count_rounds_up() {
    assert_eq!(block_count(32, 16), 2);
    assert_eq!(block_count(37, 16), 3);
    assert_eq!(block_count(1, 16), 1);
    assert_eq!(block_count(0, 16), 0);
    assert_eq!(block_count(u32::MAX, 1), u32::MAX);
}

#[test]
fn displacement_encoding_wraps_to_a_byte() {
    assert_eq!(encode_displacement(0), 0);
    assert_eq!(encode_displacement(5), 5);
    assert_eq!(encode_displacement(-1), 255);
    assert_eq!(encode_displacement(-128), 128);
    assert_eq!(encode_displacement(127), 127);
}

#[test]
fn tile_cost_sums_absolute_differences() {
    // In a 4x4 frame only pixels with x < 3 and y < 3 enter the reference block.
    let curr = frame_from(4, 4, |_, _| [10, 20, 30]);
    let prev = frame_from(4, 4, |_, _| [13, 20, 25]);
    // Same place: 9 positions differ by 3 + 0 + 5; the other 7 positions of the
    // 4x4 block compare zero against the candidate's pixels (13 + 20 + 25).
    assert_eq!(tile_cost(&prev, &curr, 4, 0, 0, 0, 0), 9 * 8 + 7 * 58);
    // Entirely outside the frame: the candidate is all zero.
    assert_eq!(tile_cost(&prev, &curr, 4, 0, 0, 10, 10), 9 * 60);
}

#[test]
fn field_size_is_rounded_up_block_grid() {
    let prev = frame_from(37, 21, |x, y| [x as u8, y as u8, 1]);
    let curr = frame_from(37, 21, |x, y| [y as u8, x as u8, 2]);
    let mut field = MotionField::new();
    assert_eq!(estimate_motion(&prev, &curr, &mut field, 16, 2), Ok(()));
    assert_eq!((field.width(), field.height()), (3, 2));
    assert_eq!(field.as_bytes().len(), 3 * 2 * 3);
    for (dx, dy) in vectors(&field) {
        assert!((-2..2).contains(&dx) && (-2..2).contains(&dy));
    }
}

#[test]
fn field_is_resized_only_when_the_grid_changes() {
    let a = frame_from(32, 32, |x, y| [x as u8, y as u8, 3]);
    let b = frame_from(48, 16, |x, y| [x as u8, y as u8, 3]);
    let mut field = MotionField::new();
    estimate_motion(&a, &a, &mut field, 16, 1).unwrap();
    assert_eq!((field.width(), field.height()), (2, 2));
    estimate_motion(&b, &b, &mut field, 16, 1).unwrap();
    assert_eq!((field.width(), field.height()), (3, 1));
    estimate_motion(&b, &b, &mut field, 8, 1).unwrap();
    assert_eq!((field.width(), field.height()), (6, 2));
}

#[test]
fn estimate_is_deterministic() {
    let prev = frame_from(40, 24, |x, y| [(x * 5 + y) as u8, (y * 3) as u8, (x ^ y) as u8]);
    let curr = frame_from(40, 24, |x, y| [(x * 5 + y + 2) as u8, (y * 3 + 1) as u8, (x & y) as u8]);
    let mut first = MotionField::new();
    let mut second = MotionField::new();
    estimate_motion(&prev, &curr, &mut first, 16, 3).unwrap();
    estimate_motion(&prev, &curr, &mut second, 16, 3).unwrap();
    assert_eq!(first.as_bytes(), second.as_bytes());
    estimate_motion(&prev, &curr, &mut second, 16, 3).unwrap();
    assert_eq!(first.as_bytes(), second.as_bytes());
}

#[test]
fn identical_frames_give_zero_motion_inside() {
    let f = frame_from(48, 48, gradient(48));
    let mut field = MotionField::new();
    estimate_motion(&f, &f, &mut field, 16, 2).unwrap();
    assert_eq!(field.vector(1, 1), (0, 0));
    // With black last row and column the edge blocks match in place too.
    for v in vectors(&field) {
        assert_eq!(v, (0, 0));
    }
}

#[test]
fn edge_block_ignores_last_row_and_column() {
    // The reference block never holds the frame's last row and column, so on a
    // uniform 16x16 frame the candidate shifted by (1, 1) matches exactly.
    let f = frame_from(16, 16, |_, _| [100, 100, 100]);
    let mut field = MotionField::new();
    estimate_motion(&f, &f, &mut field, 16, 2).unwrap();
    assert_eq!(field.vector(0, 0), (1, 1));
    assert_eq!(field.as_bytes(), &[1, 1, 0]);
}

#[test]
fn non_multiple_sizes_are_searched_safely() {
    let prev = frame_from(17, 33, |x, y| [(x * 11) as u8, (y * 13) as u8, 200]);
    let curr = frame_from(17, 33, |x, y| [(x * 11 + 3) as u8, (y * 13) as u8, 190]);
    let mut field = MotionField::new();
    assert_eq!(estimate_motion(&prev, &curr, &mut field, 16, 128), Ok(()));
    assert_eq!((field.width(), field.height()), (2, 3));
    for (dx, dy) in vectors(&field) {
        assert!((-128..128).contains(&dx) && (-128..128).contains(&dy));
    }
}

#[test]
fn ties_go_to_the_first_displacement_in_scan_order() {
    // Every candidate of the middle block lies inside a uniform frame, so all
    // cost zero: the first one tried, (-2, -2), wins.
    let f = frame_from(48, 48, |_, _| [50, 60, 70]);
    assert_eq!(best_displacement(&f, &f, 16, 16, 16, 2), (-2, -2));
    let mut field = MotionField::new();
    estimate_motion(&f, &f, &mut field, 16, 2).unwrap();
    assert_eq!(field.vector(1, 1), (-2, -2));
    let i = 3 * (3 + 1);
    assert_eq!(&field.as_bytes()[i..i + 3], &[254, 254, 0]);
}

#[test]
fn tie_between_two_candidates_keeps_the_earlier() {
    // A pattern of period 2 along x: for the block at (4, 4) exactly the
    // displacements (-2, 0) and (0, 0) cost nothing; (-2, 0) is tried first.
    let f = frame_from(16, 16, |x, y| [(x % 2) as u8 * 100 + 1, (y * 10) as u8 + 1, 3]);
    for dy in -2..2i64 {
        for dx in -2..2i64 {
            let cost = tile_cost(&f, &f, 4, 4, 4, 4 + dx, 4 + dy);
            assert_eq!(cost == 0, dy == 0 && (dx == -2 || dx == 0));
        }
    }
    assert_eq!(best_displacement(&f, &f, 4, 4, 4, 2), (-2, 0));
    let mut field = MotionField::new();
    estimate_motion(&f, &f, &mut field, 4, 2).unwrap();
    assert_eq!(field.vector(1, 1), (-2, 0));
}

#[test]
fn shifted_corner_block_is_found() {
    let prev = frame_from(32, 32, gradient(32));
    let shifted = gradient(32);
    let curr = frame_from(32, 32, |x, y| {
        if x >= 16 && y >= 16 {
            shifted((x + 1).min(31), y)
        } else {
            shifted(x, y)
        }
    });
    let mut field = MotionField::new();
    assert_eq!(estimate_motion(&prev, &curr, &mut field, 16, 2), Ok(()));
    assert_eq!((field.width(), field.height()), (2, 2));
    assert_eq!(field.vector(0, 0), (0, 0));
    assert_eq!(field.vector(1, 0), (0, 0));
    assert_eq!(field.vector(0, 1), (0, 0));
    assert_eq!(field.vector(1, 1), (1, 0));
    assert_eq!(field.as_bytes(), &[0, 0, 0, 0, 0, 0, 0, 0, 0, 1, 0, 0]);
}

#[test]
fn zero_radius_gives_zero_vectors() {
    let prev = frame_from(20, 20, |x, y| [x as u8, y as u8, 0]);
    let curr = frame_from(20, 20, |x, y| [y as u8, x as u8, 9]);
    let mut field = MotionField::new();
    estimate_motion(&prev, &curr, &mut field, 8, 0).unwrap();
    assert_eq!(field.as_bytes(), &[0u8; 3 * 3 * 3][..]);
    estimate_motion(&prev, &curr, &mut field, 8, -4).unwrap();
    assert_eq!(field.as_bytes(), &[0u8; 3 * 3 * 3][..]);
}

#[test]
fn bad_block_size_is_refused() {
    let f = frame_from(8, 8, |_, _| [1, 2, 3]);
    let mut field = MotionField::new();
    assert_eq!(estimate_motion(&f, &f, &mut field, 0, 2), Err(MotionError::BlockSize));
    assert_eq!(estimate_motion(&f, &f, &mut field, 1025, 2), Err(MotionError::BlockSize));
    assert_eq!(check_inputs(&f, &f, 1024, 2), Ok(()));
    assert_eq!((field.width(), field.height()), (0, 0));
}

#[test]
fn large_search_radius_is_refused() {
    let f = frame_from(8, 8, |_, _| [1, 2, 3]);
    let mut field = MotionField::new();
    assert_eq!(estimate_motion(&f, &f, &mut field, 4, 129), Err(MotionError::SearchRadius));
    assert_eq!(estimate_motion(&f, &f, &mut field, 4, 128), Ok(()));
}

#[test]
fn mismatched_frames_are_refused_and_field_kept() {
    let a = frame_from(16, 16, |x, y| [x as u8, y as u8, 0]);
    let b = frame_from(16, 8, |x, y| [x as u8, y as u8, 0]);
    let mut field = MotionField::new();
    estimate_motion(&a, &a, &mut field, 8, 1).unwrap();
    let before = field.as_bytes().to_vec();
    assert_eq!(estimate_motion(&a, &b, &mut field, 8, 1), Err(MotionError::SizeMismatch));
    assert_eq!(field.as_bytes(), &before[..]);
    assert_eq!((field.width(), field.height()), (2, 2));
}

#[test]
fn rows_agree_with_the_whole_field() {
    let prev = frame_from(40, 24, |x, y| [(x * 7) as u8, (y * 5) as u8, (x + y) as u8]);
    let curr = frame_from(40, 24, |x, y| [(x * 7 + 7) as u8, (y * 5) as u8, (x + y + 1) as u8]);
    let mut field = MotionField::new();
    estimate_motion(&prev, &curr, &mut field, 16, 3).unwrap();
    let mut rows = Vec::new();
    for by in 0..field.height() {
        rows.extend(estimate_row(&prev, &curr, 16, 3, by));
    }
    assert_eq!(field.as_bytes(), &rows[..]);
}
