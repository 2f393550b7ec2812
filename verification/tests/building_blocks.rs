use rustconv::image::{from_pixels, GrayImage};
use rustconv::kernel::{flatten_kernel, flip_kernel};
use rustconv::matrix::{get_submatrix, join_quadrants, pad_matrix, put_submatrix, quadrant};
use rustconv::plan::{plan_multiply, MulPlan};
use rustconv::pow2::{is_power_of_two, next_power_of_two};
use rustconv::tiling::{grid_dim, tiles};
use rustconv::tuning::select_fastest;
use rustconv::window::{im2col, im2col_columns, output_dimensions, window};

/// A `w` by `h` image whose sample at `(x, y)` is `y * w + x`.
fn ramp(w: u32, h: u32) -> GrayImage {
    let data: Vec<u8> = (0..(w * h)).map(|v| v as u8).collect();
    GrayImage::from_vec(w, h, data).unwrap()
}

#[test]
fn power_of_two_detection() {
    assert!(!is_power_of_two(0));
    assert!(is_power_of_two(1));
    assert!(is_power_of_two(2));
    assert!(is_power_of_two(1024));
    assert!(!is_power_of_two(3));
    assert!(!is_power_of_two(6));
    assert!(!is_power_of_two(12));
    assert!(is_power_of_two(usize::MAX / 2 + 1));
    assert!(!is_power_of_two(usize::MAX));
}

#[test]
fn smallest_power_of_two_at_least() {
    assert_eq!(next_power_of_two(0), 1);
    assert_eq!(next_power_of_two(1), 1);
    assert_eq!(next_power_of_two(2), 2);
    assert_eq!(next_power_of_two(3), 4);
    assert_eq!(next_power_of_two(5), 8);
    assert_eq!(next_power_of_two(8), 8);
    assert_eq!(next_power_of_two(1000), 1024);
    assert_eq!(next_power_of_two(usize::MAX / 2 + 1), usize::MAX / 2 + 1);
}

#[test]
fn multiplication_plans() {
    assert_eq!(plan_multiply(2, 3, 4, 1), MulPlan::Mismatch);
    assert_eq!(plan_multiply(2, 3, 3, 1), MulPlan::Naive);
    assert_eq!(plan_multiply(4, 4, 4, 4), MulPlan::Strassen);
    assert_eq!(plan_multiply(1, 1, 1, 1), MulPlan::Strassen);
    assert_eq!(plan_multiply(3, 3, 3, 3), MulPlan::Naive);
    assert_eq!(plan_multiply(4, 4, 4, 2), MulPlan::Naive);
    assert_eq!(plan_multiply(0, 0, 0, 0), MulPlan::Naive);
    assert_eq!(plan_multiply(9, 9, 9, 1), MulPlan::Naive);
}

#[test]
fn new_image_is_black() {
    let img = GrayImage::new(3, 2);
    assert_eq!(img.dimensions(), (3, 2));
    assert_eq!(img.as_raw(), &vec![0u8; 6]);
}

#[test]
fn from_vec_needs_enough_samples() {
    assert!(GrayImage::from_vec(3, 2, vec![1, 2, 3, 4, 5]).is_none());
    let img = GrayImage::from_vec(3, 2, vec![1, 2, 3, 4, 5, 6, 7]).unwrap();
    assert_eq!(img.width(), 3);
    assert_eq!(img.height(), 2);
    assert_eq!(img.get_pixel(2, 1), 6);
    assert_eq!(img.into_raw(), vec![1, 2, 3, 4, 5, 6, 7]);
    assert!(GrayImage::from_vec(0, 5, vec![]).is_some());
    assert!(GrayImage::from_vec(u32::MAX, u32::MAX, vec![0]).is_none());
}

#[test]
fn read_after_write() {
    let mut img = ramp(4, 3);
    img.put_pixel(1, 2, 200);
    assert_eq!(img.get_pixel(1, 2), 200);
    assert_eq!(img.get_pixel(2, 1), 6);
    assert_eq!(img.get_pixel(0, 0), 0);
    assert_eq!(img.get_pixel(3, 2), 11);
}

#[test]
fn pixel_by_pixel_assembly_matches_wrapping() {
    let buf: Vec<u8> = vec![9, 8, 7, 6, 5, 4];
    let a = from_pixels(3, 2, &buf);
    let b = GrayImage::from_vec(3, 2, buf.clone()).unwrap();
    assert_eq!(a.as_raw(), b.as_raw());
    let short = from_pixels(3, 2, &vec![1, 2]);
    assert_eq!(short.as_raw(), &vec![1, 2, 0, 0, 0, 0]);
}

#[test]
fn valid_output_size() {
    assert_eq!(output_dimensions(5, 4, 3, 3), (3, 2));
    assert_eq!(output_dimensions(3, 3, 3, 3), (1, 1));
    assert_eq!(output_dimensions(7, 7, 1, 2), (6, 7));
    assert_eq!(output_dimensions(4, 4, 2, 0), (5, 3));
}

#[test]
fn window_reads_row_by_row() {
    let img = ramp(4, 3);
    assert_eq!(window(&img, 1, 1, 2, 2), vec![5, 6, 9, 10]);
    assert_eq!(window(&img, 0, 0, 1, 4), vec![0, 1, 2, 3]);
    assert_eq!(window(&img, 3, 0, 3, 1), vec![3, 7, 11]);
    assert_eq!(window(&img, 2, 2, 0, 5), Vec::<u8>::new());
}

#[test]
fn im2col_rows_are_windows() {
    let img = ramp(4, 3);
    // 2x2 kernel: a 2 by 3 grid of output pixels.
    let m = im2col(&img, 2, 2, 2, 3);
    assert_eq!(m.len(), 2 * 3 * 4);
    assert_eq!(&m[0..4], &[0, 1, 4, 5]);
    assert_eq!(&m[4..8], &[1, 2, 5, 6]);
    assert_eq!(&m[8..12], &[2, 3, 6, 7]);
    assert_eq!(&m[12..16], &[4, 5, 8, 9]);
    assert_eq!(&m[20..24], &[6, 7, 10, 11]);
    for c in 0..6usize {
        let (x, y) = (c % 3, c / 3);
        assert_eq!(&m[c * 4..c * 4 + 4], window(&img, x, y, 2, 2).as_slice());
    }
}

#[test]
fn im2col_columns_is_transpose() {
    let img = ramp(4, 3);
    let m = im2col(&img, 2, 2, 2, 3);
    let t = im2col_columns(&img, 2, 2, 2, 3);
    assert_eq!(t.len(), m.len());
    for c in 0..6usize {
        for k in 0..4usize {
            assert_eq!(t[k * 6 + c], m[c * 4 + k]);
        }
    }
    assert_eq!(&t[0..6], &[0, 1, 2, 4, 5, 6]);
}

#[test]
fn kernel_flattening_and_flipping() {
    let r0: &[i32] = &[1, 2, 3];
    let r1: &[i32] = &[4, 5, 6];
    let k: Vec<&[i32]> = vec![r0, r1];
    assert_eq!(flatten_kernel(&k), vec![1, 2, 3, 4, 5, 6]);
    assert_eq!(flip_kernel(&k), vec![6, 5, 4, 3, 2, 1]);
    let ragged_a: &[i32] = &[7];
    let ragged_b: &[i32] = &[8, 9];
    let ragged: Vec<&[i32]> = vec![ragged_a, ragged_b];
    assert_eq!(flatten_kernel(&ragged), vec![7, 8, 9]);
    // The width of a flipped kernel is that of its first row.
    assert_eq!(flip_kernel(&ragged), vec![8, 7]);
    let flipped = flip_kernel(&k);
    let f0: &[i32] = &flipped[0..3];
    let f1: &[i32] = &flipped[3..6];
    assert_eq!(flip_kernel(&vec![f0, f1]), flatten_kernel(&k));
}

#[test]
fn tiles_cover_the_range() {
    assert_eq!(tiles(10, 4), vec![(0, 4), (4, 8), (8, 10)]);
    assert_eq!(tiles(8, 4), vec![(0, 4), (4, 8)]);
    assert_eq!(tiles(0, 4), vec![]);
    assert_eq!(tiles(3, 16), vec![(0, 3)]);
    let t = tiles(37, 5);
    for p in 0..37usize {
        let (s, e) = t[p / 5];
        assert!(s <= p && p < e);
    }
    assert_eq!(t.last().unwrap().1, 37);
}

#[test]
fn launch_grid_sizes() {
    assert_eq!(grid_dim(100, 16), 7);
    assert_eq!(grid_dim(96, 16), 6);
    assert_eq!(grid_dim(0, 16), 0);
    assert_eq!(grid_dim(1, 1), 1);
    assert_eq!(grid_dim(u32::MAX - 15, 16), 268_435_455);
}

#[test]
fn submatrix_round_trip() {
    let a: Vec<i32> = (0..16).collect();
    let q11 = get_submatrix(&a, 4, 0, 0, 2, 2);
    let q12 = get_submatrix(&a, 4, 0, 2, 2, 2);
    let q21 = get_submatrix(&a, 4, 2, 0, 2, 2);
    let q22 = get_submatrix(&a, 4, 2, 2, 2, 2);
    assert_eq!(q11, vec![0, 1, 4, 5]);
    assert_eq!(q12, vec![2, 3, 6, 7]);
    assert_eq!(q21, vec![8, 9, 12, 13]);
    assert_eq!(q22, vec![10, 11, 14, 15]);
    let mut c = vec![-1; 16];
    put_submatrix(&mut c, 4, 0, 0, 2, 2, &q11);
    put_submatrix(&mut c, 4, 0, 2, 2, 2, &q12);
    put_submatrix(&mut c, 4, 2, 0, 2, 2, &q21);
    put_submatrix(&mut c, 4, 2, 2, 2, 2, &q22);
    assert_eq!(c, a);
    let mut d = vec![0; 9];
    put_submatrix(&mut d, 3, 1, 1, 2, 1, &[5, 6]);
    assert_eq!(d, vec![0, 0, 0, 0, 5, 0, 0, 6, 0]);
    assert_eq!(get_submatrix(&d, 3, 1, 1, 2, 1), vec![5, 6]);
}

#[test]
fn padding_to_a_square() {
    let a = vec![vec![1, 2], vec![3, 4], vec![5, 6]];
    let p = pad_matrix(&a, 4, 0);
    assert_eq!(p, vec![vec![1, 2, 0, 0], vec![3, 4, 0, 0], vec![5, 6, 0, 0], vec![0, 0, 0, 0]]);
    let e: Vec<Vec<i32>> = vec![];
    assert_eq!(pad_matrix(&e, 2, 7), vec![vec![7, 7], vec![7, 7]]);
}

#[test]
fn quadrants_join_back() {
    let a: Vec<Vec<i32>> = (0..4).map(|i| (0..4).map(|j| i * 4 + j).collect()).collect();
    let a11 = quadrant(&a, 2, 0, 0);
    let a12 = quadrant(&a, 2, 0, 2);
    let a21 = quadrant(&a, 2, 2, 0);
    let a22 = quadrant(&a, 2, 2, 2);
    assert_eq!(a12, vec![vec![2, 3], vec![6, 7]]);
    assert_eq!(a21, vec![vec![8, 9], vec![12, 13]]);
    assert_eq!(join_quadrants(&a11, &a12, &a21, &a22, 4, -1), a);
    let odd = join_quadrants(&vec![vec![1]], &vec![vec![2]], &vec![vec![3]], &vec![vec![4]], 3, 0);
    assert_eq!(odd, vec![vec![1, 2, 0], vec![3, 4, 0], vec![0, 0, 0]]);
}

#[test]
fn fastest_configuration_wins() {
    assert_eq!(select_fastest(&[4u32, 8, 16, 32], &[90, 40, 40, 70], 4), 8);
    assert_eq!(select_fastest(&[4u32, 8, 16, 32], &[10, 40, 5, 5], 4), 16);
    assert_eq!(select_fastest(&[8usize, 16, 32], &[u128::MAX, u128::MAX, u128::MAX], 1), 1);
    let none: [usize; 0] = [];
    assert_eq!(select_fastest(&none, &[], 1), 1);
}
