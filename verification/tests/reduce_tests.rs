use color_scheme_generator::matrix::MatrixError;
use color_scheme_generator::matrix::Pixel;
use color_scheme_generator::matrix::PixelMatrix;
use color_scheme_generator::reduce::WindowReducer;

fn uniform(width: usize, height: usize, v: u8) -> PixelMatrix<u8> {
    let data = vec![Pixel(v, v, v); width * height];
    PixelMatrix::new(width, height, data).unwrap()
}

#[test]
fn uniform_average_is_identity_valued() {
    let m = uniform(4, 4, 10);
    let out = WindowReducer::average(&m, 2, 2).unwrap();
    assert_eq!(out.dimensions(), (2, 2));
    for y in 0..2 {
        for x in 0..2 {
            assert_eq!(out.get(x, y), Ok(Pixel(10, 10, 10)));
        }
    }
}

#[test]
fn zero_window_is_rejected() {
    let m = uniform(4, 4, 10);
    assert_eq!(WindowReducer::average(&m, 0, 2).unwrap_err(), MatrixError::InvalidParameter);
}

#[test]
fn zero_stride_is_rejected() {
    let m = uniform(4, 4, 10);
    assert_eq!(WindowReducer::average(&m, 2, 0).unwrap_err(), MatrixError::InvalidParameter);
}

#[test]
fn empty_matrix_averages_to_empty_matrix() {
    let m = PixelMatrix::<u8>::new(0, 0, Vec::new()).unwrap();
    let out = WindowReducer::average(&m, 3, 1).unwrap();
    assert_eq!(out.dimensions(), (0, 0));
}

#[test]
fn mean_truncates_toward_zero() {
    // One 2x2 window; channel sums are 11, 7, and 13, so the truncated means
    // are 2, 1, and 3.
    let data = vec![Pixel(1, 1, 2), Pixel(2, 2, 3), Pixel(3, 1, 3), Pixel(5, 3, 5)];
    let m = PixelMatrix::new(2, 2, data).unwrap();
    let out = WindowReducer::average(&m, 2, 2).unwrap();
    assert_eq!(out.dimensions(), (1, 1));
    assert_eq!(out.get(0, 0), Ok(Pixel(2, 1, 3)));
}

#[test]
fn overlapping_windows_when_stride_is_smaller() {
    // Two identical rows of red values 0, 40, 100 with window 2 and stride 1:
    // two overlapping windows with means 20 and 70.
    let row = vec![Pixel(0, 0, 0), Pixel(40, 0, 0), Pixel(100, 0, 0)];
    let m = PixelMatrix::from_rows(&vec![row.clone(), row]).unwrap();
    let out = WindowReducer::average(&m, 1, 1).unwrap();
    assert_eq!(out.dimensions(), (3, 2));
    let out = WindowReducer::average(&m, 2, 1).unwrap();
    assert_eq!(out.dimensions(), (2, 1));
    assert_eq!(out.get(0, 0), Ok(Pixel(20, 0, 0)));
    assert_eq!(out.get(1, 0), Ok(Pixel(70, 0, 0)));
}

#[test]
fn trailing_partial_windows_are_dropped() {
    // Width 5 with window 2, stride 2: origins 0 and 2 fit, the partial
    // window at 4 is dropped, so column 4 never shows in the output.
    let mut data = Vec::new();
    for y in 0..4 {
        for x in 0..5 {
            let v = if x == 4 { 255 } else { (10 * (y + 1)) as u8 };
            data.push(Pixel(v, v, v));
        }
    }
    let m = PixelMatrix::new(5, 4, data).unwrap();
    let out = WindowReducer::average(&m, 2, 2).unwrap();
    assert_eq!(out.dimensions(), (2, 2));
    assert_eq!(out.get(0, 0), Ok(Pixel(15, 15, 15)));
    assert_eq!(out.get(1, 0), Ok(Pixel(15, 15, 15)));
    assert_eq!(out.get(0, 1), Ok(Pixel(35, 35, 35)));
    assert_eq!(out.get(1, 1), Ok(Pixel(35, 35, 35)));
}

#[test]
fn window_wider_than_matrix_yields_no_cells() {
    let m = uniform(2, 2, 9);
    let out = WindowReducer::average(&m, 3, 1).unwrap();
    assert_eq!(out.dimensions(), (0, 0));
}

#[test]
fn window_taller_than_one_axis_yields_empty_axis() {
    let m = uniform(1, 5, 9);
    let out = WindowReducer::average(&m, 2, 1).unwrap();
    assert_eq!(out.dimensions(), (0, 4));
}

#[test]
fn stride_can_skip_input() {
    // Stride 3 with window 1 on a 4x1 row: samples 0 and 3 only.
    let data = vec![Pixel(5, 0, 0), Pixel(50, 0, 0), Pixel(100, 0, 0), Pixel(200, 0, 0)];
    let m = PixelMatrix::new(4, 1, data).unwrap();
    let out = WindowReducer::average(&m, 1, 3).unwrap();
    assert_eq!(out.dimensions(), (2, 1));
    assert_eq!(out.get(0, 0), Ok(Pixel(5, 0, 0)));
    assert_eq!(out.get(1, 0), Ok(Pixel(200, 0, 0)));
}
