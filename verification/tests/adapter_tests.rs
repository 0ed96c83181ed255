use color_scheme_generator::adapter::matrix_from_decoded;
use color_scheme_generator::adapter::matrix_to_encodable;
use color_scheme_generator::matrix::Pixel;

#[test]
fn decoded_buffer_becomes_row_major_matrix() {
    let buf = vec![1, 2, 3, 4, 5, 6, 7, 8, 9, 10, 11, 12];
    let m = matrix_from_decoded(&buf, 2, 2);
    assert_eq!(m.dimensions(), (2, 2));
    assert_eq!(m.get(0, 0), Ok(Pixel(1, 2, 3)));
    assert_eq!(m.get(1, 0), Ok(Pixel(4, 5, 6)));
    assert_eq!(m.get(0, 1), Ok(Pixel(7, 8, 9)));
    assert_eq!(m.get(1, 1), Ok(Pixel(10, 11, 12)));
}

#[test]
fn adapter_round_trips_byte_buffers() {
    let buf: Vec<u8> = (0..30).map(|i| (i * 7 % 256) as u8).collect();
    let m = matrix_from_decoded(&buf, 5, 2);
    assert_eq!(matrix_to_encodable(&m), buf);
}

#[test]
fn empty_buffer_round_trips() {
    let buf: Vec<u8> = Vec::new();
    let m = matrix_from_decoded(&buf, 0, 0);
    assert_eq!(m.dimensions(), (0, 0));
    assert_eq!(matrix_to_encodable(&m), buf);
}

#[test]
fn encoding_is_row_major_three_bytes_per_pixel() {
    let rows = vec![vec![Pixel(9, 8, 7), Pixel(6, 5, 4)]];
    let m = color_scheme_generator::matrix::PixelMatrix::from_rows(&rows).unwrap();
    assert_eq!(matrix_to_encodable(&m), vec![9, 8, 7, 6, 5, 4]);
}
