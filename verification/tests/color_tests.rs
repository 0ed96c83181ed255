use color_scheme_generator::color::hue_branch;
use color_scheme_generator::color::map_samples;
use color_scheme_generator::color::HueBranch;
use color_scheme_generator::matrix::Pixel;
use color_scheme_generator::matrix::PixelMatrix;

#[test]
fn gray_has_zero_delta() {
    assert_eq!(hue_branch(128, 128, 128), HueBranch::Gray);
    assert_eq!(hue_branch(0, 0, 0), HueBranch::Gray);
    assert_eq!(hue_branch(255, 255, 255), HueBranch::Gray);
}

#[test]
fn pure_primaries_pick_their_channel() {
    assert_eq!(hue_branch(255, 0, 0), HueBranch::FromRed);
    assert_eq!(hue_branch(0, 255, 0), HueBranch::FromGreen);
    assert_eq!(hue_branch(0, 0, 255), HueBranch::FromBlue);
}

#[test]
fn ties_break_red_then_green_then_blue() {
    assert_eq!(hue_branch(255, 255, 0), HueBranch::FromRed);
    assert_eq!(hue_branch(255, 0, 255), HueBranch::FromRed);
    assert_eq!(hue_branch(0, 255, 255), HueBranch::FromGreen);
}

#[test]
fn map_samples_keeps_dimensions_and_order() {
    let rows = vec![
        vec![Pixel(1u8, 2, 3), Pixel(4, 5, 6)],
        vec![Pixel(7, 8, 9), Pixel(10, 11, 12)],
        vec![Pixel(13, 14, 15), Pixel(16, 17, 18)],
    ];
    let m = PixelMatrix::from_rows(&rows).unwrap();
    let swapped = map_samples(&m, |Pixel(r, g, b)| Pixel(b, r, g));
    assert_eq!(swapped.dimensions(), m.dimensions());
    for y in 0..3 {
        for x in 0..2 {
            let Pixel(r, g, b) = rows[y][x];
            assert_eq!(swapped.get(x, y), Ok(Pixel(b, r, g)));
        }
    }
    // The same transform into floats keeps the dimensions too.
    let scaled = map_samples(&m, |Pixel(r, g, b)| {
        Pixel(r as f32 / 255.0, g as f32 / 255.0, b as f32 / 255.0)
    });
    assert_eq!(scaled.dimensions(), m.dimensions());
}

#[test]
fn branch_selection_is_deterministic() {
    for &(r, g, b) in &[(12, 200, 100), (200, 12, 100), (100, 200, 12), (1, 2, 3)] {
        assert_eq!(hue_branch(r, g, b), hue_branch(r, g, b));
    }
}
