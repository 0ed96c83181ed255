//! Windowed averaging: box-filter downsampling of an 8-bit matrix. Each output
//! sample is the integer-truncated mean of one `window` by `window` block of
//! input samples; window origins step by `stride` along each axis, and windows
//! that would extend past the matrix edge are dropped entirely.

use vstd::prelude::*;

use vstd::arithmetic::div_mod::lemma_div_by_multiple;
use vstd::arithmetic::div_mod::lemma_div_is_ordered;
use vstd::arithmetic::div_mod::lemma_div_nonincreasing;
use vstd::arithmetic::div_mod::lemma_div_pos_is_pos;
use vstd::arithmetic::div_mod::lemma_fundamental_div_mod;
use vstd::arithmetic::div_mod::lemma_mod_bound;
use vstd::arithmetic::mul::lemma_mul_inequality;
use vstd::arithmetic::mul::lemma_mul_nonnegative;
use vstd::arithmetic::mul::lemma_mul_strictly_positive;

use crate::matrix::lemma_row_major_bound;
use crate::matrix::pix_at;
use crate::matrix::MatrixError;
use crate::matrix::Pixel;
use crate::matrix::PixelMatrix;

verus! {

/// Selects a sample channel by index: 0 for the first, 1 for the second, any
/// other index for the third.
pub open spec fn channel(p: Pixel<u8>, c: int) -> int {
    if c == 0 {
        p.0 as int
    } else if c == 1 {
        p.1 as int
    } else {
        p.2 as int
    }
}

/// Sum of channel `c` over the first `n` samples of row `y`, starting at
/// column `x0`, in a row-major sequence of width `w`.
pub open spec fn row_sum(s: Seq<Pixel<u8>>, w: int, y: int, x0: int, n: int, c: int) -> int
    decreases n,
{
    if n <= 0 {
        0
    } else {
        row_sum(s, w, y, x0, n - 1, c) + channel(pix_at(s, w, x0 + n - 1, y), c)
    }
}

/// Sum of channel `c` over the first `rows` rows of a `window`-wide block with
/// origin `(x0, y0)`.
pub open spec fn window_sum(
    s: Seq<Pixel<u8>>,
    w: int,
    x0: int,
    y0: int,
    window: int,
    rows: int,
    c: int,
) -> int
    decreases rows,
{
    if rows <= 0 {
        0
    } else {
        window_sum(s, w, x0, y0, window, rows - 1, c) + row_sum(s, w, y0 + rows - 1, x0, window, c)
    }
}

/// The output sample for the window with origin `(x0, y0)`: each channel is
/// the window's channel sum divided by `window * window`, truncating.
pub open spec fn window_mean(s: Seq<Pixel<u8>>, w: int, x0: int, y0: int, window: int) -> Pixel<
    u8,
> {
    let denom = window * window;
    (Pixel(
        (window_sum(s, w, x0, y0, window, window, 0) / denom) as u8,
        (window_sum(s, w, x0, y0, window, window, 1) / denom) as u8,
        (window_sum(s, w, x0, y0, window, window, 2) / denom) as u8,
    ))
}

/// How many window origins fit along an axis of length `size`: zero when even
/// the first window does not fit, else one per full stride step.
pub open spec fn out_dim(size: int, window: int, stride: int) -> int {
    if size >= window {
        (size - window) / stride + 1
    } else {
        0
    }
}

/// A channel's row sum over `n` samples lies between 0 and `255 * n`.
pub proof fn lemma_row_sum_bounds(s: Seq<Pixel<u8>>, w: int, y: int, x0: int, n: int, c: int)
    requires
        0 <= n,
    ensures
        0 <= row_sum(s, w, y, x0, n, c) <= 255 * n,
    decreases n,
{
    if n > 0 {
        lemma_row_sum_bounds(s, w, y, x0, n - 1, c);
    }
}

/// A channel's window sum over `rows` rows of width `window` lies between 0
/// and `255 * (window * rows)`.
pub proof fn lemma_window_sum_bounds(
    s: Seq<Pixel<u8>>,
    w: int,
    x0: int,
    y0: int,
    window: int,
    rows: int,
    c: int,
)
    requires
        0 <= window,
        0 <= rows,
    ensures
        0 <= window_sum(s, w, x0, y0, window, rows, c) <= 255 * (window * rows),
    decreases rows,
{
    if rows > 0 {
        lemma_window_sum_bounds(s, w, x0, y0, window, rows - 1, c);
        lemma_row_sum_bounds(s, w, y0 + rows - 1, x0, window, c);
        assert(255 * (window * (rows - 1)) + 255 * window == 255 * (window * rows))
            by (nonlinear_arith);
    } else {
        assert(255 * (window * 0) == 0) by (nonlinear_arith);
    }
}

/// A partial accumulation (full rows plus part of the next row) stays at least
/// one sample short of the full window bound.
proof fn lemma_partial_sum_bound(
    s: Seq<Pixel<u8>>,
    w: int,
    x0: int,
    y0: int,
    y: int,
    window: int,
    wy: int,
    wx: int,
    c: int,
)
    requires
        0 <= wy < window,
        0 <= wx < window,
    ensures
        0 <= window_sum(s, w, x0, y0, window, wy, c) + row_sum(s, w, y, x0, wx, c),
        window_sum(s, w, x0, y0, window, wy, c) + row_sum(s, w, y, x0, wx, c) + 255 <= 255 * (
        window * window),
{
    lemma_window_sum_bounds(s, w, x0, y0, window, wy, c);
    lemma_row_sum_bounds(s, w, y, x0, wx, c);
    assert(255 * (window * wy) + 255 * wx + 255 <= 255 * (window * window)) by (nonlinear_arith)
        requires
            0 <= wy < window,
            0 <= wx < window,
    ;
}

/// A window origin chosen by the output grid stays at least one window short
/// of the axis end.
proof fn lemma_origin_bound(o: int, stride: int, size: int, window: int)
    requires
        0 < stride,
        0 < window,
        window <= size,
        0 <= o,
        o <= (size - window) / stride,
    ensures
        0 <= o * stride,
        o * stride <= size - window,
{
    let q = (size - window) / stride;
    lemma_mul_nonnegative(o, stride);
    lemma_mul_inequality(o, q, stride);
    lemma_fundamental_div_mod(size - window, stride);
    lemma_mod_bound(size - window, stride);
    assert(q * stride == stride * q) by (nonlinear_arith);
}

/// Box-filter downsampling of a `PixelMatrix`.
pub struct WindowReducer {}

impl WindowReducer {
    /// Averages `window` by `window` blocks of `matrix`, stepping the window
    /// origin by `stride` along each axis. Zero `window` or `stride` is
    /// rejected with `InvalidParameter`; a matrix with a zero dimension maps
    /// to the empty 0-by-0 matrix. Every output sample is the
    /// integer-truncated mean of its window, and windows that would overrun
    /// the edge are dropped, so `out_w = (width >= window)
    /// ? (width - window) / stride + 1 : 0`, and likewise for the height.
    pub fn average(matrix: &PixelMatrix<u8>, window: usize, stride: usize) -> (r: Result<
        PixelMatrix<u8>,
        MatrixError,
    >)
        ensures
            r is Ok <==> (window > 0 && stride > 0),
            r is Err ==> r->Err_0 == MatrixError::InvalidParameter,
            (r is Ok && (matrix.spec_width() == 0 || matrix.spec_height() == 0)) ==> {
                let m = r->Ok_0;
                m.spec_width() == 0 && m.spec_height() == 0 && m.pixels().len() == 0
            },
            (r is Ok && matrix.spec_width() > 0 && matrix.spec_height() > 0) ==> {
                let m = r->Ok_0;
                &&& m.spec_width() == out_dim(matrix.spec_width(), window as int, stride as int)
                &&& m.spec_height() == out_dim(matrix.spec_height(), window as int, stride as int)
                &&& m.pixels().len() == m.spec_width() * m.spec_height()
                &&& forall|i: int, j: int|
                    0 <= i < m.spec_width() && 0 <= j < m.spec_height()
                        ==> #[trigger] pix_at(m.pixels(), m.spec_width(), i, j) == window_mean(
                        matrix.pixels(),
                        matrix.spec_width(),
                        i * stride,
                        j * stride,
                        window as int,
                    )
            },
    {
        if window == 0 || stride == 0 {
            return Err(MatrixError::InvalidParameter);
        }
        let (width, height) = matrix.dimensions();
        if width == 0 || height == 0 {
            return Ok(PixelMatrix::from_parts(0, 0, Vec::new()));
        }
        let data = matrix.samples();
        let total = data.len();
        let out_w = if width >= window {
            proof {
                lemma_div_pos_is_pos((width - window) as int, stride as int);
                lemma_div_nonincreasing((width - window) as int, stride as int);
            }
            (width - window) / stride + 1
        } else {
            0
        };
        let out_h = if height >= window {
            proof {
                lemma_div_pos_is_pos((height - window) as int, stride as int);
                lemma_div_nonincreasing((height - window) as int, stride as int);
            }
            (height - window) / stride + 1
        } else {
            0
        };
        let mut out: Vec<Pixel<u8>> = Vec::new();
        let mut oy: usize = 0;
        while oy < out_h
            invariant
                1 <= window,
                1 <= stride,
                width == matrix.spec_width(),
                height == matrix.spec_height(),
                data@ == matrix.pixels(),
                data@.len() == width * height,
                total == data@.len(),
                out_w == out_dim(width as int, window as int, stride as int),
                out_h == out_dim(height as int, window as int, stride as int),
                oy <= out_h,
                out@.len() == oy * out_w,
                forall|i: int, j: int|
                    0 <= i < out_w && 0 <= j < oy ==> #[trigger] pix_at(out@, out_w as int, i, j)
                        == window_mean(data@, width as int, i * stride, j * stride, window as int),
            decreases out_h - oy,
        {
            let mut ox: usize = 0;
            while ox < out_w
                invariant
                    1 <= window,
                    1 <= stride,
                    width == matrix.spec_width(),
                    height == matrix.spec_height(),
                    data@ == matrix.pixels(),
                    data@.len() == width * height,
                    total == data@.len(),
                    out_w == out_dim(width as int, window as int, stride as int),
                    out_h == out_dim(height as int, window as int, stride as int),
                    oy < out_h,
                    ox <= out_w,
                    out@.len() == oy * out_w + ox,
                    forall|i: int, j: int|
                        0 <= i < out_w && 0 <= j < oy ==> #[trigger] pix_at(
                            out@,
                            out_w as int,
                            i,
                            j,
                        ) == window_mean(
                            data@,
                            width as int,
                            i * stride,
                            j * stride,
                            window as int,
                        ),
                    forall|i: int|
                        0 <= i < ox ==> #[trigger] pix_at(out@, out_w as int, i, oy as int)
                            == window_mean(
                            data@,
                            width as int,
                            i * stride,
                            oy as int * stride,
                            window as int,
                        ),
                decreases out_w - ox,
            {
                proof {
                    assert(width >= window);
                    assert(height >= window);
                    lemma_origin_bound(ox as int, stride as int, width as int, window as int);
                    lemma_origin_bound(oy as int, stride as int, height as int, window as int);
                }
                let start_x = ox * stride;
                let start_y = oy * stride;
                let mut sum_r: u128 = 0;
                let mut sum_g: u128 = 0;
                let mut sum_b: u128 = 0;
                let mut wy: usize = 0;
                while wy < window
                    invariant
                        1 <= window,
                        window <= width,
                        window <= height,
                        data@.len() == width * height,
                        total == data@.len(),
                        start_x <= width - window,
                        start_y <= height - window,
                        wy <= window,
                        sum_r == window_sum(
                            data@,
                            width as int,
                            start_x as int,
                            start_y as int,
                            window as int,
                            wy as int,
                            0,
                        ),
                        sum_g == window_sum(
                            data@,
                            width as int,
                            start_x as int,
                            start_y as int,
                            window as int,
                            wy as int,
                            1,
                        ),
                        sum_b == window_sum(
                            data@,
                            width as int,
                            start_x as int,
                            start_y as int,
                            window as int,
                            wy as int,
                            2,
                        ),
                    decreases window - wy,
                {
                    let y = start_y + wy;
                    let mut wx: usize = 0;
                    while wx < window
                        invariant
                            1 <= window,
                            window <= width,
                            window <= height,
                            data@.len() == width * height,
                            total == data@.len(),
                            start_x <= width - window,
                            start_y <= height - window,
                            wy < window,
                            y == start_y + wy,
                            wx <= window,
                            sum_r == window_sum(
                                data@,
                                width as int,
                                start_x as int,
                                start_y as int,
                                window as int,
                                wy as int,
                                0,
                            ) + row_sum(
                                data@,
                                width as int,
                                y as int,
                                start_x as int,
                                wx as int,
                                0,
                            ),
                            sum_g == window_sum(
                                data@,
                                width as int,
                                start_x as int,
                                start_y as int,
                                window as int,
                                wy as int,
                                1,
                            ) + row_sum(
                                data@,
                                width as int,
                                y as int,
                                start_x as int,
                                wx as int,
                                1,
                            ),
                            sum_b == window_sum(
                                data@,
                                width as int,
                                start_x as int,
                                start_y as int,
                                window as int,
                                wy as int,
                                2,
                            ) + row_sum(
                                data@,
                                width as int,
                                y as int,
                                start_x as int,
                                wx as int,
                                2,
                            ),
                        decreases window - wx,
                    {
                        proof {
                            lemma_partial_sum_bound(
                                data@,
                                width as int,
                                start_x as int,
                                start_y as int,
                                y as int,
                                window as int,
                                wy as int,
                                wx as int,
                                0,
                            );
                            lemma_partial_sum_bound(
                                data@,
                                width as int,
                                start_x as int,
                                start_y as int,
                                y as int,
                                window as int,
                                wy as int,
                                wx as int,
                                1,
                            );
                            lemma_partial_sum_bound(
                                data@,
                                width as int,
                                start_x as int,
                                start_y as int,
                                y as int,
                                window as int,
                                wy as int,
                                wx as int,
                                2,
                            );
                            assert(window * window <= width * height) by (nonlinear_arith)
                                requires
                                    1 <= window,
                                    window <= width,
                                    window <= height,
                            ;
                            lemma_row_major_bound(
                                start_x as int + wx as int,
                                y as int,
                                width as int,
                                height as int,
                            );
                        }
                        let x = start_x + wx;
                        let idx = y * width + x;
                        let sp = data[idx];
                        sum_r = sum_r + (sp.0 as u128);
                        sum_g = sum_g + (sp.1 as u128);
                        sum_b = sum_b + (sp.2 as u128);
                        proof {
                            assert(pix_at(data@, width as int, start_x as int + wx as int, y as int)
                                == data@[idx as int]);
                        }
                        wx = wx + 1;
                    }
                    wy = wy + 1;
                }
                proof {
                    assert(window * window <= width * height) by (nonlinear_arith)
                        requires
                            1 <= window,
                            window <= width,
                            window <= height,
                    ;
                    lemma_mul_strictly_positive(window as int, window as int);
                }
                let denom_us = window * window;
                let denom = denom_us as u128;
                proof {
                    lemma_window_sum_bounds(
                        data@,
                        width as int,
                        start_x as int,
                        start_y as int,
                        window as int,
                        window as int,
                        0,
                    );
                    lemma_window_sum_bounds(
                        data@,
                        width as int,
                        start_x as int,
                        start_y as int,
                        window as int,
                        window as int,
                        1,
                    );
                    lemma_window_sum_bounds(
                        data@,
                        width as int,
                        start_x as int,
                        start_y as int,
                        window as int,
                        window as int,
                        2,
                    );
                    lemma_div_is_ordered(
                        sum_r as int,
                        255 * (window as int * window as int),
                        denom as int,
                    );
                    lemma_div_is_ordered(
                        sum_g as int,
                        255 * (window as int * window as int),
                        denom as int,
                    );
                    lemma_div_is_ordered(
                        sum_b as int,
                        255 * (window as int * window as int),
                        denom as int,
                    );
                    lemma_div_by_multiple(255, denom as int);
                    lemma_div_pos_is_pos(sum_r as int, denom as int);
                    lemma_div_pos_is_pos(sum_g as int, denom as int);
                    lemma_div_pos_is_pos(sum_b as int, denom as int);
                }
                let avg_r = (sum_r / denom) as u8;
                let avg_g = (sum_g / denom) as u8;
                let avg_b = (sum_b / denom) as u8;
                let px = Pixel(avg_r, avg_g, avg_b);
                let ghost prev = out@;
                out.push(px);
                proof {
                    assert(px == window_mean(
                        data@,
                        width as int,
                        start_x as int,
                        start_y as int,
                        window as int,
                    ));
                    assert forall|i: int, j: int|
                        0 <= i < out_w && 0 <= j < oy implies #[trigger] pix_at(
                        out@,
                        out_w as int,
                        i,
                        j,
                    ) == window_mean(
                        data@,
                        width as int,
                        i * stride,
                        j * stride,
                        window as int,
                    ) by {
                        lemma_row_major_bound(i, j, out_w as int, oy as int);
                        assert(pix_at(out@, out_w as int, i, j) == pix_at(prev, out_w as int, i, j));
                    }
                    assert forall|i: int|
                        0 <= i < ox + 1 implies #[trigger] pix_at(out@, out_w as int, i, oy as int)
                        == window_mean(
                        data@,
                        width as int,
                        i * stride,
                        oy as int * stride,
                        window as int,
                    ) by {
                        if i < ox {
                            assert(pix_at(out@, out_w as int, i, oy as int) == pix_at(
                                prev,
                                out_w as int,
                                i,
                                oy as int,
                            ));
                        } else {
                            assert(oy * out_w + i == prev.len());
                            assert(pix_at(out@, out_w as int, i, oy as int) == px);
                        }
                    }
                }
                ox = ox + 1;
            }
            proof {
                assert((oy + 1) * out_w == oy * out_w + out_w) by (nonlinear_arith);
            }
            oy = oy + 1;
        }
        proof {
            assert(out@.len() == out_w * out_h) by {
                assert(out@.len() == out_h * out_w);
                assert(out_h * out_w == out_w * out_h) by (nonlinear_arith);
            }
        }
        let m = PixelMatrix::from_parts(out_w, out_h, out);
        Ok(m)
    }
}

} // verus!
