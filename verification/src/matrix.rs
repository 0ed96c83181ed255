//! A dense, row-major, fixed-size 2-D container of 3-channel color samples.

use vstd::prelude::*;

verus! {

/// One 3-channel color sample: red, green, blue for 8-bit color, or hue,
/// saturation, value once converted.
#[derive(Clone, Copy, Debug, PartialEq)]
pub struct Pixel<T>(pub T, pub T, pub T);

/// Errors returned by matrix construction and access.
#[derive(Clone, Copy, Debug, PartialEq, Eq)]
pub enum MatrixError {
    /// The sample count disagrees with the declared `width * height`.
    DimensionMismatch,
    /// An accessor was asked for a coordinate outside the matrix.
    IndexOutOfBounds,
    /// A window or stride parameter was zero.
    InvalidParameter,
    /// Row-based construction was given rows of differing lengths.
    RaggedRows,
}

/// The sample of a row-major sequence of width `w` at column `x` of row `y`.
pub open spec fn pix_at<T>(s: Seq<Pixel<T>>, w: int, x: int, y: int) -> Pixel<T> {
    s[y * w + x]
}

/// A row-major index lies below the sample count.
pub proof fn lemma_row_major_bound(x: int, y: int, w: int, h: int)
    by (nonlinear_arith)
    requires
        0 <= x < w,
        0 <= y < h,
    ensures
        0 <= y * w + x,
        y * w + x < w * h,
        y * w + x < h * w,
{
}

/// The width every row must have when a matrix is built from rows: the width
/// of the first row, or zero when there are no rows.
pub open spec fn first_row_width<T>(rows: Seq<Vec<Pixel<T>>>) -> int {
    if rows.len() == 0 {
        0
    } else {
        rows[0]@.len() as int
    }
}

/// A nested per-row representation is rectangular: every row is as long as
/// the first.
pub open spec fn rows_rect<T>(rows: Seq<Vec<Pixel<T>>>) -> bool {
    forall|j: int| 0 <= j < rows.len() ==> (#[trigger] rows[j]@).len() == first_row_width(rows)
}

/// A dense, row-major, immutable grid of 3-channel samples. The sample at
/// `(x, y)` lives at index `y * width + x` of the sample sequence.
#[derive(Debug)]
pub struct PixelMatrix<T> {
    width: usize,
    height: usize,
    data: Vec<Pixel<T>>,
}

impl<T> PixelMatrix<T> {
    /// The declared width, as a mathematical integer.
    pub closed spec fn spec_width(&self) -> int {
        self.width as int
    }

    /// The declared height, as a mathematical integer.
    pub closed spec fn spec_height(&self) -> int {
        self.height as int
    }

    /// The row-major sample sequence.
    pub closed spec fn pixels(&self) -> Seq<Pixel<T>> {
        self.data@
    }

    /// Every matrix holds exactly `width * height` samples; in particular a
    /// matrix with a zero dimension holds none.
    #[verifier::type_invariant]
    spec fn wf(&self) -> bool {
        self.pixels().len() == self.spec_width() * self.spec_height()
    }

    /// The sample the matrix holds at column `x` of row `y`.
    pub open spec fn spec_get(&self, x: int, y: int) -> Pixel<T> {
        pix_at(self.pixels(), self.spec_width(), x, y)
    }

    /// Builds a matrix around an already row-major sample sequence.
    pub(crate) fn from_parts(width: usize, height: usize, data: Vec<Pixel<T>>) -> (m: Self)
        requires
            data@.len() == width * height,
        ensures
            m.spec_width() == width,
            m.spec_height() == height,
            m.pixels() == data@,
    {
        PixelMatrix { width, height, data }
    }

    /// Builds a `width` by `height` matrix from a row-major sample sequence,
    /// rejecting any sequence whose length disagrees with the dimensions.
    pub fn new(width: usize, height: usize, data: Vec<Pixel<T>>) -> (r: Result<Self, MatrixError>)
        ensures
            r is Ok <==> data@.len() == width * height,
            r is Ok ==> r->Ok_0.spec_width() == width && r->Ok_0.spec_height() == height
                && r->Ok_0.pixels() == data@,
            r is Err ==> r->Err_0 == MatrixError::DimensionMismatch,
    {
        let len = data.len();
        match width.checked_mul(height) {
            Some(product) => {
                if product == len {
                    Ok(PixelMatrix { width, height, data })
                } else {
                    Err(MatrixError::DimensionMismatch)
                }
            },
            None => Err(MatrixError::DimensionMismatch),
        }
    }

    /// The width and height the matrix was built with.
    pub fn dimensions(&self) -> (r: (usize, usize))
        ensures
            r.0 == self.spec_width(),
            r.1 == self.spec_height(),
            self.pixels().len() == self.spec_width() * self.spec_height(),
    {
        proof {
            use_type_invariant(&*self);
        }
        (self.width, self.height)
    }

    /// Read-only access to the row-major sample sequence.
    pub fn samples(&self) -> (r: &Vec<Pixel<T>>)
        ensures
            r@ == self.pixels(),
            self.pixels().len() == self.spec_width() * self.spec_height(),
    {
        proof {
            use_type_invariant(&*self);
        }
        &self.data
    }
}

impl<T: Copy> PixelMatrix<T> {
    /// The sample at column `x` of row `y`; coordinates are bounds-checked and
    /// an out-of-range access is answered with `IndexOutOfBounds`.
    pub fn get(&self, x: usize, y: usize) -> (r: Result<Pixel<T>, MatrixError>)
        ensures
            r is Ok <==> x < self.spec_width() && y < self.spec_height(),
            r is Ok ==> r->Ok_0 == self.spec_get(x as int, y as int),
            r is Err ==> r->Err_0 == MatrixError::IndexOutOfBounds,
    {
        proof {
            use_type_invariant(&*self);
        }
        if x < self.width && y < self.height {
            // Pins the sample count to a machine word, so the row-major index
            // below cannot overflow.
            let len = self.data.len();
            proof {
                lemma_row_major_bound(x as int, y as int, self.spec_width(), self.spec_height());
            }
            let idx = y * self.width + x;
            Ok(self.data[idx])
        } else {
            Err(MatrixError::IndexOutOfBounds)
        }
    }

    /// Builds a matrix from a nested per-row representation, rejecting rows of
    /// differing lengths. The height is the number of rows and the width is the
    /// length of the first row (zero when there are no rows).
    pub fn from_rows(rows: &Vec<Vec<Pixel<T>>>) -> (r: Result<Self, MatrixError>)
        ensures
            r is Ok <==> rows_rect(rows@),
            r is Ok ==> {
                let m = r->Ok_0;
                &&& m.spec_height() == rows@.len()
                &&& m.spec_width() == first_row_width(rows@)
                &&& forall|x: int, y: int|
                    0 <= x < m.spec_width() && 0 <= y < m.spec_height()
                        ==> #[trigger] m.spec_get(x, y) == rows@[y]@[x]
            },
            r is Err ==> r->Err_0 == MatrixError::RaggedRows,
    {
        let height = rows.len();
        let width = if height == 0 {
            0
        } else {
            rows[0].len()
        };
        let mut data: Vec<Pixel<T>> = Vec::new();
        let mut y: usize = 0;
        while y < height
            invariant
                height == rows@.len(),
                width == first_row_width(rows@),
                y <= height,
                data@.len() == y * width,
                forall|j: int| 0 <= j < y ==> (#[trigger] rows@[j]@).len() == width,
                forall|i: int, j: int|
                    0 <= i < width && 0 <= j < y
                        ==> #[trigger] pix_at(data@, width as int, i, j) == rows@[j]@[i],
            decreases height - y,
        {
            let row = &rows[y];
            if row.len() != width {
                proof {
                    assert(!rows_rect(rows@)) by {
                        assert(rows@[y as int]@.len() != first_row_width(rows@));
                    }
                }
                return Err(MatrixError::RaggedRows);
            }
            let mut x: usize = 0;
            while x < width
                invariant
                    height == rows@.len(),
                    width == first_row_width(rows@),
                    y < height,
                    x <= width,
                    row@ == rows@[y as int]@,
                    rows@[y as int]@.len() == width,
                    data@.len() == y * width + x,
                    forall|j: int| 0 <= j < y ==> (#[trigger] rows@[j]@).len() == width,
                    forall|i: int, j: int|
                        0 <= i < width && 0 <= j < y
                            ==> #[trigger] pix_at(data@, width as int, i, j) == rows@[j]@[i],
                    forall|i: int|
                        0 <= i < x
                            ==> #[trigger] pix_at(data@, width as int, i, y as int)
                                == rows@[y as int]@[i],
                decreases width - x,
            {
                let ghost prev = data@;
                data.push(row[x]);
                proof {
                    assert forall|i: int, j: int|
                        0 <= i < width && 0 <= j < y implies #[trigger] pix_at(
                        data@,
                        width as int,
                        i,
                        j,
                    ) == rows@[j]@[i] by {
                        lemma_row_major_bound(i, j, width as int, y as int);
                        assert(pix_at(data@, width as int, i, j) == pix_at(prev, width as int, i, j));
                    }
                    assert forall|i: int|
                        0 <= i < x + 1 implies #[trigger] pix_at(data@, width as int, i, y as int)
                        == rows@[y as int]@[i] by {
                        if i < x {
                            assert(pix_at(data@, width as int, i, y as int) == pix_at(
                                prev,
                                width as int,
                                i,
                                y as int,
                            ));
                        } else {
                            assert(y * width + i == prev.len());
                        }
                    }
                }
                x = x + 1;
            }
            proof {
                assert((y + 1) * width == y * width + width) by (nonlinear_arith);
            }
            y = y + 1;
        }
        proof {
            assert(data@.len() == width * height) by {
                assert(data@.len() == height * width);
                assert(height * width == width * height) by (nonlinear_arith);
            }
        }
        let m = Self::from_parts(width, height, data);
        proof {
            assert forall|x: int, y2: int|
                0 <= x < m.spec_width() && 0 <= y2 < m.spec_height() implies #[trigger] m.spec_get(
                x,
                y2,
            ) == rows@[y2]@[x] by {
                assert(pix_at(m.pixels(), width as int, x, y2) == rows@[y2]@[x]);
            }
        }
        Ok(m)
    }

    /// The inverse of `from_rows`: the matrix as a nested per-row
    /// representation, one inner sequence per row, top to bottom.
    pub fn to_rows(&self) -> (rows: Vec<Vec<Pixel<T>>>)
        ensures
            rows@.len() == self.spec_height(),
            forall|y: int|
                0 <= y < self.spec_height() ==> (#[trigger] rows@[y]@).len() == self.spec_width(),
            forall|x: int, y: int|
                0 <= x < self.spec_width() && 0 <= y < self.spec_height()
                    ==> #[trigger] rows@[y]@[x] == self.spec_get(x, y),
    {
        proof {
            use_type_invariant(&*self);
        }
        let width = self.width;
        let height = self.height;
        // Pins the sample count to a machine word, so the row-major indices
        // below cannot overflow.
        let len = self.data.len();
        let mut rows: Vec<Vec<Pixel<T>>> = Vec::new();
        let mut y: usize = 0;
        while y < height
            invariant
                width == self.spec_width(),
                height == self.spec_height(),
                self.pixels().len() == width * height,
                self.pixels().len() <= usize::MAX,
                y <= height,
                rows@.len() == y,
                forall|j: int| 0 <= j < y ==> (#[trigger] rows@[j]@).len() == width,
                forall|i: int, j: int|
                    0 <= i < width && 0 <= j < y
                        ==> #[trigger] rows@[j]@[i] == self.spec_get(i, j),
            decreases height - y,
        {
            let mut row: Vec<Pixel<T>> = Vec::new();
            let mut x: usize = 0;
            while x < width
                invariant
                    width == self.spec_width(),
                    height == self.spec_height(),
                    self.pixels().len() == width * height,
                    self.pixels().len() <= usize::MAX,
                    y < height,
                    x <= width,
                    row@.len() == x,
                    forall|i: int| 0 <= i < x ==> #[trigger] row@[i] == self.spec_get(i, y as int),
                decreases width - x,
            {
                proof {
                    lemma_row_major_bound(x as int, y as int, width as int, height as int);
                }
                let idx = y * width + x;
                row.push(self.data[idx]);
                x = x + 1;
            }
            rows.push(row);
            y = y + 1;
        }
        rows
    }
}

/// Law: a matrix built from `width`, `height`, and a matching row-major sample
/// sequence hands back, at every in-range coordinate `(x, y)`, exactly the
/// input sample at index `y * width + x`.
pub proof fn lemma_new_round_trip<T>(
    m: PixelMatrix<T>,
    width: int,
    height: int,
    data: Seq<Pixel<T>>,
    x: int,
    y: int,
)
    requires
        m.spec_width() == width,
        m.spec_height() == height,
        m.pixels() == data,
        data.len() == width * height,
        0 <= x < width,
        0 <= y < height,
    ensures
        m.spec_get(x, y) == data[y * width + x],
{
}

} // verus!
