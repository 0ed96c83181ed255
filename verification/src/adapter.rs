//! Boundary adapters between a `PixelMatrix` and the flat byte buffers an
//! external image decoder hands out and an external encoder accepts: row-major,
//! three bytes per pixel. The decode and encode of container formats themselves
//! stay with the external collaborator; only the byte-grid reshaping is here.

use vstd::prelude::*;

use vstd::arithmetic::div_mod::lemma_div_by_multiple;
use vstd::arithmetic::div_mod::lemma_fundamental_div_mod;
use vstd::arithmetic::div_mod::lemma_mod_multiples_basic;
use vstd::arithmetic::mul::lemma_mul_nonnegative;

use crate::matrix::Pixel;
use crate::matrix::PixelMatrix;

verus! {

/// The pixels a flat 3-bytes-per-pixel buffer describes: the `i`-th pixel is
/// built from bytes `3*i`, `3*i + 1`, `3*i + 2`.
pub open spec fn decoded_pixels(buf: Seq<u8>) -> Seq<Pixel<u8>> {
    Seq::new(buf.len() / 3, |i: int| (Pixel(buf[3 * i], buf[3 * i + 1], buf[3 * i + 2])))
}

/// Byte `j` of the flat encoding of a pixel sequence: the channel `j % 3` of
/// pixel `j / 3`.
pub open spec fn sample_byte(pixels: Seq<Pixel<u8>>, j: int) -> u8 {
    let p = pixels[j / 3];
    if j % 3 == 0 {
        p.0
    } else if j % 3 == 1 {
        p.1
    } else {
        p.2
    }
}

/// The flat 3-bytes-per-pixel encoding of a pixel sequence.
pub open spec fn encoded_bytes(pixels: Seq<Pixel<u8>>) -> Seq<u8> {
    Seq::new(pixels.len() * 3, |j: int| sample_byte(pixels, j))
}

/// Reinterprets a decoded flat byte buffer (row-major, three bytes per pixel)
/// as a `width` by `height` matrix without altering any sample value. A buffer
/// of the wrong byte count is the external decoder's error, not this
/// adapter's, so a well-formed buffer is required.
pub fn matrix_from_decoded(buffer: &Vec<u8>, width: usize, height: usize) -> (m: PixelMatrix<u8>)
    requires
        buffer@.len() == width * height * 3,
    ensures
        m.spec_width() == width,
        m.spec_height() == height,
        m.pixels() == decoded_pixels(buffer@),
{
    let total = buffer.len();
    let count = total / 3;
    proof {
        lemma_fundamental_div_mod(total as int, 3);
    }
    let mut data: Vec<Pixel<u8>> = Vec::new();
    let mut i: usize = 0;
    while i < count
        invariant
            buffer@.len() == total,
            count == total / 3,
            3 * count <= total,
            i <= count,
            data@.len() == i,
            forall|k: int| 0 <= k < i ==> #[trigger] data@[k] == decoded_pixels(buffer@)[k],
        decreases count - i,
    {
        let p = Pixel(buffer[3 * i], buffer[3 * i + 1], buffer[3 * i + 2]);
        data.push(p);
        i = i + 1;
    }
    proof {
        assert(data@ =~= decoded_pixels(buffer@));
        assert(data@.len() == width * height) by {
            lemma_mul_nonnegative(width as int, height as int);
            lemma_div_by_multiple(width * height, 3);
        }
    }
    PixelMatrix::from_parts(width, height, data)
}

/// The inverse boundary: flattens a matrix into the row-major,
/// three-bytes-per-pixel buffer an external encoder expects, without altering
/// any sample value.
pub fn matrix_to_encodable(matrix: &PixelMatrix<u8>) -> (buffer: Vec<u8>)
    ensures
        buffer@ == encoded_bytes(matrix.pixels()),
        buffer@.len() == matrix.spec_width() * matrix.spec_height() * 3,
{
    let data = matrix.samples();
    let count = data.len();
    let mut buffer: Vec<u8> = Vec::new();
    let mut i: usize = 0;
    while i < count
        invariant
            data@ == matrix.pixels(),
            count == data@.len(),
            i <= count,
            buffer@.len() == 3 * i,
            forall|j: int| 0 <= j < 3 * i ==> #[trigger] buffer@[j] == sample_byte(data@, j),
        decreases count - i,
    {
        let p = data[i];
        buffer.push(p.0);
        buffer.push(p.1);
        buffer.push(p.2);
        proof {
            assert forall|j: int| 0 <= j < 3 * (i + 1) implies #[trigger] buffer@[j] == sample_byte(
                data@,
                j,
            ) by {
                if j >= 3 * i {
                    let c = j - 3 * i;
                    vstd::arithmetic::div_mod::lemma_fundamental_div_mod_converse(
                        j,
                        3,
                        i as int,
                        c,
                    );
                }
            }
        }
        i = i + 1;
    }
    proof {
        assert(buffer@ =~= encoded_bytes(matrix.pixels()));
    }
    buffer
}

/// Law: re-encoding the matrix decoded from a well-formed buffer (row-major,
/// three bytes per pixel, `width * height` pixels) yields that buffer back,
/// byte for byte.
pub proof fn lemma_adapter_round_trip(buf: Seq<u8>, width: int, height: int)
    requires
        buf.len() == width * height * 3,
    ensures
        encoded_bytes(decoded_pixels(buf)) == buf,
{
    let pixels = decoded_pixels(buf);
    assert(buf.len() % 3 == 0) by {
        lemma_mod_multiples_basic(width * height, 3);
    }
    assert(pixels.len() * 3 == buf.len()) by {
        lemma_fundamental_div_mod(buf.len() as int, 3);
    }
    assert forall|j: int| 0 <= j < buf.len() implies encoded_bytes(pixels)[j] == buf[j] by {
        lemma_fundamental_div_mod(j, 3);
        assert(0 <= j / 3 < pixels.len());
        assert(pixels[j / 3] == Pixel(buf[3 * (j / 3)], buf[3 * (j / 3) + 1], buf[3 * (j / 3) + 2]));
    }
    assert(encoded_bytes(pixels) =~= buf);
}

} // verus!
