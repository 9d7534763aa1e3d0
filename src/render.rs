//! Filling a grayscale pixel buffer from an escape-time evaluator.
//!
//! The evaluator maps a pixel `(column, row)` of the whole image to its
//! escape time, `None` for a point taken to lie in the set. A pixel's byte
//! is `0` for `None` and `255 - min(count, 255)` for `Some(count)`, so fast
//! escapes are bright and the set itself is black.

use crate::band::{
    band_count_spec, band_of_row, band_rows_spec, band_top_spec, lemma_bands_tile,
};
use crate::ranges::in_range;
use vstd::prelude::*;

verus! {

/// The byte that encodes an escape time.
pub open spec fn intensity_spec(escape: Option<usize>) -> u8 {
    match escape {
        None => 0,
        Some(count) => if count >= 255 {
            0
        } else {
            (255 - count) as u8
        },
    }
}

/// Encodes an escape time as a pixel intensity.
pub fn intensity(escape: Option<usize>) -> (r: u8)
    ensures
        r == intensity_spec(escape),
{
    match escape {
        None => 0,
        Some(count) => if count >= 255 {
            0
        } else {
            (255 - count) as u8
        },
    }
}

/// Why a render was refused.
#[derive(Clone, Copy, Debug, PartialEq, Eq, Structural)]
pub enum RenderError {
    /// The buffer's length is not `width * height`.
    ShapeMismatch,
}

/// True when `byte` encodes an escape time that `escape` may return for the
/// pixel at column `col` and row `row`.
pub open spec fn shows<F: Fn(usize, usize) -> Option<usize>>(
    escape: F,
    col: int,
    row: int,
    byte: u8,
) -> bool {
    exists|v: Option<usize>|
        #[trigger] escape.ensures((col as usize, row as usize), v) && byte == intensity_spec(v)
}

/// True when `pixels` holds the rows of an image `width` pixels wide from
/// row `top` on: byte `i` is the pixel at column `i % width`, row
/// `top + i / width`.
pub open spec fn band_shows<F: Fn(usize, usize) -> Option<usize>>(
    escape: F,
    width: int,
    top: int,
    pixels: Seq<u8>,
) -> bool {
    forall|i: int|
        0 <= i < pixels.len() ==> shows(escape, i % width, top + i / width, #[trigger] pixels[i])
}

/// True when the evaluator gives each pixel one escape time only.
pub open spec fn deterministic<F: Fn(usize, usize) -> Option<usize>>(escape: F) -> bool {
    forall|c: usize, r: usize, v1: Option<usize>, v2: Option<usize>|
        #[trigger] escape.ensures((c, r), v1) && #[trigger] escape.ensures((c, r), v2) ==> v1
            == v2
}

/// Accepts a buffer of exactly `width * height` bytes.
pub fn check_shape(len: usize, bounds: (usize, usize)) -> (r: Result<(), RenderError>)
    ensures
        r is Ok <==> len == bounds.0 * bounds.1,
        r is Err ==> r == Err::<(), RenderError>(RenderError::ShapeMismatch),
{
    match bounds.0.checked_mul(bounds.1) {
        Some(size) => if size == len {
            Ok(())
        } else {
            Err(RenderError::ShapeMismatch)
        },
        None => Err(RenderError::ShapeMismatch),
    }
}

/// Fills `band`, rows of an image `width` pixels wide starting at row `top`:
/// byte `i` gets the intensity of pixel `(i % width, top + i / width)`.
pub fn fill_band<F: Fn(usize, usize) -> Option<usize>>(
    band: &mut [u8],
    width: usize,
    top: usize,
    escape: &F,
)
    requires
        width >= 1,
        top as int + (old(band)@.len() as int) / (width as int) <= usize::MAX,
        forall|c: usize, r: usize| escape.requires((c, r)),
    ensures
        final(band)@.len() == old(band)@.len(),
        band_shows(*escape, width as int, top as int, final(band)@),
{
    let len = band.len();
    let mut i: usize = 0;
    while i < len
        invariant
            width >= 1,
            top as int + len as int / (width as int) <= usize::MAX,
            len == band@.len(),
            i <= len,
            forall|c: usize, r: usize| escape.requires((c, r)),
            forall|j: int|
                0 <= j < i ==> shows(
                    *escape,
                    j % (width as int),
                    top as int + j / (width as int),
                    #[trigger] band@[j],
                ),
        decreases len - i,
    {
        proof {
            vstd::arithmetic::div_mod::lemma_div_is_ordered(i as int, len as int, width as int);
        }
        let col = i % width;
        let row = top + i / width;
        let v = escape(col, row);
        band[i] = intensity(v);
        assert(shows(
            *escape,
            (i as int) % (width as int),
            top as int + (i as int) / (width as int),
            band@[i as int],
        ));
        i = i + 1;
    }
}

/// Renders the whole image into `pixels`, which must hold `width * height`
/// bytes; a buffer of another length is refused before any byte is written.
pub fn render<F: Fn(usize, usize) -> Option<usize>>(
    pixels: &mut [u8],
    bounds: (usize, usize),
    escape: &F,
) -> (r: Result<(), RenderError>)
    requires
        forall|c: usize, r: usize| escape.requires((c, r)),
    ensures
        r is Ok <==> old(pixels)@.len() == bounds.0 * bounds.1,
        r is Err ==> r == Err::<(), RenderError>(RenderError::ShapeMismatch),
        r is Err ==> final(pixels)@ == old(pixels)@,
        final(pixels)@.len() == old(pixels)@.len(),
        r is Ok ==> band_shows(*escape, bounds.0 as int, 0, final(pixels)@),
{
    match check_shape(pixels.len(), bounds) {
        Err(e) => Err(e),
        Ok(()) => {
            if bounds.0 >= 1 {
                proof {
                    vstd::arithmetic::div_mod::lemma_div_is_ordered_by_denominator(
                        pixels@.len() as int,
                        1,
                        bounds.0 as int,
                    );
                }
                fill_band(pixels, bounds.0, 0, escape);
            }
            Ok(())
        },
    }
}

/// The bytes of `pixels` that band `i` owns in an image `width` pixels wide
/// whose `height` rows are shared among `workers` workers.
pub open spec fn band_bytes(pixels: Seq<u8>, width: int, height: int, workers: int, i: int) -> Seq<
    u8,
> {
    let top = band_top_spec(height, workers, i);
    let rows = band_rows_spec(height, workers, i);
    pixels.subrange(top * width, (top + rows) * width)
}

/// A buffer in which every band of the plan was filled from its own first
/// row (as `fill_band` does on that band's bytes) is, byte for byte, the
/// buffer that rendering the whole image at once gives, whatever the number
/// of workers, provided the evaluator gives each pixel one escape time.
pub proof fn lemma_banded_render_matches<F: Fn(usize, usize) -> Option<usize>>(
    escape: F,
    width: int,
    height: int,
    workers: int,
    banded: Seq<u8>,
    whole: Seq<u8>,
)
    requires
        deterministic(escape),
        width >= 1,
        height >= 0,
        workers >= 1,
        banded.len() == width * height,
        whole.len() == width * height,
        forall|i: int|
            0 <= i < band_count_spec(height, workers) ==> band_shows(
                escape,
                width,
                band_top_spec(height, workers, i),
                #[trigger] band_bytes(banded, width, height, workers, i),
            ),
        band_shows(escape, width, 0, whole),
    ensures
        banded == whole,
{
    lemma_bands_tile(height, workers);
    assert forall|g: int| 0 <= g < banded.len() implies banded[g] == whole[g] by {
        let row = g / width;
        let col = g % width;
        vstd::arithmetic::div_mod::lemma_fundamental_div_mod(g, width);
        vstd::arithmetic::div_mod::lemma_mod_bound(g, width);
        assert(0 <= row < height) by (nonlinear_arith)
            requires
                g == width * row + col,
                0 <= col < width,
                0 <= g < width * height,
        ;
        let i = band_of_row(height, workers, row);
        assert(0 <= i < band_count_spec(height, workers));
        let top = band_top_spec(height, workers, i);
        let rows = band_rows_spec(height, workers, i);
        assert(in_range(top, top + rows, row));
        assert(top + rows <= height);
        let j = g - top * width;
        assert(0 <= j < rows * width && top * width + rows * width <= width * height) by (nonlinear_arith)
            requires
                g == width * row + col,
                0 <= col < width,
                top <= row < top + rows,
                top + rows <= height,
                j == g - top * width,
                0 <= top,
        ;
        assert((top + rows) * width == top * width + rows * width) by (nonlinear_arith);
        let part = band_bytes(banded, width, height, workers, i);
        assert(part[j] == banded[g]);
        assert(shows(escape, j % width, top + j / width, part[j]));
        vstd::arithmetic::div_mod::lemma_mod_multiples_vanish(top, j, width);
        vstd::arithmetic::div_mod::lemma_hoist_over_denominator(j, top, width as nat);
        assert(width * top + j == g) by (nonlinear_arith)
            requires
                j == g - top * width,
        ;
        assert(j + top * width == g) by (nonlinear_arith)
            requires
                j == g - top * width,
        ;
        assert(j % width == col);
        assert(top + j / width == row);
        assert(shows(escape, col, row, whole[g]));
        let v1 = choose|v: Option<usize>|
            #[trigger] escape.ensures((col as usize, row as usize), v) && banded[g]
                == intensity_spec(v);
        let v2 = choose|v: Option<usize>|
            #[trigger] escape.ensures((col as usize, row as usize), v) && whole[g]
                == intensity_spec(v);
        assert(v1 == v2);
    }
    assert(banded =~= whole);
}

} // verus!
