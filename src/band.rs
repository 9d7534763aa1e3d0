//! Partition of an image's rows into bands, each rendered on its own.
//!
//! `height / workers + 1` rows go to each band, the last one taking what is
//! left. Bands cover the rows in order, without gaps or overlaps, and are
//! never empty.

use crate::ranges::{in_range, ranges_overlap};
use vstd::prelude::*;

verus! {

/// Rows given to each band when `height` rows are shared among `workers`.
pub open spec fn rows_per_band_spec(height: int, workers: int) -> int {
    height / workers + 1
}

/// Number of bands: the least `n` with `n * rows_per_band >= height`.
pub open spec fn band_count_spec(height: int, workers: int) -> int {
    let per = rows_per_band_spec(height, workers);
    (height + per - 1) / per
}

/// First row of band `i`.
pub open spec fn band_top_spec(height: int, workers: int, i: int) -> int {
    i * rows_per_band_spec(height, workers)
}

/// Number of rows of band `i`: a full band, or what remains of the image.
pub open spec fn band_rows_spec(height: int, workers: int, i: int) -> int {
    let per = rows_per_band_spec(height, workers);
    let rest = height - band_top_spec(height, workers, i);
    if rest < per {
        rest
    } else {
        per
    }
}

/// The band that holds `row`.
pub open spec fn band_of_row(height: int, workers: int, row: int) -> int {
    row / rows_per_band_spec(height, workers)
}

/// A contiguous run of image rows, `[top, top + rows)`.
#[derive(Clone, Copy, Debug, PartialEq, Eq, Structural)]
pub struct Band {
    pub top: usize,
    pub rows: usize,
}

/// Band `i` of the plan for `height` rows and `workers` workers.
pub open spec fn band_spec(height: int, workers: int, i: int) -> Band {
    Band {
        top: band_top_spec(height, workers, i) as usize,
        rows: band_rows_spec(height, workers, i) as usize,
    }
}

/// Rows per band for `height` rows and `workers` workers.
pub fn rows_per_band(height: usize, workers: usize) -> (r: usize)
    requires
        workers >= 1,
        height < usize::MAX,
    ensures
        r == rows_per_band_spec(height as int, workers as int),
{
    proof {
        vstd::arithmetic::div_mod::lemma_div_is_ordered_by_denominator(
            height as int,
            1,
            workers as int,
        );
    }
    height / workers + 1
}

proof fn lemma_count_bounds(height: int, workers: int, n: int)
    requires
        workers >= 1,
        height >= 0,
        n >= 0,
        (n - 1) * rows_per_band_spec(height, workers) < height,
        height <= n * rows_per_band_spec(height, workers),
    ensures
        band_count_spec(height, workers) == n,
{
    let per = rows_per_band_spec(height, workers);
    assert(per >= 1) by {
        vstd::arithmetic::div_mod::lemma_div_pos_is_pos(height, workers);
    }
    let x = height + per - 1;
    assert(n * per <= x < n * per + per) by (nonlinear_arith)
        requires
            (n - 1) * per < height,
            height <= n * per,
            x == height + per - 1,
    ;
    vstd::arithmetic::div_mod::lemma_fundamental_div_mod(x, per);
    let q = x / per;
    let m = x % per;
    assert(0 <= m < per) by {
        vstd::arithmetic::div_mod::lemma_mod_bound(x, per);
    }
    assert(q == n) by (nonlinear_arith)
        requires
            x == per * q + m,
            0 <= m < per,
            n * per <= x < n * per + per,
            per >= 1,
    ;
}

proof fn lemma_count_facts(height: int, workers: int)
    requires
        workers >= 1,
        height >= 0,
    ensures
        rows_per_band_spec(height, workers) >= 1,
        height == 0 ==> band_count_spec(height, workers) == 0,
        height > 0 ==> (band_count_spec(height, workers) - 1) * rows_per_band_spec(height, workers)
            < height <= band_count_spec(height, workers) * rows_per_band_spec(height, workers),
        0 <= band_count_spec(height, workers) <= workers,
{
    let per = rows_per_band_spec(height, workers);
    let count = band_count_spec(height, workers);
    vstd::arithmetic::div_mod::lemma_div_pos_is_pos(height, workers);
    let x = height + per - 1;
    vstd::arithmetic::div_mod::lemma_fundamental_div_mod(x, per);
    vstd::arithmetic::div_mod::lemma_mod_bound(x, per);
    vstd::arithmetic::div_mod::lemma_fundamental_div_mod(height, workers);
    vstd::arithmetic::div_mod::lemma_mod_bound(height, workers);
    let m = x % per;
    assert(count >= 0) by (nonlinear_arith)
        requires
            x == per * count + m,
            0 <= m < per,
            x >= 0,
    ;
    if height == 0 {
        assert(count == 0) by (nonlinear_arith)
            requires
                x == per * count + m,
                0 <= m < per,
                x == per - 1,
        ;
    } else {
        assert((count - 1) * per < height <= count * per) by (nonlinear_arith)
            requires
                x == per * count + m,
                0 <= m < per,
                x == height + per - 1,
        ;
    }
    let q = height / workers;
    let w = height % workers;
    assert(height < workers * per) by (nonlinear_arith)
        requires
            height == workers * q + w,
            0 <= w < workers,
            per == q + 1,
    ;
    if count > workers {
        assert((count - 1) * per >= workers * per) by (nonlinear_arith)
            requires
                count - 1 >= workers,
                per >= 1,
        ;
    }
}

/// The bands tile the image: each lies inside `[0, height)` and holds at
/// least one row, two different bands share no row, every row lies in
/// band `band_of_row`, and there are never more bands than workers. All
/// bands but the last hold `rows_per_band` rows, and the last one ends at
/// `height`.
pub proof fn lemma_bands_tile(height: int, workers: int)
    requires
        workers >= 1,
        height >= 0,
    ensures
        band_count_spec(height, workers) <= workers,
        forall|i: int|
            0 <= i < band_count_spec(height, workers) - 1 ==> #[trigger] band_rows_spec(
                height,
                workers,
                i,
            ) == rows_per_band_spec(height, workers),
        band_count_spec(height, workers) > 0 ==> band_top_spec(
            height,
            workers,
            band_count_spec(height, workers) - 1,
        ) + band_rows_spec(height, workers, band_count_spec(height, workers) - 1) == height,
        forall|i: int|
            0 <= i < band_count_spec(height, workers) ==> {
                &&& 0 <= #[trigger] band_top_spec(height, workers, i)
                &&& 1 <= band_rows_spec(height, workers, i)
                &&& band_top_spec(height, workers, i) + band_rows_spec(height, workers, i)
                    <= height
            },
        forall|i: int, j: int|
            0 <= i < band_count_spec(height, workers) && 0 <= j < band_count_spec(height, workers)
                && i != j ==> !ranges_overlap(
                #[trigger] band_top_spec(height, workers, i),
                band_top_spec(height, workers, i) + band_rows_spec(height, workers, i),
                #[trigger] band_top_spec(height, workers, j),
                band_top_spec(height, workers, j) + band_rows_spec(height, workers, j),
            ),
        forall|row: int|
            0 <= row < height ==> {
                &&& 0 <= #[trigger] band_of_row(height, workers, row) < band_count_spec(
                    height,
                    workers,
                )
                &&& in_range(
                    band_top_spec(height, workers, band_of_row(height, workers, row)),
                    band_top_spec(height, workers, band_of_row(height, workers, row))
                        + band_rows_spec(height, workers, band_of_row(height, workers, row)),
                    row,
                )
            },
{
    lemma_count_facts(height, workers);
    let per = rows_per_band_spec(height, workers);
    let count = band_count_spec(height, workers);
    assert forall|i: int| 0 <= i < count - 1 implies #[trigger] band_rows_spec(height, workers, i)
        == per by {
        assert((i + 1) * per <= (count - 1) * per) by (nonlinear_arith)
            requires
                i + 1 <= count - 1,
                per >= 1,
        ;
        assert((i + 1) * per == i * per + per) by (nonlinear_arith);
    }
    if count > 0 {
        assert((count - 1) * per + per == count * per) by (nonlinear_arith);
    }
    assert forall|i: int| 0 <= i < count implies {
        &&& 0 <= #[trigger] band_top_spec(height, workers, i)
        &&& 1 <= band_rows_spec(height, workers, i)
        &&& band_top_spec(height, workers, i) + band_rows_spec(height, workers, i) <= height
    } by {
        assert(0 <= i * per <= (count - 1) * per) by (nonlinear_arith)
            requires
                0 <= i <= count - 1,
                per >= 1,
        ;
    }
    assert forall|i: int, j: int|
        0 <= i < count && 0 <= j < count && i != j implies !ranges_overlap(
        #[trigger] band_top_spec(height, workers, i),
        band_top_spec(height, workers, i) + band_rows_spec(height, workers, i),
        #[trigger] band_top_spec(height, workers, j),
        band_top_spec(height, workers, j) + band_rows_spec(height, workers, j),
    ) by {
        let (a, b) = if i < j { (i, j) } else { (j, i) };
        assert((a + 1) * per <= b * per) by (nonlinear_arith)
            requires
                a < b,
                per >= 1,
        ;
        assert((a + 1) * per == a * per + per) by (nonlinear_arith);
    }
    assert forall|row: int| 0 <= row < height implies {
        &&& 0 <= #[trigger] band_of_row(height, workers, row) < count
        &&& in_range(
            band_top_spec(height, workers, band_of_row(height, workers, row)),
            band_top_spec(height, workers, band_of_row(height, workers, row))
                + band_rows_spec(height, workers, band_of_row(height, workers, row)),
            row,
        )
    } by {
        let i = row / per;
        vstd::arithmetic::div_mod::lemma_fundamental_div_mod(row, per);
        vstd::arithmetic::div_mod::lemma_mod_bound(row, per);
        let m = row % per;
        assert(0 <= i) by {
            vstd::arithmetic::div_mod::lemma_div_pos_is_pos(row, per);
        }
        assert(i * per <= row < i * per + per) by (nonlinear_arith)
            requires
                row == per * i + m,
                0 <= m < per,
        ;
        if i >= count {
            assert(i * per >= count * per) by (nonlinear_arith)
                requires
                    i >= count,
                    per >= 1,
            ;
        }
    }
}

/// The bands for `height` rows shared among `workers` workers, top to bottom.
pub fn band_plan(height: usize, workers: usize) -> (r: Vec<Band>)
    requires
        workers >= 1,
        height < usize::MAX,
    ensures
        r@.len() == band_count_spec(height as int, workers as int),
        forall|i: int| 0 <= i < r@.len() ==> #[trigger] r@[i] == band_spec(height as int, workers as int, i),
{
    let per = rows_per_band(height, workers);
    let mut bands: Vec<Band> = Vec::new();
    let mut top: usize = 0;
    assert(bands@.len() == 0);
    assert(0 * (per as int) == 0);
    while top < height
        invariant
            per == rows_per_band_spec(height as int, workers as int),
            per >= 1,
            top <= height,
            top < height ==> top as int == bands@.len() * per,
            top == height ==> (bands@.len() - 1) * per < height <= bands@.len() * per,
            top == height && height > 0 ==> bands@.len() >= 1,
            forall|i: int| 0 <= i < bands@.len() ==> #[trigger] bands@[i] == band_spec(height as int, workers as int, i),
        decreases height - top,
    {
        let rest = height - top;
        let rows = if rest < per { rest } else { per };
        proof {
            let n = bands@.len() as int;
            assert(band_top_spec(height as int, workers as int, n) == top);
            assert((n + 1) * per == n * per + per) by (nonlinear_arith);
            assert(n * per == (n + 1 - 1) * per) by (nonlinear_arith);
        }
        bands.push(Band { top, rows });
        top = top + rows;
    }
    proof {
        if height == 0 {
            assert(bands@.len() == 0) by {
                if bands@.len() > 0 {
                    assert(bands@.len() * per > 0) by (nonlinear_arith)
                        requires bands@.len() > 0, per >= 1;
                }
            }
            assert(band_count_spec(0, workers as int) == 0) by {
                vstd::arithmetic::div_mod::lemma_basic_div(per - 1, per as int);
            }
        } else {
            lemma_count_bounds(height as int, workers as int, bands@.len() as int);
        }
    }
    bands
}

} // verus!
