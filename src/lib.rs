//! Row-band rendering of the Mandelbrot set.
//!
//! - `band`: the split of an image's rows into bands, one per worker, and
//!   the proof that the bands tile the image.
//! - `render`: filling a band or a whole buffer from an escape-time
//!   evaluator, the buffer shape check, and the proof that a banded render
//!   equals a whole one.
//! - `escape`: the bounded escape-time iteration over any state type.
//! - `pair`: parsing of `"<left><sep><right>"` pairs.
//! - `decimal`: the decimal integers that std's integer parsers accept.
//! - `ranges`: overlap of half-open ranges.
//! - `ordering`: three-way comparison of integers.
//! - `records`: plain data records.

use vstd::prelude::*;

pub mod band;
pub mod decimal;
pub mod escape;
pub mod ordering;
pub mod pair;
pub mod ranges;
pub mod records;
pub mod render;

verus! {

} // verus!
