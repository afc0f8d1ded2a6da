//! Turning the density grid into a grey-scale image.
//!
//! Every count is scaled against the largest count of the grid, so that the
//! most visited cell becomes white. A grid without any visit becomes a black
//! image.

use vstd::prelude::*;
use crate::histogram::Histogram;
use image::{ImageBuffer, Luma};

verus! {

/// The largest count of a table, 0 for an empty table.
pub open spec fn peak(counts: Seq<u64>) -> u64
    decreases counts.len(),
{
    if counts.len() == 0 {
        0
    } else if peak(counts.drop_last()) >= counts.last() {
        peak(counts.drop_last())
    } else {
        counts.last()
    }
}

/// The grey value of a count against the largest count: the count's share
/// of 255, rounded down. With no visit anywhere, everything is black.
pub open spec fn intensity(count: u64, peak: u64) -> int {
    if peak == 0 {
        0
    } else {
        count * 255 / (peak as int)
    }
}

/// The largest count is at least every count, and it is one of them unless
/// the table is empty.
pub proof fn lemma_peak_is_maximum(counts: Seq<u64>)
    ensures
        forall|i: int| 0 <= i < counts.len() ==> counts[i] <= peak(counts),
        counts.len() > 0 ==> exists|i: int| 0 <= i < counts.len() && counts[i] == peak(counts),
        counts.len() == 0 ==> peak(counts) == 0,
    decreases counts.len(),
{
    if counts.len() > 0 {
        let front = counts.drop_last();
        lemma_peak_is_maximum(front);
        assert forall|i: int| 0 <= i < counts.len() implies counts[i] <= peak(counts) by {
            if i < front.len() {
                assert(counts[i] == front[i]);
            }
        }
        if front.len() > 0 && peak(front) >= counts.last() {
            let i = choose|i: int| 0 <= i < front.len() && front[i] == peak(front);
            assert(counts[i] == peak(counts));
        } else {
            assert(counts[counts.len() - 1] == peak(counts));
        }
    }
}

/// A grey value fits in a byte as long as the count does not exceed the
/// largest count.
pub proof fn lemma_intensity_is_a_byte(count: u64, peak: u64)
    requires
        count <= peak,
    ensures
        0 <= intensity(count, peak) <= 255,
{
    if peak > 0 {
        assert(0 <= count * 255 / (peak as int) <= 255) by (nonlinear_arith)
            requires
                0 <= count <= peak,
                peak > 0,
        ;
    }
}

/// The most visited cell is white.
pub proof fn lemma_peak_is_white(peak: u64)
    requires
        peak > 0,
    ensures
        intensity(peak, peak) == 255,
{
    assert(peak * 255 / (peak as int) == 255) by (nonlinear_arith)
        requires
            peak > 0,
    ;
}

/// A grid without any visit is black everywhere.
pub proof fn lemma_blank_is_black(counts: Seq<u64>)
    requires
        forall|i: int| 0 <= i < counts.len() ==> counts[i] == 0,
    ensures
        peak(counts) == 0,
        forall|i: int| 0 <= i < counts.len() ==> intensity(#[trigger] counts[i], peak(counts)) == 0,
    decreases counts.len(),
{
    if counts.len() > 0 {
        lemma_blank_is_black(counts.drop_last());
    }
}

/// Finds the largest count of a table.
pub fn largest(data: &[u64]) -> (m: u64)
    ensures
        m == peak(data@),
{
    let mut m: u64 = 0;
    let mut i: usize = 0;
    while i < data.len()
        invariant
            i <= data.len(),
            m == peak(data@.take(i as int)),
        decreases data.len() - i,
    {
        proof {
            assert(data@.take(i + 1).drop_last() =~= data@.take(i as int));
        }
        if data[i] > m {
            m = data[i];
        }
        i += 1;
    }
    proof {
        assert(data@.take(i as int) =~= data@);
    }
    m
}

/// Scales one count against the largest count.
pub fn normalize(count: u64, peak: u64) -> (v: u8)
    requires
        count <= peak,
    ensures
        v == intensity(count, peak),
{
    if peak == 0 {
        0
    } else {
        proof {
            lemma_intensity_is_a_byte(count, peak);
        }
        let scaled: u128 = (count as u128) * 255 / (peak as u128);
        scaled as u8
    }
}

/// The grey value of the image's pixel `(x, y)`: the scaled count of the
/// grid's cell `(x, y)`, which the table holds at `x * height + y`.
pub fn shade(data: &[u64], height: u32, peak: u64, x: u32, y: u32) -> (v: u8)
    requires
        x * height + y < data@.len(),
        data@[x * height + y] <= peak,
    ensures
        v == intensity(data@[x * height + y], peak),
{
    proof {
        assert(data@.len() == data.len());
        assert(0 <= x * height) by (nonlinear_arith);
    }
    let at: usize = (x as usize) * (height as usize) + (y as usize);
    normalize(data[at], peak)
}

/// A grey-scale image as the `image` crate holds it: one byte per pixel.
#[verifier::external_body]
pub struct GreyImage {
    buffer: ImageBuffer<Luma<u8>, Vec<u8>>,
}

/// The grey values of an image, row by row: the pixel `(x, y)` at position
/// `y * width + x`.
pub uninterp spec fn image_samples(img: GreyImage) -> Seq<u8>;

/// Builds the image with `image::ImageBuffer::from_fn`, which allocates one
/// sample per pixel and sets each pixel `(x, y)` to what the closure gives
/// for `x` and `y`; the closure gives the pixel's `shade`. Not proved: that
/// the image has `width * height` samples, rows first, and that each holds
/// that shade.
#[verifier::external_body]
fn image_from_counts(width: u32, height: u32, data: &[u64], peak: u64) -> (img: GreyImage)
    requires
        width * height <= data@.len(),
        forall|i: int| 0 <= i < data@.len() ==> data@[i] <= peak,
    ensures
        image_samples(img).len() == width * height,
        forall|x: u32, y: u32|
            x < width && y < height ==> #[trigger] image_samples(img)[y * width + x] == intensity(
                data@[x * height + y],
                peak,
            ),
{
    GreyImage {
        buffer: ImageBuffer::from_fn(
            width,
            height,
            |x, y| Luma([shade(data, height, peak, x, y)]),
        ),
    }
}

/// Takes the samples out of the image with `image::ImageBuffer::into_raw`,
/// which hands over the buffer that the image was stored in. Not proved:
/// that these are the image's samples.
#[verifier::external_body]
fn into_samples(img: GreyImage) -> (samples: Vec<u8>)
    ensures
        samples@ == image_samples(img),
{
    img.buffer.into_raw()
}

/// Renders the grid as a grey-scale image of the given width and height and
/// returns its pixels row by row, one byte each.
///
/// `data` holds the counts column by column, as a `Histogram` stores them.
/// The pixel `(x, y)`, at position `y * width + x` of the result, gets the
/// count of the cell `(x, y)`, scaled against the largest count of the
/// whole table.
pub fn to_image(data: &[u64], resolution: (u32, u32)) -> (pixels: Vec<u8>)
    requires
        resolution.0 * resolution.1 <= data@.len(),
    ensures
        pixels@.len() == resolution.0 * resolution.1,
        forall|x: u32, y: u32|
            x < resolution.0 && y < resolution.1 ==> #[trigger] pixels@[y * resolution.0 + x]
                == intensity(data@[x * resolution.1 + y], peak(data@)),
{
    let max = largest(data);
    proof {
        lemma_peak_is_maximum(data@);
    }
    let img = image_from_counts(resolution.0, resolution.1, data, max);
    into_samples(img)
}

/// Renders a density grid as a grey-scale image of its own resolution: one
/// pixel per cell, the pixel `(x, y)` at position `y * width + x`, scaled
/// against the most visited cell.
pub fn snapshot(histogram: &Histogram) -> (pixels: Vec<u8>)
    requires
        histogram.wf(),
    ensures
        pixels@.len() == histogram.resolution().0 * histogram.resolution().1,
        forall|x: u64, y: u64|
            histogram.covers((x, y)) ==> #[trigger] pixels@[y * histogram.resolution().0 + x]
                == intensity(histogram@[(x, y)] as u64, peak(histogram.cells())),
{
    proof {
        histogram.lemma_layout();
    }
    let width = histogram.resolution_x() as u32;
    let height = histogram.resolution_y() as u32;
    let pixels = to_image(histogram.data().as_slice(), (width, height));
    proof {
        assert forall|x: u64, y: u64| histogram.covers((x, y)) implies #[trigger] pixels@[y
            * histogram.resolution().0 + x] == intensity(
            histogram@[(x, y)] as u64,
            peak(histogram.cells()),
        ) by {
            let column = x as u32;
            let row = y as u32;
            assert(pixels@[row * width + column] == intensity(
                histogram.cells()[column * height + row],
                peak(histogram.cells()),
            ));
        }
    }
    pixels
}

} // verus!
