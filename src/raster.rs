//! Decoded images and the partitioner that slices one into a grid of cells.
//!
//! Images are `image::DynamicImage` values, opaque here: what the logic needs of
//! them (their size, the cut-outs taken from them, their decoding and JPEG
//! encoding) is named below and relied on from the `image` crate.

use vstd::prelude::*;
use vstd::math::min;
use image::{DynamicImage, ImageError, ImageFormat};
use crate::config::SplitConfig;
use crate::grid::{cell_rects, grid_cell, CellRect};
use crate::line::LinePos;

verus! {

#[verifier::external_type_specification]
#[verifier::external_body]
pub struct ExDynamicImage(DynamicImage);

#[verifier::external_type_specification]
#[verifier::external_body]
pub struct ExImageError(ImageError);

/// Width in pixels of a decoded image.
pub uninterp spec fn image_width(img: DynamicImage) -> u32;

/// Height in pixels of a decoded image.
pub uninterp spec fn image_height(img: DynamicImage) -> u32;

/// The cut-out of `img` at `(x, y)` of `width` by `height` pixels.
pub uninterp spec fn cropped(img: DynamicImage, x: u32, y: u32, width: u32, height: u32) -> DynamicImage;

/// The image that the encoded file `bytes` holds, if any format the crate
/// reads recognises it.
pub uninterp spec fn decoded(bytes: Seq<u8>) -> Option<DynamicImage>;

/// The JPEG file that encodes `img`, if the JPEG encoder accepts it.
pub uninterp spec fn jpeg_encoding(img: DynamicImage) -> Option<Seq<u8>>;

/// Relies on `DynamicImage::width`.
pub assume_specification[ DynamicImage::width ](img: &DynamicImage) -> (r: u32)
    ensures
        r == image_width(*img),
;

/// Relies on `DynamicImage::height`.
pub assume_specification[ DynamicImage::height ](img: &DynamicImage) -> (r: u32)
    ensures
        r == image_height(*img),
;

/// Relies on `DynamicImage::crop_imm`: the rectangle is first clamped to the
/// image (`x` and `y` to its size, `width` and `height` to what remains), and the
/// cut-out has the clamped size.
pub assume_specification[ DynamicImage::crop_imm ](
    img: &DynamicImage,
    x: u32,
    y: u32,
    width: u32,
    height: u32,
) -> (r: DynamicImage)
    ensures
        r == cropped(*img, x, y, width, height),
        image_width(r) == min(
            width as int,
            image_width(*img) - min(x as int, image_width(*img) as int),
        ),
        image_height(r) == min(
            height as int,
            image_height(*img) - min(y as int, image_height(*img) as int),
        ),
;

/// Relies on `image::load_from_memory`, which guesses the format from the
/// bytes and decodes them.
pub assume_specification[ image::load_from_memory ](buffer: &[u8]) -> (r: Result<
    DynamicImage,
    ImageError,
>)
    ensures
        match r {
            Ok(img) => decoded(buffer@) == Some(img),
            Err(_) => decoded(buffer@) is None,
        },
;

/// Relies on `DynamicImage::write_to` with `ImageFormat::Jpeg`, into memory.
/// Its JPEG encoder refuses an image with a side of 0 pixels.
#[verifier::external_body]
pub(crate) fn encode_cell(img: &DynamicImage) -> (r: Result<Vec<u8>, ImageError>)
    ensures
        match r {
            Ok(bytes) => jpeg_encoding(*img) == Some(bytes@),
            Err(_) => jpeg_encoding(*img) is None,
        },
        image_width(*img) == 0 || image_height(*img) == 0 ==> r is Err,
{
    let mut out = std::io::Cursor::new(Vec::new());
    match img.write_to(&mut out, ImageFormat::Jpeg) {
        Ok(()) => Ok(out.into_inner()),
        Err(e) => Err(e),
    }
}

/// The cut-out of `img` for cell `(r, c)` of the grid that `h` and `v` draw on it.
pub open spec fn cell_image(img: DynamicImage, h: Seq<LinePos>, v: Seq<LinePos>, r: int, c: int) -> DynamicImage {
    let cell = grid_cell(h, v, image_width(img) as nat, image_height(img) as nat, r, c);
    cropped(img, cell.x, cell.y, cell.width, cell.height)
}

/// Slices decoded images into grids of cells.
pub struct ImageSplitter;

impl ImageSplitter {
    /// Slices `img` into the cells of `config`, row by row: `h_lines.len() + 1`
    /// rows of `v_lines.len() + 1` cells, each the cut-out of its cell
    /// rectangle and of exactly that size. Lines that fall on the same pixel
    /// give cells with a side of 0.
    pub fn split_image(img: &DynamicImage, config: &SplitConfig) -> (r: Vec<Vec<DynamicImage>>)
        requires
            config.committed(),
            config.h_lines@.len() + 2 <= usize::MAX,
            config.v_lines@.len() + 2 <= usize::MAX,
        ensures
            r@.len() == config.h_lines@.len() + 1,
            forall|i: int|
                0 <= i < r@.len() ==> (#[trigger] r@[i])@.len() == config.v_lines@.len() + 1,
            forall|i: int, j: int|
                0 <= i < r@.len() && 0 <= j < r@[i]@.len() ==> (#[trigger] r@[i]@[j]) == cell_image(
                    *img,
                    config.h_lines@,
                    config.v_lines@,
                    i,
                    j,
                ),
            forall|i: int, j: int|
                0 <= i < r@.len() && 0 <= j < r@[i]@.len() ==> {
                    let cell = grid_cell(
                        config.h_lines@,
                        config.v_lines@,
                        image_width(*img) as nat,
                        image_height(*img) as nat,
                        i,
                        j,
                    );
                    image_width(#[trigger] r@[i]@[j]) == cell.width && image_height(r@[i]@[j])
                        == cell.height
                },
    {
        let width = img.width();
        let height = img.height();
        let rects = cell_rects(config, width, height);
        let ghost h = config.h_lines@;
        let ghost v = config.v_lines@;
        let mut grid: Vec<Vec<DynamicImage>> = Vec::new();
        let mut i: usize = 0;
        while i < rects.len()
            invariant
                i <= rects@.len(),
                width == image_width(*img),
                height == image_height(*img),
                rects@.len() == h.len() + 1,
                forall|a: int| 0 <= a < rects@.len() ==> (#[trigger] rects@[a])@.len() == v.len() + 1,
                forall|a: int, b: int|
                    0 <= a < rects@.len() && 0 <= b < rects@[a]@.len() ==> (#[trigger] rects@[a]@[b])
                        == grid_cell(h, v, width as nat, height as nat, a, b),
                forall|a: int, b: int|
                    0 <= a < rects@.len() && 0 <= b < rects@[a]@.len() ==> (#[trigger] rects@[a]@[b]).x
                        + rects@[a]@[b].width <= width && rects@[a]@[b].y + rects@[a]@[b].height
                        <= height,
                grid@.len() == i,
                forall|a: int| 0 <= a < i ==> (#[trigger] grid@[a])@.len() == v.len() + 1,
                forall|a: int, b: int|
                    0 <= a < i && 0 <= b < v.len() + 1 ==> (#[trigger] grid@[a]@[b]) == cell_image(
                        *img,
                        h,
                        v,
                        a,
                        b,
                    ),
                forall|a: int, b: int|
                    0 <= a < i && 0 <= b < v.len() + 1 ==> image_width(#[trigger] grid@[a]@[b])
                        == grid_cell(h, v, width as nat, height as nat, a, b).width && image_height(
                        grid@[a]@[b],
                    ) == grid_cell(h, v, width as nat, height as nat, a, b).height,
            decreases rects@.len() - i,
        {
            let row_rects = &rects[i];
            let mut row: Vec<DynamicImage> = Vec::new();
            let mut j: usize = 0;
            while j < row_rects.len()
                invariant
                    i < rects@.len(),
                    j <= row_rects@.len(),
                    *row_rects == rects@[i as int],
                    row_rects@.len() == v.len() + 1,
                    width == image_width(*img),
                    height == image_height(*img),
                    forall|b: int|
                        0 <= b < row_rects@.len() ==> (#[trigger] row_rects@[b]) == grid_cell(
                            h,
                            v,
                            width as nat,
                            height as nat,
                            i as int,
                            b,
                        ),
                    forall|b: int|
                        0 <= b < row_rects@.len() ==> (#[trigger] row_rects@[b]).x
                            + row_rects@[b].width <= width && row_rects@[b].y
                            + row_rects@[b].height <= height,
                    row@.len() == j,
                    forall|b: int|
                        0 <= b < j ==> (#[trigger] row@[b]) == cell_image(*img, h, v, i as int, b),
                    forall|b: int|
                        0 <= b < j ==> image_width(#[trigger] row@[b]) == grid_cell(
                            h,
                            v,
                            width as nat,
                            height as nat,
                            i as int,
                            b,
                        ).width && image_height(row@[b]) == grid_cell(
                            h,
                            v,
                            width as nat,
                            height as nat,
                            i as int,
                            b,
                        ).height,
                decreases row_rects@.len() - j,
            {
                let cell: CellRect = row_rects[j];
                let piece = img.crop_imm(cell.x, cell.y, cell.width, cell.height);
                row.push(piece);
                j = j + 1;
            }
            grid.push(row);
            i = i + 1;
        }
        grid
    }
}

} // verus!
