//! Export of one image's cells as JPEG files, and the accounting of a batch.

use vstd::prelude::*;
use image::{DynamicImage, ImageError};
use crate::config::SplitConfig;
use crate::grid::grid_cell;
use crate::naming::{cell_file_name, cell_name};
use crate::raster::{cell_image, decoded, encode_cell, image_height, image_width, jpeg_encoding, ImageSplitter};

verus! {

/// Why one image of a batch could not be exported.
#[derive(Debug)]
pub enum ExportError {
    /// The source file is not an image in a format that can be read.
    Decode(ImageError),
    /// A cell could not be encoded as JPEG (a cell with a side of 0 pixels
    /// cannot).
    Encode { row: usize, col: usize, error: ImageError },
}

/// One output file: its name within the output directory and its contents.
pub struct OutputFile {
    pub name: String,
    pub bytes: Vec<u8>,
}

/// Every cell of the grid that `config` draws on `img` has a JPEG encoding.
pub open spec fn all_cells_encode(img: DynamicImage, config: SplitConfig) -> bool {
    forall|i: int, j: int|
        0 <= i <= config.h_lines@.len() && 0 <= j <= config.v_lines@.len() ==> (#[trigger] jpeg_encoding(
            cell_image(img, config.h_lines@, config.v_lines@, i, j),
        )) is Some
}

/// Some cell of the grid that `config` draws on `img` has a side of 0 pixels.
pub open spec fn has_empty_cell(img: DynamicImage, config: SplitConfig) -> bool {
    exists|i: int, j: int|
        0 <= i <= config.h_lines@.len() && 0 <= j <= config.v_lines@.len() && {
            let cell = #[trigger] grid_cell(
                config.h_lines@,
                config.v_lines@,
                image_width(img) as nat,
                image_height(img) as nat,
                i,
                j,
            );
            cell.width == 0 || cell.height == 0
        }
}

/// Decodes the image file `source`, slices it into the cells of `config` and
/// encodes each cell as JPEG, named `{stem}_{row+1}_{col+1}.jpg`.
///
/// Fails with `Decode` exactly when `source` does not decode, and otherwise
/// with `Encode` exactly when some cell has no JPEG encoding, which is always
/// the case when a cell has a side of 0 pixels; the error names such a cell.
/// On success the files come row by row, one per cell.
pub fn export_image(source: &Vec<u8>, config: &SplitConfig, stem: &str) -> (r: Result<
    Vec<Vec<OutputFile>>,
    ExportError,
>)
    requires
        config.committed(),
        config.h_lines@.len() + 2 <= usize::MAX,
        config.v_lines@.len() + 2 <= usize::MAX,
    ensures
        (r matches Err(ExportError::Decode(_))) <==> decoded(source@) is None,
        decoded(source@) is Some ==> {
            let img = decoded(source@)->Some_0;
            &&& r is Ok <==> all_cells_encode(img, *config)
            &&& has_empty_cell(img, *config) ==> r is Err
        },
        r matches Err(ExportError::Encode { row, col, .. }) ==> {
            let img = decoded(source@)->Some_0;
            &&& row <= config.h_lines@.len()
            &&& col <= config.v_lines@.len()
            &&& jpeg_encoding(cell_image(img, config.h_lines@, config.v_lines@, row as int, col as int)) is None
        },
        r is Ok ==> {
            let img = decoded(source@)->Some_0;
            let files = r->Ok_0@;
            &&& files.len() == config.h_lines@.len() + 1
            &&& forall|i: int|
                0 <= i < files.len() ==> (#[trigger] files[i])@.len() == config.v_lines@.len() + 1
            &&& forall|i: int, j: int|
                0 <= i < files.len() && 0 <= j < files[i]@.len() ==> (#[trigger] files[i]@[j]).name@
                    == cell_name(stem@, i as nat, j as nat) && Some(files[i]@[j].bytes@)
                    == jpeg_encoding(cell_image(img, config.h_lines@, config.v_lines@, i, j))
        },
{
    let img = match image::load_from_memory(source.as_slice()) {
        Ok(img) => img,
        Err(e) => {
            return Err(ExportError::Decode(e));
        },
    };
    let cells = ImageSplitter::split_image(&img, config);
    let ghost h = config.h_lines@;
    let ghost v = config.v_lines@;
    let mut files: Vec<Vec<OutputFile>> = Vec::new();
    let mut i: usize = 0;
    while i < cells.len()
        invariant
            decoded(source@) == Some(img),
            i <= cells@.len(),
            h == config.h_lines@,
            v == config.v_lines@,
            h.len() + 2 <= usize::MAX,
            v.len() + 2 <= usize::MAX,
            cells@.len() == h.len() + 1,
            forall|a: int| 0 <= a < cells@.len() ==> (#[trigger] cells@[a])@.len() == v.len() + 1,
            forall|a: int, b: int|
                0 <= a < cells@.len() && 0 <= b < cells@[a]@.len() ==> (#[trigger] cells@[a]@[b])
                    == cell_image(img, h, v, a, b),
            forall|a: int, b: int|
                0 <= a < cells@.len() && 0 <= b < cells@[a]@.len() ==> image_width(
                    #[trigger] cells@[a]@[b],
                ) == grid_cell(h, v, image_width(img) as nat, image_height(img) as nat, a, b).width
                    && image_height(cells@[a]@[b]) == grid_cell(
                    h,
                    v,
                    image_width(img) as nat,
                    image_height(img) as nat,
                    a,
                    b,
                ).height,
            files@.len() == i,
            forall|a: int, b: int|
                0 <= a < i && 0 <= b <= v.len() ==> (#[trigger] jpeg_encoding(
                    cell_image(img, h, v, a, b),
                )) is Some,
            forall|a: int, b: int|
                0 <= a < i && 0 <= b <= v.len() ==> {
                    let cell = #[trigger] grid_cell(
                        h,
                        v,
                        image_width(img) as nat,
                        image_height(img) as nat,
                        a,
                        b,
                    );
                    cell.width != 0 && cell.height != 0
                },
            forall|a: int| 0 <= a < i ==> (#[trigger] files@[a])@.len() == v.len() + 1,
            forall|a: int, b: int|
                0 <= a < i && 0 <= b < files@[a]@.len() ==> (#[trigger] files@[a]@[b]).name@
                    == cell_name(stem@, a as nat, b as nat) && Some(files@[a]@[b].bytes@)
                    == jpeg_encoding(cell_image(img, h, v, a, b)),
        decreases cells@.len() - i,
    {
        let row = &cells[i];
        let mut out_row: Vec<OutputFile> = Vec::new();
        let mut j: usize = 0;
        while j < row.len()
            invariant
                decoded(source@) == Some(img),
                i < cells@.len(),
                j <= row@.len(),
                *row == cells@[i as int],
                h == config.h_lines@,
                v == config.v_lines@,
                row@.len() == v.len() + 1,
                h.len() + 2 <= usize::MAX,
                v.len() + 2 <= usize::MAX,
                cells@.len() == h.len() + 1,
                forall|b: int|
                    0 <= b < row@.len() ==> (#[trigger] row@[b]) == cell_image(img, h, v, i as int, b),
                forall|b: int|
                    0 <= b < row@.len() ==> image_width(#[trigger] row@[b]) == grid_cell(
                        h,
                        v,
                        image_width(img) as nat,
                        image_height(img) as nat,
                        i as int,
                        b,
                    ).width && image_height(row@[b]) == grid_cell(
                        h,
                        v,
                        image_width(img) as nat,
                        image_height(img) as nat,
                        i as int,
                        b,
                    ).height,
                out_row@.len() == j,
                forall|b: int|
                    0 <= b < j ==> (#[trigger] jpeg_encoding(cell_image(img, h, v, i as int, b))) is Some,
                forall|b: int|
                    0 <= b < j ==> {
                        let cell = #[trigger] grid_cell(
                            h,
                            v,
                            image_width(img) as nat,
                            image_height(img) as nat,
                            i as int,
                            b,
                        );
                        cell.width != 0 && cell.height != 0
                    },
                forall|b: int|
                    0 <= b < j ==> (#[trigger] out_row@[b]).name@ == cell_name(
                        stem@,
                        i as nat,
                        b as nat,
                    ) && Some(out_row@[b].bytes@) == jpeg_encoding(
                        cell_image(img, h, v, i as int, b),
                    ),
            decreases row@.len() - j,
        {
            match encode_cell(&row[j]) {
                Ok(bytes) => {
                    let name = cell_file_name(stem, i, j);
                    out_row.push(OutputFile { name, bytes });
                },
                Err(error) => {
                    proof {
                        assert(jpeg_encoding(cell_image(img, h, v, i as int, j as int)) is None);
                        assert(!all_cells_encode(img, *config));
                    }
                    return Err(ExportError::Encode { row: i, col: j, error });
                },
            }
            j = j + 1;
        }
        files.push(out_row);
        i = i + 1;
    }
    proof {
        assert(all_cells_encode(img, *config));
        assert(!has_empty_cell(img, *config));
    }
    Ok(files)
}

} // verus!
