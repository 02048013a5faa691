use std::io::Cursor;

use batch_image_splitter::{
    export_image, BatchResult, ExportError, ImageSplitter, LinePos, SplitConfig,
};
use image::{DynamicImage, GenericImageView, ImageBuffer, ImageFormat, Rgb};

fn pos(num: usize, den: usize) -> LinePos {
    LinePos::from_fraction(num, den).unwrap()
}

fn config(h: Vec<LinePos>, v: Vec<LinePos>) -> SplitConfig {
    SplitConfig { rows: h.len() + 1, cols: v.len() + 1, h_lines: h, v_lines: v }
}

/// An image whose pixel at (x, y) is (x, y, 7), so that a cut-out shows
/// where it was taken from.
fn gradient(width: u32, height: u32) -> DynamicImage {
    DynamicImage::ImageRgb8(ImageBuffer::from_fn(width, height, |x, y| {
        Rgb([x as u8, y as u8, 7])
    }))
}

fn png_bytes(img: &DynamicImage) -> Vec<u8> {
    let mut out = Cursor::new(Vec::new());
    img.write_to(&mut out, ImageFormat::Png).unwrap();
    out.into_inner()
}

#[test]
fn split_image_half_on_100_by_200() {
    let img = gradient(100, 200);
    let parts = ImageSplitter::split_image(&img, &config(vec![pos(1, 2)], vec![]));
    assert_eq!(parts.len(), 2);
    assert_eq!(parts[0].len(), 1);
    assert_eq!(parts[0][0].dimensions(), (100, 100));
    assert_eq!(parts[1][0].dimensions(), (100, 100));
    assert_eq!(parts[1][0].get_pixel(3, 0).0, [3, 100, 7, 255]);
}

#[test]
fn split_image_cells_are_cut_from_their_place() {
    let img = gradient(90, 60);
    let parts = ImageSplitter::split_image(&img, &SplitConfig::new(3, 3));
    assert_eq!(parts.len(), 3);
    for (r, row) in parts.iter().enumerate() {
        assert_eq!(row.len(), 3);
        for (c, part) in row.iter().enumerate() {
            assert_eq!(part.dimensions(), (30, 20));
            let (x0, y0) = (c as u32 * 30, r as u32 * 20);
            assert_eq!(part.get_pixel(5, 4).0, [(x0 + 5) as u8, (y0 + 4) as u8, 7, 255]);
        }
    }
}

#[test]
fn split_image_without_lines_is_whole_image() {
    let img = gradient(12, 9);
    let parts = ImageSplitter::split_image(&img, &SplitConfig::default());
    assert_eq!(parts.len(), 1);
    assert_eq!(parts[0][0].dimensions(), (12, 9));
}

#[test]
fn split_image_duplicate_line_does_not_panic() {
    let img = gradient(40, 100);
    let parts = ImageSplitter::split_image(&img, &config(vec![pos(3, 10), pos(3, 10)], vec![]));
    assert_eq!(parts.len(), 3);
    assert_eq!(parts[0][0].dimensions(), (40, 30));
    assert_eq!(parts[1][0].dimensions(), (40, 0));
    assert_eq!(parts[2][0].dimensions(), (40, 70));
}

#[test]
fn export_image_names_and_encodes_every_cell() {
    let source = png_bytes(&gradient(64, 48));
    let files = export_image(&source, &SplitConfig::new(2, 3), "photo").unwrap();
    assert_eq!(files.len(), 2);
    let mut names = Vec::new();
    for row in &files {
        assert_eq!(row.len(), 3);
        for file in row {
            names.push(file.name.clone());
            let cell = image::load_from_memory_with_format(&file.bytes, ImageFormat::Jpeg).unwrap();
            assert_eq!(cell.height(), 24);
        }
    }
    assert_eq!(
        names,
        vec![
            "photo_1_1.jpg",
            "photo_1_2.jpg",
            "photo_1_3.jpg",
            "photo_2_1.jpg",
            "photo_2_2.jpg",
            "photo_2_3.jpg"
        ]
    );
    let widths: Vec<u32> = files[0]
        .iter()
        .map(|f| image::load_from_memory(&f.bytes).unwrap().width())
        .collect();
    assert_eq!(widths, vec![21, 21, 22]);
}

#[test]
fn export_image_reports_undecodable_source() {
    let garbage = vec![1u8, 2, 3, 4, 5, 6, 7, 8];
    match export_image(&garbage, &SplitConfig::new(2, 2), "bad") {
        Err(ExportError::Decode(_)) => {}
        other => panic!("expected a decode error, got {:?}", other.map(|f| f.len())),
    }
}

#[test]
fn export_image_fails_on_zero_height_cell() {
    let source = png_bytes(&gradient(40, 100));
    let c = config(vec![pos(3, 10), pos(3, 10)], vec![]);
    match export_image(&source, &c, "dup") {
        Err(ExportError::Encode { row, col, .. }) => assert_eq!((row, col), (1, 0)),
        other => panic!("expected an encode error, got {:?}", other.map(|f| f.len())),
    }
}

#[test]
fn batch_counts_decode_failures() {
    let good = png_bytes(&gradient(20, 20));
    let sources = vec![good.clone(), vec![0u8; 10], good.clone(), vec![9u8; 3], good];
    let config = SplitConfig::new(2, 2);
    let outcomes: Vec<bool> = sources
        .iter()
        .map(|s| export_image(s, &config, "img").is_ok())
        .collect();
    let result = BatchResult::from_outcomes(&outcomes);
    assert_eq!(result, BatchResult { processed: 3, failed: 2 });
    assert_eq!(result.processed + result.failed, sources.len());
}
