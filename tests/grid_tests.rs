use batch_image_splitter::{boundaries, cell_rects, CellRect, LinePos, SplitConfig};

fn pos(num: usize, den: usize) -> LinePos {
    LinePos::from_fraction(num, den).unwrap()
}

fn config(h: Vec<LinePos>, v: Vec<LinePos>) -> SplitConfig {
    SplitConfig { rows: h.len() + 1, cols: v.len() + 1, h_lines: h, v_lines: v }
}

fn rect(x: u32, y: u32, width: u32, height: u32) -> CellRect {
    CellRect { x, y, width, height }
}

#[test]
fn boundaries_wrap_line_pixels() {
    assert_eq!(boundaries(&vec![pos(1, 4), pos(1, 2)], 10), vec![0, 2, 5, 10]);
    assert_eq!(boundaries(&vec![], 10), vec![0, 10]);
}

#[test]
fn half_split_on_100_by_200() {
    let c = config(vec![pos(1, 2)], vec![]);
    let cells = cell_rects(&c, 100, 200);
    assert_eq!(cells, vec![vec![rect(0, 0, 100, 100)], vec![rect(0, 100, 100, 100)]]);
}

#[test]
fn duplicate_line_gives_zero_height_cell() {
    let c = config(vec![pos(3, 10), pos(3, 10)], vec![]);
    let cells = cell_rects(&c, 50, 100);
    assert_eq!(
        cells,
        vec![vec![rect(0, 0, 50, 30)], vec![rect(0, 30, 50, 0)], vec![rect(0, 30, 50, 70)]]
    );
}

#[test]
fn no_lines_gives_whole_image() {
    let c = config(vec![], vec![]);
    assert_eq!(cell_rects(&c, 64, 48), vec![vec![rect(0, 0, 64, 48)]]);
}

#[test]
fn counts_follow_lines_not_nominal_fields() {
    let mut c = SplitConfig::new(3, 2);
    c.rows = 10;
    c.cols = 1;
    let cells = cell_rects(&c, 30, 30);
    assert_eq!(cells.len(), 3);
    assert!(cells.iter().all(|row| row.len() == 2));
}

#[test]
fn cells_tile_the_image_exactly() {
    let c = config(vec![pos(1, 7), pos(1, 3), pos(1, 3), pos(5, 6)], vec![pos(2, 9), pos(1, 1)]);
    let (w, h) = (23u32, 17u32);
    let cells = cell_rects(&c, w, h);
    assert_eq!(cells.len(), 5);
    assert!(cells.iter().all(|row| row.len() == 3));
    let mut hits = vec![0u32; (w * h) as usize];
    for row in &cells {
        for cell in row {
            assert!(cell.x + cell.width <= w && cell.y + cell.height <= h);
            for py in cell.y..cell.y + cell.height {
                for px in cell.x..cell.x + cell.width {
                    hits[(py * w + px) as usize] += 1;
                }
            }
        }
    }
    assert!(hits.iter().all(|&n| n == 1));
}

#[test]
fn even_grid_rejoins_to_image_bounds() {
    let c = SplitConfig::new(3, 4);
    let (w, h) = (301u32, 257u32);
    let cells = cell_rects(&c, w, h);
    for row in &cells {
        assert_eq!(row[0].x, 0);
        assert_eq!(row.iter().map(|cell| cell.width).sum::<u32>(), w);
        for pair in row.windows(2) {
            assert_eq!(pair[0].x + pair[0].width, pair[1].x);
            assert_eq!(pair[0].y, pair[1].y);
            assert_eq!(pair[0].height, pair[1].height);
        }
    }
    for col in 0..4 {
        assert_eq!(cells[0][col].y, 0);
        assert_eq!(cells.iter().map(|row| row[col].height).sum::<u32>(), h);
    }
    assert_eq!(cells[1][0], rect(0, 85, 75, 86));
}

#[test]
fn even_thirds_of_300_fall_on_exact_pixels() {
    let c = SplitConfig::new(3, 1);
    let cells = cell_rects(&c, 10, 300);
    assert_eq!(cells[0][0].height, 100);
    assert_eq!(cells[1][0].y, 100);
    assert_eq!(cells[2][0].y, 200);
}
