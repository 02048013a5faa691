//! Pixel boundaries and cell rectangles of a partitioned image.

use vstd::prelude::*;
use crate::config::{even_lines, lemma_even_lines, lines_sorted, lines_wf, SplitConfig};
use crate::line::{lemma_pixel_bounded, lemma_pixel_monotone, LinePos};

verus! {

/// A rectangle of pixels: columns `x .. x + width`, rows `y .. y + height`.
#[derive(Clone, Copy, Debug, PartialEq, Eq, Structural)]
pub struct CellRect {
    pub x: u32,
    pub y: u32,
    pub width: u32,
    pub height: u32,
}

impl CellRect {
    /// The pixel `(px, py)` lies in the rectangle.
    pub open spec fn contains(self, px: int, py: int) -> bool {
        self.x <= px < self.x + self.width && self.y <= py < self.y + self.height
    }
}

/// Boundary `k` of an axis of `extent` pixels divided by `lines`:
/// 0 first, then the pixel of each line, then `extent`.
pub open spec fn boundary(lines: Seq<LinePos>, extent: nat, k: int) -> nat {
    if k <= 0 {
        0
    } else if k <= lines.len() {
        lines[k - 1].pixel(extent)
    } else {
        extent
    }
}

/// The cell in row `r` and column `c` of an image of `width` by `height`
/// pixels divided by the horizontal lines `h` and the vertical lines `v`.
pub open spec fn grid_cell(
    h: Seq<LinePos>,
    v: Seq<LinePos>,
    width: nat,
    height: nat,
    r: int,
    c: int,
) -> CellRect {
    CellRect {
        x: boundary(v, width, c) as u32,
        y: boundary(h, height, r) as u32,
        width: (boundary(v, width, c + 1) - boundary(v, width, c)) as u32,
        height: (boundary(h, height, r + 1) - boundary(h, height, r)) as u32,
    }
}

/// Some cell of the grid holds the pixel `(px, py)`.
pub open spec fn covered(h: Seq<LinePos>, v: Seq<LinePos>, width: nat, height: nat, px: int, py: int) -> bool {
    exists|r: int, c: int|
        0 <= r <= h.len() && 0 <= c <= v.len() && (#[trigger] grid_cell(h, v, width, height, r, c)).contains(px, py)
}

/// The boundaries of an axis of `extent` pixels: `[0] ++ pixels of lines ++ [extent]`.
pub fn boundaries(lines: &Vec<LinePos>, extent: u32) -> (r: Vec<u32>)
    requires
        lines_wf(lines@),
        lines@.len() + 2 <= usize::MAX,
    ensures
        r@.len() == lines@.len() + 2,
        forall|k: int| 0 <= k < r@.len() ==> r@[k] == boundary(lines@, extent as nat, k),
{
    let mut out: Vec<u32> = Vec::new();
    out.push(0);
    let mut i: usize = 0;
    while i < lines.len()
        invariant
            i <= lines@.len(),
            lines_wf(lines@),
            out@.len() == i + 1,
            forall|k: int| 0 <= k < out@.len() ==> out@[k] == boundary(lines@, extent as nat, k),
        decreases lines@.len() - i,
    {
        let p = lines[i].pixel_of(extent);
        out.push(p);
        i = i + 1;
    }
    out.push(extent);
    out
}

/// The cell rectangles of an image of `width` by `height` pixels under
/// `config`, row by row: `lines + 1` rows of `lines + 1` cells each, counted
/// from the lines themselves and not from the nominal `rows` and `cols`.
pub fn cell_rects(config: &SplitConfig, width: u32, height: u32) -> (r: Vec<Vec<CellRect>>)
    requires
        config.committed(),
        config.h_lines@.len() + 2 <= usize::MAX,
        config.v_lines@.len() + 2 <= usize::MAX,
    ensures
        r@.len() == config.h_lines@.len() + 1,
        forall|i: int| 0 <= i < r@.len() ==> (#[trigger] r@[i])@.len() == config.v_lines@.len() + 1,
        forall|i: int, j: int|
            0 <= i < r@.len() && 0 <= j < r@[i]@.len() ==> (#[trigger] r@[i]@[j]) == grid_cell(
                config.h_lines@,
                config.v_lines@,
                width as nat,
                height as nat,
                i,
                j,
            ),
        forall|i: int, j: int|
            0 <= i < r@.len() && 0 <= j < r@[i]@.len() ==> (#[trigger] r@[i]@[j]).x + r@[i]@[j].width
                <= width && r@[i]@[j].y + r@[i]@[j].height <= height,
{
    let ghost h = config.h_lines@;
    let ghost v = config.v_lines@;
    let hpos = boundaries(&config.h_lines, height);
    let vpos = boundaries(&config.v_lines, width);
    proof {
        lemma_boundaries_ordered(h, height as nat);
        lemma_boundaries_ordered(v, width as nat);
    }
    let rows = config.h_lines.len() + 1;
    let cols = config.v_lines.len() + 1;
    let mut grid: Vec<Vec<CellRect>> = Vec::new();
    let mut i: usize = 0;
    while i < rows
        invariant
            i <= rows,
            rows == h.len() + 1,
            cols == v.len() + 1,
            hpos@.len() == h.len() + 2,
            vpos@.len() == v.len() + 2,
            forall|k: int| 0 <= k < hpos@.len() ==> hpos@[k] == boundary(h, height as nat, k),
            forall|k: int| 0 <= k < vpos@.len() ==> vpos@[k] == boundary(v, width as nat, k),
            forall|a: int, b: int|
                a <= b ==> boundary(h, height as nat, a) <= boundary(h, height as nat, b),
            forall|a: int, b: int|
                a <= b ==> boundary(v, width as nat, a) <= boundary(v, width as nat, b),
            grid@.len() == i,
            forall|a: int| 0 <= a < i ==> (#[trigger] grid@[a])@.len() == cols,
            forall|a: int, b: int|
                0 <= a < i && 0 <= b < cols ==> (#[trigger] grid@[a]@[b]) == grid_cell(
                    h,
                    v,
                    width as nat,
                    height as nat,
                    a,
                    b,
                ),
        decreases rows - i,
    {
        let top = hpos[i];
        let bottom = hpos[i + 1];
        assert(top <= bottom);
        let mut row: Vec<CellRect> = Vec::new();
        let mut j: usize = 0;
        while j < cols
            invariant
                i < rows,
                j <= cols,
                rows == h.len() + 1,
                cols == v.len() + 1,
                vpos@.len() == v.len() + 2,
                forall|k: int| 0 <= k < vpos@.len() ==> vpos@[k] == boundary(v, width as nat, k),
                forall|a: int, b: int|
                    a <= b ==> boundary(v, width as nat, a) <= boundary(v, width as nat, b),
                top == boundary(h, height as nat, i as int),
                bottom == boundary(h, height as nat, i + 1),
                top <= bottom,
                row@.len() == j,
                forall|b: int|
                    0 <= b < j ==> (#[trigger] row@[b]) == grid_cell(
                        h,
                        v,
                        width as nat,
                        height as nat,
                        i as int,
                        b,
                    ),
            decreases cols - j,
        {
            let left = vpos[j];
            let right = vpos[j + 1];
            assert(left <= right);
            row.push(CellRect { x: left, y: top, width: right - left, height: bottom - top });
            j = j + 1;
        }
        grid.push(row);
        i = i + 1;
    }
    proof {
        assert forall|a: int, b: int| 0 <= a < grid@.len() && 0 <= b < grid@[a]@.len() implies (
        #[trigger] grid@[a]@[b]).x + grid@[a]@[b].width <= width && grid@[a]@[b].y
            + grid@[a]@[b].height <= height by {
            lemma_cell_edges(h, v, width as nat, height as nat, a, b);
            assert(boundary(h, height as nat, a + 1) <= boundary(h, height as nat, (h.len() + 1) as int));
            assert(boundary(v, width as nat, b + 1) <= boundary(v, width as nat, (v.len() + 1) as int));
        }
    }
    grid
}

/// Under lines in order, the boundaries of an axis are in order.
pub proof fn lemma_boundaries_ordered(lines: Seq<LinePos>, extent: nat)
    requires
        lines_wf(lines),
        lines_sorted(lines),
    ensures
        forall|a: int, b: int|
            a <= b ==> #[trigger] boundary(lines, extent, a) <= #[trigger] boundary(
                lines,
                extent,
                b,
            ),
{
    assert forall|a: int, b: int| a <= b implies #[trigger] boundary(lines, extent, a)
        <= #[trigger] boundary(lines, extent, b) by {
        if 1 <= a <= lines.len() {
            lemma_pixel_bounded(lines[a - 1], extent);
            if b <= lines.len() && a < b {
                lemma_pixel_monotone(lines[a - 1], lines[b - 1], extent);
            }
        }
    }
}

/// Within range, a cell's casts are exact: its left edge is boundary `c`, its
/// right edge boundary `c + 1`, and likewise for rows.
proof fn lemma_cell_edges(h: Seq<LinePos>, v: Seq<LinePos>, width: nat, height: nat, r: int, c: int)
    requires
        lines_wf(h),
        lines_sorted(h),
        lines_wf(v),
        lines_sorted(v),
        width <= u32::MAX,
        height <= u32::MAX,
        0 <= r <= h.len(),
        0 <= c <= v.len(),
    ensures
        grid_cell(h, v, width, height, r, c).x == boundary(v, width, c),
        grid_cell(h, v, width, height, r, c).x + grid_cell(h, v, width, height, r, c).width
            == boundary(v, width, c + 1),
        grid_cell(h, v, width, height, r, c).y == boundary(h, height, r),
        grid_cell(h, v, width, height, r, c).y + grid_cell(h, v, width, height, r, c).height
            == boundary(h, height, r + 1),
{
    lemma_boundaries_ordered(h, height);
    lemma_boundaries_ordered(v, width);
    assert(boundary(v, width, c) <= boundary(v, width, c + 1));
    assert(boundary(v, width, c + 1) <= boundary(v, width, (v.len() + 1) as int));
    assert(boundary(h, height, r) <= boundary(h, height, r + 1));
    assert(boundary(h, height, r + 1) <= boundary(h, height, (h.len() + 1) as int));
}

/// Some interval `[boundary(k), boundary(k + 1))` with `k >= from` holds `p`.
proof fn lemma_locate_from(lines: Seq<LinePos>, extent: nat, p: int, from: int) -> (k: int)
    requires
        lines_wf(lines),
        lines_sorted(lines),
        0 <= from <= lines.len(),
        boundary(lines, extent, from) <= p < extent,
    ensures
        from <= k <= lines.len(),
        boundary(lines, extent, k) <= p < boundary(lines, extent, k + 1),
    decreases lines.len() - from,
{
    if p < boundary(lines, extent, from + 1) {
        from
    } else {
        lemma_locate_from(lines, extent, p, from + 1)
    }
}

/// The interval of boundaries that holds a pixel is unique.
proof fn lemma_interval_unique(lines: Seq<LinePos>, extent: nat, p: int, k1: int, k2: int)
    requires
        lines_wf(lines),
        lines_sorted(lines),
        boundary(lines, extent, k1) <= p < boundary(lines, extent, k1 + 1),
        boundary(lines, extent, k2) <= p < boundary(lines, extent, k2 + 1),
    ensures
        k1 == k2,
{
    lemma_boundaries_ordered(lines, extent);
    if k1 < k2 {
        assert(boundary(lines, extent, k1 + 1) <= boundary(lines, extent, k2));
    } else if k2 < k1 {
        assert(boundary(lines, extent, k2 + 1) <= boundary(lines, extent, k1));
    }
}

/// Partitioning an image of `width` by `height` pixels with lines in order
/// gives `(h.len() + 1) * (v.len() + 1)` cells that tile the image exactly:
/// every pixel of the image lies in exactly one cell, and no cell reaches
/// outside the image.
pub proof fn lemma_cells_tile(h: Seq<LinePos>, v: Seq<LinePos>, width: nat, height: nat)
    requires
        lines_wf(h),
        lines_sorted(h),
        lines_wf(v),
        lines_sorted(v),
        width <= u32::MAX,
        height <= u32::MAX,
    ensures
        forall|px: int, py: int|
            0 <= px < width && 0 <= py < height ==> #[trigger] covered(h, v, width, height, px, py),
        forall|r1: int, c1: int, r2: int, c2: int, px: int, py: int|
            0 <= r1 <= h.len() && 0 <= c1 <= v.len() && 0 <= r2 <= h.len() && 0 <= c2 <= v.len()
                && #[trigger] grid_cell(h, v, width, height, r1, c1).contains(px, py)
                && #[trigger] grid_cell(h, v, width, height, r2, c2).contains(px, py) ==> r1
                == r2 && c1 == c2,
        forall|r: int, c: int, px: int, py: int|
            0 <= r <= h.len() && 0 <= c <= v.len() && #[trigger] grid_cell(h, v, width, height, r, c).contains(px, py) ==> 0 <= px < width && 0 <= py < height,
{
    lemma_boundaries_ordered(h, height);
    lemma_boundaries_ordered(v, width);
    assert forall|px: int, py: int| 0 <= px < width && 0 <= py < height implies #[trigger] covered(
        h,
        v,
        width,
        height,
        px,
        py,
    ) by {
        let r = lemma_locate_from(h, height, py, 0);
        let c = lemma_locate_from(v, width, px, 0);
        lemma_cell_edges(h, v, width, height, r, c);
        assert(grid_cell(h, v, width, height, r, c).contains(px, py));
    }
    assert forall|r1: int, c1: int, r2: int, c2: int, px: int, py: int|
        0 <= r1 <= h.len() && 0 <= c1 <= v.len() && 0 <= r2 <= h.len() && 0 <= c2 <= v.len()
            && #[trigger] grid_cell(h, v, width, height, r1, c1).contains(px, py)
            && #[trigger] grid_cell(h, v, width, height, r2, c2).contains(px, py) implies r1
        == r2 && c1 == c2 by {
        lemma_cell_edges(h, v, width, height, r1, c1);
        lemma_cell_edges(h, v, width, height, r2, c2);
        lemma_interval_unique(h, height, py, r1, r2);
        lemma_interval_unique(v, width, px, c1, c2);
    }
    assert forall|r: int, c: int, px: int, py: int|
        0 <= r <= h.len() && 0 <= c <= v.len() && #[trigger] grid_cell(h, v, width, height, r, c).contains(px, py) implies 0 <= px < width && 0 <= py < height by {
        lemma_cell_edges(h, v, width, height, r, c);
        assert(boundary(h, height, r + 1) <= boundary(h, height, (h.len() + 1) as int));
        assert(boundary(v, width, c + 1) <= boundary(v, width, (v.len() + 1) as int));
    }
}

/// Cells with lines in order fit back together: within a row the cells share
/// their top edge and height and abut left to right from column 0 to the
/// image's width; within a column they share their left edge and width and
/// abut top to bottom from row 0 to the image's height.
pub proof fn lemma_cells_rejoin(h: Seq<LinePos>, v: Seq<LinePos>, width: nat, height: nat)
    requires
        lines_wf(h),
        lines_sorted(h),
        lines_wf(v),
        lines_sorted(v),
        width <= u32::MAX,
        height <= u32::MAX,
    ensures
        forall|r: int|
            0 <= r <= h.len() ==> (#[trigger] grid_cell(h, v, width, height, r, 0)).x == 0,
        forall|r: int|
            0 <= r <= h.len() ==> (#[trigger] grid_cell(h, v, width, height, r, v.len() as int)).x
                + grid_cell(h, v, width, height, r, v.len() as int).width == width,
        forall|c: int|
            0 <= c <= v.len() ==> (#[trigger] grid_cell(h, v, width, height, 0, c)).y == 0,
        forall|c: int|
            0 <= c <= v.len() ==> (#[trigger] grid_cell(h, v, width, height, h.len() as int, c)).y
                + grid_cell(h, v, width, height, h.len() as int, c).height == height,
        forall|r: int, c: int|
            0 <= r <= h.len() && 0 <= c < v.len() ==> (#[trigger] grid_cell(
                h,
                v,
                width,
                height,
                r,
                c,
            )).x + grid_cell(h, v, width, height, r, c).width == grid_cell(
                h,
                v,
                width,
                height,
                r,
                c + 1,
            ).x,
        forall|r: int, c: int|
            0 <= r < h.len() && 0 <= c <= v.len() ==> (#[trigger] grid_cell(
                h,
                v,
                width,
                height,
                r,
                c,
            )).y + grid_cell(h, v, width, height, r, c).height == grid_cell(
                h,
                v,
                width,
                height,
                r + 1,
                c,
            ).y,
        forall|r: int, c: int|
            0 <= r <= h.len() && 0 <= c <= v.len() ==> (#[trigger] grid_cell(
                h,
                v,
                width,
                height,
                r,
                c,
            )).y == grid_cell(h, v, width, height, r, 0).y && grid_cell(
                h,
                v,
                width,
                height,
                r,
                c,
            ).height == grid_cell(h, v, width, height, r, 0).height && grid_cell(
                h,
                v,
                width,
                height,
                r,
                c,
            ).x == grid_cell(h, v, width, height, 0, c).x && grid_cell(
                h,
                v,
                width,
                height,
                r,
                c,
            ).width == grid_cell(h, v, width, height, 0, c).width,
{
    assert forall|r: int, c: int| 0 <= r <= h.len() && 0 <= c <= v.len() implies {
        let cell = #[trigger] grid_cell(h, v, width, height, r, c);
        &&& cell.x == boundary(v, width, c)
        &&& cell.x + cell.width == boundary(v, width, c + 1)
        &&& cell.y == boundary(h, height, r)
        &&& cell.y + cell.height == boundary(h, height, r + 1)
    } by {
        lemma_cell_edges(h, v, width, height, r, c);
    }
}

/// Partitioning with the evenly spaced lines of `SplitConfig::new(rows, cols)`
/// and joining the cells back left to right, top to bottom gives back exactly
/// the image's bounds: the cells tile `[0, width) x [0, height)` and fit
/// together edge to edge.
pub proof fn lemma_even_grid_rejoins(rows: usize, cols: usize, width: nat, height: nat)
    requires
        rows >= 1,
        cols >= 1,
        width <= u32::MAX,
        height <= u32::MAX,
    ensures
        forall|r: int|
            0 <= r < rows ==> (#[trigger] grid_cell(
                even_lines(rows),
                even_lines(cols),
                width,
                height,
                r,
                0,
            )).x == 0 && grid_cell(
                even_lines(rows),
                even_lines(cols),
                width,
                height,
                r,
                cols - 1,
            ).x + grid_cell(even_lines(rows), even_lines(cols), width, height, r, cols - 1).width
                == width,
        forall|c: int|
            0 <= c < cols ==> (#[trigger] grid_cell(
                even_lines(rows),
                even_lines(cols),
                width,
                height,
                0,
                c,
            )).y == 0 && grid_cell(
                even_lines(rows),
                even_lines(cols),
                width,
                height,
                rows - 1,
                c,
            ).y + grid_cell(even_lines(rows), even_lines(cols), width, height, rows - 1, c).height
                == height,
        forall|r: int, c: int|
            0 <= r < rows && 0 <= c < cols - 1 ==> (#[trigger] grid_cell(
                even_lines(rows),
                even_lines(cols),
                width,
                height,
                r,
                c,
            )).x + grid_cell(even_lines(rows), even_lines(cols), width, height, r, c).width
                == grid_cell(even_lines(rows), even_lines(cols), width, height, r, c + 1).x,
        forall|r: int, c: int|
            0 <= r < rows - 1 && 0 <= c < cols ==> (#[trigger] grid_cell(
                even_lines(rows),
                even_lines(cols),
                width,
                height,
                r,
                c,
            )).y + grid_cell(even_lines(rows), even_lines(cols), width, height, r, c).height
                == grid_cell(even_lines(rows), even_lines(cols), width, height, r + 1, c).y,
        forall|px: int, py: int|
            0 <= px < width && 0 <= py < height ==> #[trigger] covered(
                even_lines(rows),
                even_lines(cols),
                width,
                height,
                px,
                py,
            ),
{
    let h = even_lines(rows);
    let v = even_lines(cols);
    lemma_even_lines(rows);
    lemma_even_lines(cols);
    lemma_cells_rejoin(h, v, width, height);
    lemma_cells_tile(h, v, width, height);
    assert(h.len() == rows - 1);
    assert(v.len() == cols - 1);
    assert forall|r: int| 0 <= r < rows implies (#[trigger] grid_cell(h, v, width, height, r, 0)).x
        == 0 && grid_cell(h, v, width, height, r, cols - 1).x + grid_cell(
        h,
        v,
        width,
        height,
        r,
        cols - 1,
    ).width == width by {
        assert(grid_cell(h, v, width, height, r, v.len() as int) == grid_cell(
            h,
            v,
            width,
            height,
            r,
            cols - 1,
        ));
    }
    assert forall|c: int| 0 <= c < cols implies (#[trigger] grid_cell(h, v, width, height, 0, c)).y
        == 0 && grid_cell(h, v, width, height, rows - 1, c).y + grid_cell(
        h,
        v,
        width,
        height,
        rows - 1,
        c,
    ).height == height by {
        assert(grid_cell(h, v, width, height, h.len() as int, c) == grid_cell(
            h,
            v,
            width,
            height,
            rows - 1,
            c,
        ));
    }
}

} // verus!
