//! The split configuration of one image: where its horizontal and vertical
//! split lines stand.

use vstd::prelude::*;
use crate::line::{lemma_le_trans, LineKind, LinePos};

verus! {

/// Every position of `s` lies in `[0, 1]`.
pub open spec fn lines_wf(s: Seq<LinePos>) -> bool {
    forall|i: int| 0 <= i < s.len() ==> (#[trigger] s[i]).wf()
}

/// `s` is in non-decreasing order of position (equal positions allowed).
pub open spec fn lines_sorted(s: Seq<LinePos>) -> bool {
    forall|i: int, j: int| 0 <= i < j < s.len() ==> (#[trigger] s[i]).le(#[trigger] s[j])
}

/// `s` is in strictly increasing order of position.
pub open spec fn lines_increasing(s: Seq<LinePos>) -> bool {
    forall|i: int, j: int| 0 <= i < j < s.len() ==> (#[trigger] s[i]).lt(#[trigger] s[j])
}

/// The evenly spaced lines that divide an axis into `count` equal parts:
/// `1/count, 2/count, ..., (count-1)/count`; none when `count` is 0 or 1.
pub open spec fn even_lines(count: usize) -> Seq<LinePos> {
    if count == 0 {
        Seq::empty()
    } else {
        Seq::new((count - 1) as nat, |i: int| LinePos { num: (i + 1) as usize, den: count })
    }
}

/// `count - 1`, or 0 when `count` is 0.
pub open spec fn saturating_pred(count: usize) -> nat {
    if count == 0 {
        0
    } else {
        (count - 1) as nat
    }
}

/// Row and column split lines of one image.
///
/// The number of rows and columns that partitioning produces is always
/// `h_lines.len() + 1` and `v_lines.len() + 1`; the `rows` and `cols` fields are
/// the nominal grid size, which the editing operations keep equal to those
/// counts.
#[derive(Clone, Debug)]
pub struct SplitConfig {
    pub rows: usize,
    pub cols: usize,
    pub h_lines: Vec<LinePos>,
    pub v_lines: Vec<LinePos>,
}

impl SplitConfig {
    /// The lines of one axis.
    pub open spec fn lines(self, kind: LineKind) -> Seq<LinePos> {
        match kind {
            LineKind::Horizontal => self.h_lines@,
            LineKind::Vertical => self.v_lines@,
        }
    }

    /// The nominal count of one axis: `rows` for horizontal lines, `cols` for vertical ones.
    pub open spec fn count(self, kind: LineKind) -> usize {
        match kind {
            LineKind::Horizontal => self.rows,
            LineKind::Vertical => self.cols,
        }
    }

    /// Every line position lies in `[0, 1]`.
    pub open spec fn positions_wf(self) -> bool {
        lines_wf(self.h_lines@) && lines_wf(self.v_lines@)
    }

    /// Ready to partition an image: positions in `[0, 1]` and each axis in order.
    pub open spec fn committed(self) -> bool {
        self.positions_wf() && lines_sorted(self.h_lines@) && lines_sorted(self.v_lines@)
    }

    /// The nominal counts agree with the lines.
    pub open spec fn spec_is_valid(self) -> bool {
        self.h_lines@.len() == saturating_pred(self.rows) && self.v_lines@.len()
            == saturating_pred(self.cols)
    }

    /// An evenly spaced grid of `rows` by `cols` cells.
    ///
    /// A count of 0 is a caller error; it yields no lines on that axis.
    pub fn new(rows: usize, cols: usize) -> (r: SplitConfig)
        ensures
            r.rows == rows,
            r.cols == cols,
            r.h_lines@ == even_lines(rows),
            r.v_lines@ == even_lines(cols),
            rows >= 1 ==> r.h_lines@.len() == rows - 1,
            cols >= 1 ==> r.v_lines@.len() == cols - 1,
            lines_increasing(r.h_lines@),
            lines_increasing(r.v_lines@),
            forall|i: int| 0 <= i < r.h_lines@.len() ==> (#[trigger] r.h_lines@[i]).interior(),
            forall|i: int| 0 <= i < r.v_lines@.len() ==> (#[trigger] r.v_lines@[i]).interior(),
            r.committed(),
            r.spec_is_valid(),
    {
        let mut config = SplitConfig { rows, cols, h_lines: Vec::new(), v_lines: Vec::new() };
        config.reset_to_default();
        proof {
            lemma_even_lines(rows);
            lemma_even_lines(cols);
        }
        config
    }

    /// Replaces the lines of both axes by the evenly spaced ones for the
    /// current `rows` and `cols`, discarding any custom positions.
    pub fn reset_to_default(&mut self)
        ensures
            final(self).rows == old(self).rows,
            final(self).cols == old(self).cols,
            final(self).h_lines@ == even_lines(old(self).rows),
            final(self).v_lines@ == even_lines(old(self).cols),
    {
        self.h_lines = even_split(self.rows);
        self.v_lines = even_split(self.cols);
    }

    /// Whether `rows` and `cols` agree with the number of lines on each axis.
    pub fn is_valid(&self) -> (r: bool)
        ensures
            r == self.spec_is_valid(),
    {
        self.h_lines.len() == self.rows.saturating_sub(1) && self.v_lines.len()
            == self.cols.saturating_sub(1)
    }
}

impl SplitConfig {
    /// Whether the configuration is ready to partition an image: every
    /// position in `[0, 1]` and each axis in order.
    pub fn is_committed(&self) -> (r: bool)
        ensures
            r == self.committed(),
    {
        lines_in_order(&self.h_lines) && lines_in_order(&self.v_lines)
    }
}

/// Whether every position of `lines` lies in `[0, 1]` and they are in order.
fn lines_in_order(lines: &Vec<LinePos>) -> (r: bool)
    ensures
        r == (lines_wf(lines@) && lines_sorted(lines@)),
{
    let ghost s = lines@;
    let mut i: usize = 0;
    while i < lines.len()
        invariant
            i <= s.len(),
            s == lines@,
            forall|a: int| 0 <= a < i ==> (#[trigger] s[a]).wf(),
            forall|a: int, b: int| 0 <= a < b < i ==> (#[trigger] s[a]).le(#[trigger] s[b]),
        decreases s.len() - i,
    {
        let p = lines[i];
        if !(p.den > 0 && p.num <= p.den) {
            return false;
        }
        if i > 0 {
            if !lines[i - 1].at_or_before(&p) {
                proof {
                    assert(!lines_sorted(s));
                }
                return false;
            }
            proof {
                assert forall|a: int| 0 <= a < i implies (#[trigger] s[a]).le(s[i as int]) by {
                    if a < i - 1 {
                        lemma_le_trans(s[a], s[i - 1], s[i as int]);
                    }
                }
            }
        }
        i = i + 1;
    }
    true
}

impl Default for SplitConfig {
    /// A single cell: one row, one column, no lines.
    fn default() -> (r: SplitConfig)
        ensures
            r.rows == 1,
            r.cols == 1,
            r.h_lines@.len() == 0,
            r.v_lines@.len() == 0,
    {
        SplitConfig { rows: 1, cols: 1, h_lines: Vec::new(), v_lines: Vec::new() }
    }
}

/// The evenly spaced lines for `count` parts.
fn even_split(count: usize) -> (r: Vec<LinePos>)
    ensures
        r@ == even_lines(count),
{
    let mut out: Vec<LinePos> = Vec::new();
    if count == 0 {
        return out;
    }
    let mut i: usize = 1;
    while i < count
        invariant
            1 <= i <= count,
            out@ == Seq::new((i - 1) as nat, |k: int| LinePos { num: (k + 1) as usize, den: count }),
        decreases count - i,
    {
        out.push(LinePos { num: i, den: count });
        i = i + 1;
    }
    out
}

/// The evenly spaced lines are strictly increasing, inside `(0, 1)`, and
/// number `count - 1`.
pub proof fn lemma_even_lines(count: usize)
    ensures
        even_lines(count).len() == saturating_pred(count),
        lines_increasing(even_lines(count)),
        lines_sorted(even_lines(count)),
        lines_wf(even_lines(count)),
        forall|i: int|
            0 <= i < even_lines(count).len() ==> (#[trigger] even_lines(count)[i]).interior(),
{
    let s = even_lines(count);
    assert forall|i: int, j: int| 0 <= i < j < s.len() implies (#[trigger] s[i]).lt(
        #[trigger] s[j],
    ) by {
        let c = count as int;
        assert((i + 1) * c < (j + 1) * c) by (nonlinear_arith)
            requires
                0 <= i < j,
                c > 0,
        ;
    }
    assert forall|i: int, j: int| 0 <= i < j < s.len() implies (#[trigger] s[i]).le(
        #[trigger] s[j],
    ) by {
        assert(s[i].lt(s[j]));
    }
}

} // verus!
