//! Editing a configuration: adding, removing and moving lines, and putting an
//! axis back in order once a drag ends.

use vstd::prelude::*;
use crate::config::{lines_sorted, lines_wf, SplitConfig};
use crate::line::{lemma_le_trans, lemma_lt_trans, LineKind, LinePos};

verus! {

broadcast use vstd::seq_lib::group_to_multiset_ensures;

/// `s` without the entries whose index is listed in `indices`.
pub open spec fn without_indices(s: Seq<LinePos>, indices: Seq<usize>) -> Seq<LinePos>
    decreases s.len(),
{
    if s.len() == 0 {
        s
    } else {
        let rest = without_indices(s.drop_last(), indices);
        if indices.contains((s.len() - 1) as usize) {
            rest
        } else {
            rest.push(s.last())
        }
    }
}

/// Inserts `x` into the ordered `v` after every line at or before it, and
/// returns the index where it went.
fn insert_in_order(v: &mut Vec<LinePos>, x: LinePos) -> (k: usize)
    requires
        lines_wf(old(v)@),
        lines_sorted(old(v)@),
        x.wf(),
        old(v)@.len() < usize::MAX,
    ensures
        k <= old(v)@.len(),
        final(v)@ == old(v)@.insert(k as int, x),
        forall|i: int| 0 <= i < k ==> (#[trigger] old(v)@[i]).le(x),
        forall|i: int| k <= i < old(v)@.len() ==> x.lt(#[trigger] old(v)@[i]),
        lines_wf(final(v)@),
        lines_sorted(final(v)@),
{
    let ghost s = v@;
    let mut k: usize = 0;
    while k < v.len() && v[k].at_or_before(&x)
        invariant
            v@ == s,
            k <= s.len(),
            forall|i: int| 0 <= i < k ==> (#[trigger] s[i]).le(x),
        decreases s.len() - k,
    {
        k = k + 1;
    }
    proof {
        assert forall|i: int| k <= i < s.len() implies x.lt(#[trigger] s[i]) by {
            assert(x.lt(s[k as int]));
            if i > k {
                lemma_lt_trans(x, s[k as int], s[i]);
            }
        }
    }
    v.insert(k, x);
    proof {
        let t = v@;
        assert forall|i: int| 0 <= i < t.len() implies (#[trigger] t[i]).wf() by {
            if i > k {
                assert(t[i] == s[i - 1]);
            }
        }
        assert forall|i: int, j: int| 0 <= i < j < t.len() implies (#[trigger] t[i]).le(
            #[trigger] t[j],
        ) by {
            if j < k {
                assert(s[i].le(s[j]));
            } else if j == k {
                assert(s[i].le(x));
            } else if i == k {
                assert(x.lt(s[j - 1]));
            } else if i < k {
                assert(t[j] == s[j - 1]);
                assert(s[i].le(s[j - 1]));
            } else {
                assert(t[i] == s[i - 1]);
                assert(t[j] == s[j - 1]);
                assert(s[i - 1].le(s[j - 1]));
            }
        }
    }
    k
}

/// The lines of `lines` in order of position; lines at the same position
/// keep their order, so lines already in order come back unchanged.
fn ordered_lines(lines: &Vec<LinePos>) -> (r: Vec<LinePos>)
    requires
        lines_wf(lines@),
    ensures
        r@.len() == lines@.len(),
        lines_wf(r@),
        lines_sorted(r@),
        r@.to_multiset() == lines@.to_multiset(),
        lines_sorted(lines@) ==> r@ == lines@,
{
    let mut out: Vec<LinePos> = Vec::new();
    let mut i: usize = 0;
    while i < lines.len()
        invariant
            i <= lines@.len(),
            lines_wf(lines@),
            out@.len() == i,
            lines_wf(out@),
            lines_sorted(out@),
            out@.to_multiset() == lines@.take(i as int).to_multiset(),
            lines_sorted(lines@) ==> out@ == lines@.take(i as int),
        decreases lines@.len() - i,
    {
        let x = lines[i];
        let ghost before = out@;
        let k = insert_in_order(&mut out, x);
        proof {
            assert(lines@.take(i + 1) == lines@.take(i as int).push(x));
            if lines_sorted(lines@) {
                if k < i {
                    assert(x.lt(before[k as int]));
                    assert(before[k as int] == lines@[k as int]);
                    assert(lines@[k as int].le(x));
                }
                assert(out@ =~= lines@.take(i + 1));
            }
        }
        i = i + 1;
    }
    proof {
        assert(lines@.take(lines@.len() as int) == lines@);
    }
    out
}

/// The lines of `lines` with `pos` added in order, after every line at or
/// before it, and the index of the first line at the place of `pos`.
fn place_line(lines: &Vec<LinePos>, pos: LinePos) -> (r: (Vec<LinePos>, usize))
    requires
        lines_wf(lines@),
        pos.wf(),
        lines@.len() + 2 <= usize::MAX,
    ensures
        r.0@.len() == lines@.len() + 1,
        lines_wf(r.0@),
        lines_sorted(r.0@),
        r.0@.to_multiset() == lines@.to_multiset().insert(pos),
        lines_sorted(lines@) ==> exists|k: int|
            0 <= k <= lines@.len() && r.0@ == lines@.insert(k, pos) && (forall|i: int|
                0 <= i < k ==> (#[trigger] lines@[i]).le(pos)) && (forall|i: int|
                k <= i < lines@.len() ==> pos.lt(#[trigger] lines@[i])),
        r.1 < r.0@.len(),
        r.0@[r.1 as int].same_place(pos),
        forall|i: int| 0 <= i < r.1 ==> (#[trigger] r.0@[i]).lt(pos),
{
    let mut out = ordered_lines(lines);
    let ghost sorted = out@;
    let k = insert_in_order(&mut out, pos);
    proof {
        assert(out@[k as int] == pos);
    }
    let mut first: usize = 0;
    while first < k && out[first].precedes(&pos)
        invariant
            first <= k,
            k < out@.len(),
            out@[k as int] == pos,
            forall|i: int| 0 <= i < first ==> (#[trigger] out@[i]).lt(pos),
        decreases k - first,
    {
        first = first + 1;
    }
    proof {
        if first < k {
            assert(out@[first as int].le(out@[k as int]));
        }
        if lines_sorted(lines@) {
            assert(sorted == lines@);
            assert(out@ == lines@.insert(k as int, pos));
        }
    }
    (out, first)
}

/// Whether `i` is listed in `indices`.
fn listed(indices: &Vec<usize>, i: usize) -> (r: bool)
    ensures
        r == indices@.contains(i),
{
    let mut k: usize = 0;
    while k < indices.len()
        invariant
            k <= indices@.len(),
            forall|a: int| 0 <= a < k ==> indices@[a] != i,
        decreases indices@.len() - k,
    {
        if indices[k] == i {
            return true;
        }
        k = k + 1;
    }
    false
}

/// `lines` without the entries whose index is listed in `indices`; indices out
/// of range are ignored.
fn drop_listed(lines: &Vec<LinePos>, indices: &Vec<usize>) -> (r: Vec<LinePos>)
    ensures
        r@ == without_indices(lines@, indices@),
        lines_wf(lines@) ==> lines_wf(r@),
        lines_sorted(lines@) ==> lines_sorted(r@),
{
    let mut out: Vec<LinePos> = Vec::new();
    let mut i: usize = 0;
    while i < lines.len()
        invariant
            i <= lines@.len(),
            out@ == without_indices(lines@.take(i as int), indices@),
            out@.len() <= i,
            forall|a: int|
                0 <= a < out@.len() ==> exists|j: int| 0 <= j < i && #[trigger] out@[a] == lines@[j],
            lines_sorted(lines@) ==> lines_sorted(out@),
        decreases lines@.len() - i,
    {
        let ghost before = out@;
        proof {
            assert(lines@.take(i + 1).drop_last() == lines@.take(i as int));
            assert(lines@.take(i + 1).last() == lines@[i as int]);
        }
        if !listed(indices, i) {
            out.push(lines[i]);
        }
        proof {
            assert forall|a: int| 0 <= a < out@.len() implies exists|j: int|
                0 <= j < i + 1 && #[trigger] out@[a] == lines@[j] by {
                if a == out@.len() - 1 && !indices@.contains(i) {
                    assert(out@[a] == lines@[i as int]);
                } else {
                    let j = choose|j: int| 0 <= j < i && #[trigger] out@[a] == lines@[j];
                }
            }
            if lines_sorted(lines@) && !indices@.contains(i) {
                assert forall|a: int, b: int| 0 <= a < b < out@.len() implies (#[trigger] out@[a]).le(
                    #[trigger] out@[b],
                ) by {
                    if b == out@.len() - 1 {
                        let j = choose|j: int| 0 <= j < i && #[trigger] before[a] == lines@[j];
                        assert(lines@[j].le(lines@[i as int]));
                    } else {
                        assert(before[a].le(before[b]));
                    }
                }
            }
        }
        i = i + 1;
    }
    proof {
        assert(lines@.take(lines@.len() as int) == lines@);
        if lines_wf(lines@) {
            assert forall|a: int| 0 <= a < out@.len() implies (#[trigger] out@[a]).wf() by {
                let j = choose|j: int| 0 <= j < lines@.len() && #[trigger] out@[a] == lines@[j];
            }
        }
    }
    out
}

impl SplitConfig {
    /// Adds a line at `pos` to the axis `kind`: the lines of that axis are put
    /// in order with the new one after those at or before it, and the count of
    /// that axis becomes the number of its lines plus one. Returns the index of
    /// the first line at the place of `pos`, the one to show as selected.
    pub fn add_line(&mut self, kind: LineKind, pos: LinePos) -> (r: usize)
        requires
            old(self).positions_wf(),
            pos.wf(),
            old(self).lines(kind).len() + 2 <= usize::MAX,
        ensures
            final(self).positions_wf(),
            lines_sorted(final(self).lines(kind)),
            final(self).lines(kind).to_multiset() == old(self).lines(kind).to_multiset().insert(pos),
            lines_sorted(old(self).lines(kind)) ==> exists|k: int|
                0 <= k <= old(self).lines(kind).len() && final(self).lines(kind) == old(self).lines(
                    kind,
                ).insert(k, pos) && (forall|i: int|
                    0 <= i < k ==> (#[trigger] old(self).lines(kind)[i]).le(pos)) && (forall|i: int|
                    k <= i < old(self).lines(kind).len() ==> pos.lt(
                        #[trigger] old(self).lines(kind)[i],
                    )),
            final(self).count(kind) == final(self).lines(kind).len() + 1,
            r < final(self).lines(kind).len(),
            final(self).lines(kind)[r as int].same_place(pos),
            forall|i: int| 0 <= i < r ==> (#[trigger] final(self).lines(kind)[i]).lt(pos),
            kind is Horizontal ==> final(self).cols == old(self).cols && final(self).v_lines@ == old(
                self,
            ).v_lines@,
            kind is Vertical ==> final(self).rows == old(self).rows && final(self).h_lines@ == old(
                self,
            ).h_lines@,
    {
        match kind {
            LineKind::Horizontal => {
                let (lines, r) = place_line(&self.h_lines, pos);
                self.rows = lines.len() + 1;
                self.h_lines = lines;
                r
            },
            LineKind::Vertical => {
                let (lines, r) = place_line(&self.v_lines, pos);
                self.cols = lines.len() + 1;
                self.v_lines = lines;
                r
            },
        }
    }

    /// Removes from the axis `kind` the lines whose indices are listed (an
    /// index out of range is ignored, one listed twice counts once); the count
    /// of that axis becomes the number of its lines plus one. The lines left
    /// keep their order.
    pub fn remove_lines(&mut self, kind: LineKind, indices: &Vec<usize>)
        requires
            old(self).lines(kind).len() + 1 <= usize::MAX,
        ensures
            final(self).lines(kind) == without_indices(old(self).lines(kind), indices@),
            final(self).count(kind) == final(self).lines(kind).len() + 1,
            lines_wf(old(self).lines(kind)) ==> lines_wf(final(self).lines(kind)),
            lines_sorted(old(self).lines(kind)) ==> lines_sorted(final(self).lines(kind)),
            kind is Horizontal ==> final(self).cols == old(self).cols && final(self).v_lines@ == old(
                self,
            ).v_lines@,
            kind is Vertical ==> final(self).rows == old(self).rows && final(self).h_lines@ == old(
                self,
            ).h_lines@,
    {
        proof {
            lemma_without_indices_len(self.lines(kind), indices@);
        }
        match kind {
            LineKind::Horizontal => {
                let lines = drop_listed(&self.h_lines, indices);
                self.rows = lines.len() + 1;
                self.h_lines = lines;
            },
            LineKind::Vertical => {
                let lines = drop_listed(&self.v_lines, indices);
                self.cols = lines.len() + 1;
                self.v_lines = lines;
            },
        }
    }

    /// Moves line `index` of the axis `kind` to `pos` in place, as a drag does:
    /// the lines are not put back in order and the counts stay as they are
    /// until `commit`. An index out of range changes nothing.
    pub fn move_line(&mut self, kind: LineKind, index: usize, pos: LinePos)
        ensures
            final(self).lines(kind) == if index < old(self).lines(kind).len() {
                old(self).lines(kind).update(index as int, pos)
            } else {
                old(self).lines(kind)
            },
            final(self).rows == old(self).rows,
            final(self).cols == old(self).cols,
            kind is Horizontal ==> final(self).v_lines@ == old(self).v_lines@,
            kind is Vertical ==> final(self).h_lines@ == old(self).h_lines@,
    {
        match kind {
            LineKind::Horizontal => {
                if index < self.h_lines.len() {
                    self.h_lines.set(index, pos);
                }
            },
            LineKind::Vertical => {
                if index < self.v_lines.len() {
                    self.v_lines.set(index, pos);
                }
            },
        }
    }

    /// Ends an edit of the axis `kind`: puts its lines back in order (lines at
    /// the same position keep their order) and sets its count to the number
    /// of its lines plus one.
    pub fn commit(&mut self, kind: LineKind)
        requires
            lines_wf(old(self).lines(kind)),
            old(self).lines(kind).len() + 1 <= usize::MAX,
        ensures
            lines_wf(final(self).lines(kind)),
            lines_sorted(final(self).lines(kind)),
            final(self).lines(kind).to_multiset() == old(self).lines(kind).to_multiset(),
            lines_sorted(old(self).lines(kind)) ==> final(self).lines(kind) == old(self).lines(kind),
            final(self).count(kind) == final(self).lines(kind).len() + 1,
            kind is Horizontal ==> final(self).cols == old(self).cols && final(self).v_lines@ == old(
                self,
            ).v_lines@,
            kind is Vertical ==> final(self).rows == old(self).rows && final(self).h_lines@ == old(
                self,
            ).h_lines@,
    {
        proof {
            old(self).lines(kind).to_multiset_ensures();
        }
        match kind {
            LineKind::Horizontal => {
                let lines = ordered_lines(&self.h_lines);
                proof {
                    lines@.to_multiset_ensures();
                }
                self.rows = lines.len() + 1;
                self.h_lines = lines;
            },
            LineKind::Vertical => {
                let lines = ordered_lines(&self.v_lines);
                proof {
                    lines@.to_multiset_ensures();
                }
                self.cols = lines.len() + 1;
                self.v_lines = lines;
            },
        }
    }
}

proof fn lemma_without_indices_len(s: Seq<LinePos>, indices: Seq<usize>)
    ensures
        without_indices(s, indices).len() <= s.len(),
    decreases s.len(),
{
    if s.len() > 0 {
        lemma_without_indices_len(s.drop_last(), indices);
    }
}

} // verus!
