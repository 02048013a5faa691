//! Which configuration applies to which image: an image's own override when it
//! has one, the shared configuration otherwise.

use vstd::prelude::*;
use std::collections::HashMap;
use crate::config::SplitConfig;

verus! {

broadcast use vstd::std_specs::hash::group_hash_axioms;

/// The configuration in force for image `index`: its override in `overrides`
/// if there is one, else `global`.
pub open spec fn resolved(
    overrides: Map<usize, SplitConfig>,
    index: usize,
    global: SplitConfig,
) -> SplitConfig {
    if overrides.contains_key(index) {
        overrides[index]
    } else {
        global
    }
}

impl SplitConfig {
    /// Same counts and same lines.
    pub open spec fn same_as(self, o: SplitConfig) -> bool {
        self.rows == o.rows && self.cols == o.cols && self.h_lines@ == o.h_lines@
            && self.v_lines@ == o.v_lines@
    }

    /// An independent copy of this configuration.
    pub fn snapshot(&self) -> (r: SplitConfig)
        ensures
            r.same_as(*self),
    {
        SplitConfig {
            rows: self.rows,
            cols: self.cols,
            h_lines: copy_lines(&self.h_lines),
            v_lines: copy_lines(&self.v_lines),
        }
    }
}

fn copy_lines(lines: &Vec<crate::line::LinePos>) -> (r: Vec<crate::line::LinePos>)
    ensures
        r@ == lines@,
{
    let mut out = Vec::new();
    let mut i: usize = 0;
    while i < lines.len()
        invariant
            i <= lines@.len(),
            out@ == lines@.take(i as int),
        decreases lines@.len() - i,
    {
        out.push(lines[i]);
        i = i + 1;
        proof {
            assert(out@ =~= lines@.take(i as int));
        }
    }
    proof {
        assert(out@ =~= lines@);
    }
    out
}

/// The configuration in force for image `index`: the entry of `overrides` for
/// it if there is one, else `global`. Looked up afresh on every call, so a
/// later change of `global` shows for every image without an override.
pub fn resolve<'a>(
    index: usize,
    overrides: &'a HashMap<usize, SplitConfig>,
    global: &'a SplitConfig,
) -> (r: &'a SplitConfig)
    ensures
        *r == resolved(overrides@, index, *global),
{
    match overrides.get(&index) {
        Some(config) => config,
        None => global,
    }
}

/// Copies of the configurations in force for images `0 .. count`, taken once
/// so that a batch reads them while the shared ones may change.
pub fn resolve_all(
    count: usize,
    overrides: &HashMap<usize, SplitConfig>,
    global: &SplitConfig,
) -> (r: Vec<SplitConfig>)
    ensures
        r@.len() == count,
        forall|i: int|
            0 <= i < count ==> (#[trigger] r@[i]).same_as(resolved(overrides@, i as usize, *global)),
{
    let mut out: Vec<SplitConfig> = Vec::new();
    let mut i: usize = 0;
    while i < count
        invariant
            i <= count,
            out@.len() == i,
            forall|k: int|
                0 <= k < i ==> (#[trigger] out@[k]).same_as(resolved(overrides@, k as usize, *global)),
        decreases count - i,
    {
        let config = resolve(i, overrides, global);
        out.push(config.snapshot());
        i = i + 1;
    }
    out
}

/// An override takes precedence over the shared configuration, and only for
/// its own image: with `overrides` holding an entry for `index`, resolving
/// `index` gives that entry, under the shared configuration `before` as under
/// any later one `after`; without an entry, resolving gives the shared
/// configuration in force, so a change from `before` to `after` shows.
pub proof fn lemma_override_precedence(
    overrides: Map<usize, SplitConfig>,
    index: usize,
    before: SplitConfig,
    after: SplitConfig,
)
    ensures
        overrides.contains_key(index) ==> resolved(overrides, index, before) == overrides[index]
            && resolved(overrides, index, after) == overrides[index],
        !overrides.contains_key(index) ==> resolved(overrides, index, before) == before
            && resolved(overrides, index, after) == after,
{
}

} // verus!
