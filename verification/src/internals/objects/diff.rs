//! The difference between two snapshots of the staging area.

use vstd::prelude::*;

use crate::internals::objects::index::IndexTreeEntry;
use crate::text::str_eq;

verus! {

/// Whether no two entries of a snapshot have the same path.
pub open spec fn paths_unique(s: Seq<IndexTreeEntry>) -> bool {
    forall|i: int, j: int|
        0 <= i < s.len() && 0 <= j < s.len() && i != j ==> (#[trigger] s[i]).filepath@ != (
        #[trigger] s[j]).filepath@
}

/// Whether a snapshot has an entry for a path.
pub open spec fn has_path(s: Seq<IndexTreeEntry>, p: Seq<char>) -> bool {
    exists|i: int| 0 <= i < s.len() && (#[trigger] s[i]).filepath@ == p
}

/// The entry of a snapshot for a path it has.
pub open spec fn entry_for(s: Seq<IndexTreeEntry>, p: Seq<char>) -> IndexTreeEntry {
    s[choose|i: int| 0 <= i < s.len() && (#[trigger] s[i]).filepath@ == p]
}

/// How the entry of one path differs between two snapshots.
pub enum SingleDiffView {
    Added { after: IndexTreeEntry },
    Modified { before: IndexTreeEntry, after: IndexTreeEntry },
    Deleted { before: IndexTreeEntry },
}

/// The difference at a path between snapshot `s1` and the later snapshot
/// `s2`: none when both hold the same hash or neither has the path.
pub open spec fn spec_path_diff(s1: Seq<IndexTreeEntry>, s2: Seq<IndexTreeEntry>, p: Seq<char>) -> Option<
    SingleDiffView,
> {
    if has_path(s1, p) && has_path(s2, p) {
        if entry_for(s1, p).hash == entry_for(s2, p).hash {
            None
        } else {
            Some(SingleDiffView::Modified { before: entry_for(s1, p), after: entry_for(s2, p) })
        }
    } else if has_path(s1, p) {
        Some(SingleDiffView::Deleted { before: entry_for(s1, p) })
    } else if has_path(s2, p) {
        Some(SingleDiffView::Added { after: entry_for(s2, p) })
    } else {
        None
    }
}

#[derive(Debug)]
pub enum SingleDiff<'a> {
    Added { after: &'a IndexTreeEntry },
    Modified { before: &'a IndexTreeEntry, after: &'a IndexTreeEntry },
    Deleted { before: &'a IndexTreeEntry },
}

impl<'a> View for SingleDiff<'a> {
    type V = SingleDiffView;

    open spec fn view(&self) -> SingleDiffView {
        match *self {
            SingleDiff::Added { after } => SingleDiffView::Added { after: *after },
            SingleDiff::Modified { before, after } => SingleDiffView::Modified {
                before: *before,
                after: *after,
            },
            SingleDiff::Deleted { before } => SingleDiffView::Deleted { before: *before },
        }
    }
}

/// The difference between two snapshots S1 and S2.
///
/// Example:
///     let S1 = [
///         (a.txt: 4fwed...),
///         (b.txt: ab2d5...),
///     ]
///     let S2 = [
///         (a.txt: gf437...),
///     ]
///
///     Then Diff(S1, S2) = {
///         a.txt: Modified(4fwed... -> gf437...),
///         b.txt: Deleted
///     }
#[derive(Debug)]
pub struct Diff<'a> {
    diffs: Vec<(&'a str, SingleDiff<'a>)>,
}

/// The index of the entry for a path, if there is one.
pub(crate) fn find_path(s: &Vec<IndexTreeEntry>, p: &str) -> (r: Option<usize>)
    ensures
        match r {
            Some(i) => i < s@.len() && s@[i as int].filepath@ == p@,
            None => !has_path(s@, p@),
        },
{
    let mut i: usize = 0;
    while i < s.len()
        invariant
            0 <= i <= s@.len(),
            forall|j: int| 0 <= j < i ==> (#[trigger] s@[j]).filepath@ != p@,
        decreases s@.len() - i,
    {
        if str_eq(s[i].filepath.as_str(), p) {
            return Some(i);
        }
        i += 1;
    }
    None
}

impl<'a> Diff<'a> {
    /// The paths and their differences, in the order they were found.
    pub closed spec fn spec_diffs(&self) -> Seq<(Seq<char>, SingleDiffView)> {
        self.diffs@.map_values(|d: (&'a str, SingleDiff<'a>)| (d.0@, d.1@))
    }

    /// The difference between snapshot `s1` and the later snapshot `s2`,
    /// each with one entry per path: every path whose entry was modified,
    /// deleted or added, once.
    pub fn new(s1: &'a Vec<IndexTreeEntry>, s2: &'a Vec<IndexTreeEntry>) -> (r: Self)
        requires
            paths_unique(s1@),
            paths_unique(s2@),
        ensures
            forall|i: int, j: int|
                0 <= i < r.spec_diffs().len() && 0 <= j < r.spec_diffs().len() && i != j ==> (
                #[trigger] r.spec_diffs()[i]).0 != (#[trigger] r.spec_diffs()[j]).0,
            forall|i: int|
                0 <= i < r.spec_diffs().len() ==> spec_path_diff(
                    s1@,
                    s2@,
                    (#[trigger] r.spec_diffs()[i]).0,
                ) == Some(r.spec_diffs()[i].1),
            forall|p: Seq<char>|
                #[trigger] spec_path_diff(s1@, s2@, p) is Some ==> exists|i: int|
                    0 <= i < r.spec_diffs().len() && (#[trigger] r.spec_diffs()[i]).0 == p,
    {
        let mut diffs: Vec<(&'a str, SingleDiff<'a>)> = Vec::new();
        let mut i: usize = 0;
        while i < s1.len()
            invariant
                0 <= i <= s1@.len(),
                paths_unique(s1@),
                paths_unique(s2@),
                forall|k: int|
                    0 <= k < diffs@.len() ==> exists|j: int|
                        0 <= j < i && (#[trigger] diffs@[k]).0@ == (#[trigger] s1@[j]).filepath@,
                forall|k1: int, k2: int|
                    0 <= k1 < diffs@.len() && 0 <= k2 < diffs@.len() && k1 != k2 ==> (
                    #[trigger] diffs@[k1]).0@ != (#[trigger] diffs@[k2]).0@,
                forall|k: int|
                    0 <= k < diffs@.len() ==> spec_path_diff(s1@, s2@, (#[trigger] diffs@[k]).0@)
                        == Some(diffs@[k].1@),
                forall|j: int|
                    0 <= j < i && spec_path_diff(s1@, s2@, (#[trigger] s1@[j]).filepath@) is Some
                        ==> exists|k: int|
                        0 <= k < diffs@.len() && (#[trigger] diffs@[k]).0@ == s1@[j].filepath@,
            decreases s1@.len() - i,
        {
            let e1 = &s1[i];
            let p: &'a str = s1[i].filepath.as_str();
            proof {
                assert(has_path(s1@, p@));
                let c = choose|c: int| 0 <= c < s1@.len() && (#[trigger] s1@[c]).filepath@ == p@;
                assert(c == i);
                assert(entry_for(s1@, p@) == s1@[i as int]);
            }
            let ghost old_diffs = diffs@;
            match find_path(s2, p) {
                Some(j) => {
                    proof {
                        let c = choose|c: int| 0 <= c < s2@.len() && (#[trigger] s2@[c]).filepath@
                            == p@;
                        assert(c == j);
                        assert(entry_for(s2@, p@) == s2@[j as int]);
                    }
                    if s1[i].hash != s2[j].hash {
                        diffs.push((p, SingleDiff::Modified { before: &s1[i], after: &s2[j] }));
                    }
                },
                None => {
                    diffs.push((p, SingleDiff::Deleted { before: &s1[i] }));
                },
            }
            proof {
                assert forall|k: int| 0 <= k < diffs@.len() implies exists|j: int|
                    0 <= j < i + 1 && (#[trigger] diffs@[k]).0@ == (#[trigger] s1@[j]).filepath@ by {
                    if k < old_diffs.len() {
                        assert(diffs@[k] == old_diffs[k]);
                        let j = choose|j: int|
                            0 <= j < i && (#[trigger] old_diffs[k]).0@ == (#[trigger] s1@[j]).filepath@;
                        assert(diffs@[k].0@ == s1@[j].filepath@);
                    } else {
                        assert(diffs@[k].0@ == s1@[i as int].filepath@);
                    }
                }
                assert forall|k1: int, k2: int|
                    0 <= k1 < diffs@.len() && 0 <= k2 < diffs@.len() && k1 != k2 implies (
                    #[trigger] diffs@[k1]).0@ != (#[trigger] diffs@[k2]).0@ by {
                    if k1 < old_diffs.len() && k2 < old_diffs.len() {
                        assert(diffs@[k1] == old_diffs[k1]);
                        assert(diffs@[k2] == old_diffs[k2]);
                    } else if k1 < old_diffs.len() {
                        let j = choose|j: int|
                            0 <= j < i && (#[trigger] old_diffs[k1]).0@ == (#[trigger] s1@[j]).filepath@;
                        assert(s1@[j].filepath@ != s1@[i as int].filepath@);
                    } else if k2 < old_diffs.len() {
                        let j = choose|j: int|
                            0 <= j < i && (#[trigger] old_diffs[k2]).0@ == (#[trigger] s1@[j]).filepath@;
                        assert(s1@[j].filepath@ != s1@[i as int].filepath@);
                    }
                }
                assert forall|k: int| 0 <= k < diffs@.len() implies spec_path_diff(
                    s1@,
                    s2@,
                    (#[trigger] diffs@[k]).0@,
                ) == Some(diffs@[k].1@) by {
                    if k < old_diffs.len() {
                        assert(diffs@[k] == old_diffs[k]);
                    }
                }
                assert forall|j: int|
                    0 <= j < i + 1 && spec_path_diff(s1@, s2@, (#[trigger] s1@[j]).filepath@) is Some
                        implies exists|k: int|
                    0 <= k < diffs@.len() && (#[trigger] diffs@[k]).0@ == s1@[j].filepath@ by {
                    if j < i {
                        let k = choose|k: int|
                            0 <= k < old_diffs.len() && (#[trigger] old_diffs[k]).0@ == s1@[j].filepath@;
                        assert(diffs@[k] == old_diffs[k]);
                    } else {
                        assert(diffs@[old_diffs.len() as int].0@ == s1@[j].filepath@);
                    }
                }
            }
            i += 1;
        }
        let ghost mid = diffs@;
        let mut k: usize = 0;
        while k < s2.len()
            invariant
                0 <= k <= s2@.len(),
                paths_unique(s1@),
                paths_unique(s2@),
                mid.len() <= diffs@.len(),
                forall|m: int| 0 <= m < mid.len() ==> diffs@[m] == mid[m],
                forall|m: int|
                    0 <= m < mid.len() ==> has_path(s1@, (#[trigger] mid[m]).0@),
                forall|m: int|
                    mid.len() <= m < diffs@.len() ==> !has_path(s1@, (#[trigger] diffs@[m]).0@)
                        && exists|j: int| 0 <= j < k && diffs@[m].0@ == (#[trigger] s2@[j]).filepath@,
                forall|k1: int, k2: int|
                    0 <= k1 < diffs@.len() && 0 <= k2 < diffs@.len() && k1 != k2 ==> (
                    #[trigger] diffs@[k1]).0@ != (#[trigger] diffs@[k2]).0@,
                forall|m: int|
                    0 <= m < diffs@.len() ==> spec_path_diff(s1@, s2@, (#[trigger] diffs@[m]).0@)
                        == Some(diffs@[m].1@),
                forall|p: Seq<char>|
                    has_path(s1@, p) && #[trigger] spec_path_diff(s1@, s2@, p) is Some ==> exists|
                        m: int,
                    |
                        0 <= m < mid.len() && (#[trigger] mid[m]).0@ == p,
                forall|j: int|
                    0 <= j < k && !has_path(s1@, (#[trigger] s2@[j]).filepath@) ==> exists|m: int|
                        0 <= m < diffs@.len() && (#[trigger] diffs@[m]).0@ == s2@[j].filepath@,
            decreases s2@.len() - k,
        {
            let p: &'a str = s2[k].filepath.as_str();
            let ghost old_diffs = diffs@;
            match find_path(s1, p) {
                Some(_) => {},
                None => {
                    proof {
                        assert(has_path(s2@, p@));
                        let c = choose|c: int| 0 <= c < s2@.len() && (#[trigger] s2@[c]).filepath@
                            == p@;
                        assert(c == k);
                        assert(entry_for(s2@, p@) == s2@[k as int]);
                    }
                    diffs.push((p, SingleDiff::Added { after: &s2[k] }));
                },
            }
            proof {
                assert forall|m: int|
                    mid.len() <= m < diffs@.len() implies !has_path(s1@, (#[trigger] diffs@[m]).0@)
                    && exists|j: int| 0 <= j < k + 1 && diffs@[m].0@ == (#[trigger] s2@[j]).filepath@ by {
                    if m < old_diffs.len() {
                        assert(diffs@[m] == old_diffs[m]);
                        let j = choose|j: int| 0 <= j < k && old_diffs[m].0@ == (#[trigger] s2@[j]).filepath@;
                        assert(diffs@[m].0@ == s2@[j].filepath@);
                    } else {
                        assert(diffs@[m].0@ == s2@[k as int].filepath@);
                    }
                }
                assert forall|k1: int, k2: int|
                    0 <= k1 < diffs@.len() && 0 <= k2 < diffs@.len() && k1 != k2 implies (
                    #[trigger] diffs@[k1]).0@ != (#[trigger] diffs@[k2]).0@ by {
                    if k1 < old_diffs.len() && k2 < old_diffs.len() {
                        assert(diffs@[k1] == old_diffs[k1]);
                        assert(diffs@[k2] == old_diffs[k2]);
                    } else if k1 < old_diffs.len() || k2 < old_diffs.len() {
                        let o: int = if k1 < old_diffs.len() { k1 } else { k2 };
                        assert(diffs@[o] == old_diffs[o]);
                        if o < mid.len() {
                            assert(diffs@[o] == mid[o]);
                            assert(has_path(s1@, diffs@[o].0@));
                        } else {
                            let j = choose|j: int| 0 <= j < k && old_diffs[o].0@ == (#[trigger] s2@[j]).filepath@;
                            assert(s2@[j].filepath@ != s2@[k as int].filepath@);
                        }
                    }
                }
                assert forall|m: int| 0 <= m < diffs@.len() implies spec_path_diff(
                    s1@,
                    s2@,
                    (#[trigger] diffs@[m]).0@,
                ) == Some(diffs@[m].1@) by {
                    if m < old_diffs.len() {
                        assert(diffs@[m] == old_diffs[m]);
                    }
                }
                assert forall|j: int|
                    0 <= j < k + 1 && !has_path(s1@, (#[trigger] s2@[j]).filepath@) implies exists|m: int|
                    0 <= m < diffs@.len() && (#[trigger] diffs@[m]).0@ == s2@[j].filepath@ by {
                    if j < k {
                        let m = choose|m: int|
                            0 <= m < old_diffs.len() && (#[trigger] old_diffs[m]).0@ == s2@[j].filepath@;
                        assert(diffs@[m] == old_diffs[m]);
                    } else {
                        assert(diffs@[old_diffs.len() as int].0@ == s2@[j].filepath@);
                    }
                }
            }
            k += 1;
        }
        let r = Self { diffs };
        proof {
            assert(r.spec_diffs().len() == diffs@.len());
            assert forall|i: int| 0 <= i < diffs@.len() implies (#[trigger] r.spec_diffs()[i]) == (
            diffs@[i].0@, diffs@[i].1@) by {}
            assert forall|p: Seq<char>| #[trigger] spec_path_diff(s1@, s2@, p) is Some implies exists|i: int|
                0 <= i < r.spec_diffs().len() && (#[trigger] r.spec_diffs()[i]).0 == p by {
                if has_path(s1@, p) {
                    let m = choose|m: int| 0 <= m < mid.len() && (#[trigger] mid[m]).0@ == p;
                    assert(r.spec_diffs()[m].0 == p);
                } else {
                    assert(has_path(s2@, p));
                    let j = choose|j: int| 0 <= j < s2@.len() && (#[trigger] s2@[j]).filepath@ == p;
                    let m = choose|m: int|
                        0 <= m < diffs@.len() && (#[trigger] diffs@[m]).0@ == s2@[j].filepath@;
                    assert(r.spec_diffs()[m].0 == p);
                }
            }
        }
        r
    }
}

/// A snapshot compared with itself shows no difference at any path.
pub proof fn law_diff_with_itself_is_empty(s: Seq<IndexTreeEntry>, p: Seq<char>)
    ensures
        spec_path_diff(s, s, p) is None,
{
}

/// What changed at a path between the earlier snapshot `s1` and the later
/// snapshot `s2`: a path only in `s1` was deleted, with its entry from `s1`;
/// a path only in `s2` was added, with its entry from `s2`; a path in both
/// whose hash changed was modified from the entry of `s1` to that of `s2`;
/// a path in both with the same hash, or in neither, did not change.
pub proof fn law_path_diff_cases(s1: Seq<IndexTreeEntry>, s2: Seq<IndexTreeEntry>, p: Seq<char>)
    ensures
        has_path(s1, p) && !has_path(s2, p) ==> spec_path_diff(s1, s2, p) == Some(
            SingleDiffView::Deleted { before: entry_for(s1, p) },
        ),
        !has_path(s1, p) && has_path(s2, p) ==> spec_path_diff(s1, s2, p) == Some(
            SingleDiffView::Added { after: entry_for(s2, p) },
        ),
        has_path(s1, p) && has_path(s2, p) && entry_for(s1, p).hash != entry_for(s2, p).hash
            ==> spec_path_diff(s1, s2, p) == Some(
            SingleDiffView::Modified { before: entry_for(s1, p), after: entry_for(s2, p) },
        ),
        has_path(s1, p) && has_path(s2, p) && entry_for(s1, p).hash == entry_for(s2, p).hash
            ==> spec_path_diff(s1, s2, p) is None,
        !has_path(s1, p) && !has_path(s2, p) ==> spec_path_diff(s1, s2, p) is None,
{
}

} // verus!
