//! Nonzero-winding fill classification: find a point inside a subpath, then
//! sum the winding contributions of every subpath of the outline at it.

use vstd::prelude::*;
use crate::geom::{winding, Pt, COORD_LIMIT};
use crate::outline::{outline_wf, subv_wf, SubV, Subpath};

verus! {

/// Total winding number of the first `n` subpaths of the outline at `p`.
pub open spec fn outline_winding_upto(subs: Seq<SubV>, p: Pt, n: int) -> int
    decreases n,
{
    if n <= 0 {
        0
    } else {
        outline_winding_upto(subs, p, n - 1) + winding(subs[n - 1].vertices, p)
    }
}

/// Total winding number of the whole outline at `p`.
pub open spec fn outline_winding(subs: Seq<SubV>, p: Pt) -> int {
    outline_winding_upto(subs, p, subs.len() as int)
}

/// The perturbation applied along one axis for candidate `t` of 0, 1, 2: no
/// offset, plus one, minus one.
pub open spec fn probe_offset(t: int) -> int {
    if t == 0 {
        0
    } else if t == 1 {
        1
    } else {
        -1
    }
}

/// The `j`-th of the 9 interior-point candidates: the first vertex perturbed
/// by one stored unit along each axis.
pub open spec fn probe_candidate(s: SubV, j: int) -> Pt {
    Pt {
        x: (s.vertices[0].x + probe_offset(j / 3)) as i64,
        y: (s.vertices[0].y + probe_offset(j % 3)) as i64,
    }
}

/// First candidate from `j` on that the subpath itself contains under the
/// nonzero rule, if any.
pub open spec fn first_contained_from(s: SubV, j: int) -> Option<Pt>
    decreases 9 - j,
{
    if j >= 9 {
        None
    } else if winding(s.vertices, probe_candidate(s, j)) != 0 {
        Some(probe_candidate(s, j))
    } else {
        first_contained_from(s, j + 1)
    }
}

/// A point contained in the subpath, if one of the 9 probe candidates is;
/// `None` means classification is indeterminate and the subpath is treated as
/// unfilled.
pub open spec fn spec_contained_point(s: SubV) -> Option<Pt> {
    first_contained_from(s, 0)
}

/// The subpath `subs[k]` is filled: some probe candidate is contained in it,
/// and the total winding of the whole outline at that point is nonzero.
pub open spec fn spec_filled(subs: Seq<SubV>, k: int) -> bool {
    match spec_contained_point(subs[k]) {
        Option::None => false,
        Option::Some(p) => outline_winding(subs, p) != 0,
    }
}

/// Find a point that is contained within the subpath.
///
/// Meant for simplified nonzero fill resolution: perturb the first vertex by
/// one stored unit along each axis and take the first candidate the subpath
/// contains.
pub fn a_contained_point(sub: &Subpath) -> (r: Option<Pt>)
    requires
        subv_wf(sub@),
    ensures
        r == spec_contained_point(sub@),
        r matches Option::Some(p) ==> -COORD_LIMIT - 1 <= p.x <= COORD_LIMIT + 1
            && -COORD_LIMIT - 1 <= p.y <= COORD_LIMIT + 1,
{
    let v0 = sub.vertices[0];
    let mut j: usize = 0;
    while j < 9
        invariant
            subv_wf(sub@),
            v0 == sub@.vertices[0],
            0 <= j <= 9,
            spec_contained_point(sub@) == first_contained_from(sub@, j as int),
        decreases 9 - j,
    {
        let dx: i64 = if j / 3 == 0 {
            0
        } else if j / 3 == 1 {
            1
        } else {
            -1
        };
        let dy: i64 = if j % 3 == 0 {
            0
        } else if j % 3 == 1 {
            1
        } else {
            -1
        };
        let p = Pt { x: v0.x + dx, y: v0.y + dy };
        assert(p == probe_candidate(sub@, j as int));
        let w = crate::geom::winding_at(&sub.vertices, p);
        if w != 0 {
            return Some(p);
        }
        j = j + 1;
    }
    None
}

/// Classify every subpath of the outline as filled or unfilled under the
/// nonzero-winding rule.
pub fn classify_filled(subs: &Vec<Subpath>) -> (r: Vec<bool>)
    requires
        outline_wf(subs@.map_values(|s: Subpath| s@)),
    ensures
        r@.len() == subs@.len(),
        forall|k: int|
            0 <= k < subs@.len() ==> r@[k] == spec_filled(
                subs@.map_values(|s: Subpath| s@),
                k,
            ),
{
    let ghost views = subs@.map_values(|s: Subpath| s@);
    let n = subs.len();
    let mut r: Vec<bool> = Vec::new();
    let mut k: usize = 0;
    while k < n
        invariant
            n == subs@.len(),
            views == subs@.map_values(|s: Subpath| s@),
            outline_wf(views),
            0 <= k <= n,
            r@.len() == k,
            forall|t: int| 0 <= t < k ==> r@[t] == spec_filled(views, t),
        decreases n - k,
    {
        proof {
            assert(views[k as int] == subs@[k as int]@);
        }
        let contained = a_contained_point(&subs[k]);
        let filled = match contained {
            Option::None => false,
            Option::Some(p) => {
                let w = total_winding(subs, p, Ghost(views));
                w != 0
            },
        };
        r.push(filled);
        k = k + 1;
    }
    r
}

/// Sum the winding contribution of every subpath of the outline at `p`.
fn total_winding(subs: &Vec<Subpath>, p: Pt, Ghost(views): Ghost<Seq<SubV>>) -> (w: i128)
    requires
        views == subs@.map_values(|s: Subpath| s@),
        outline_wf(views),
        -COORD_LIMIT - 2 <= p.x <= COORD_LIMIT + 2,
        -COORD_LIMIT - 2 <= p.y <= COORD_LIMIT + 2,
    ensures
        w == outline_winding(views, p),
{
    let n = subs.len();
    let mut acc: i128 = 0;
    let ghost per_bound: int = 100_000_000int;
    let mut i: usize = 0;
    while i < n
        invariant
            n == subs@.len(),
            views == subs@.map_values(|s: Subpath| s@),
            outline_wf(views),
            -COORD_LIMIT - 2 <= p.x <= COORD_LIMIT + 2,
            -COORD_LIMIT - 2 <= p.y <= COORD_LIMIT + 2,
            0 <= i <= n,
            acc == outline_winding_upto(views, p, i as int),
            -(i as int) * per_bound <= acc <= (i as int) * per_bound,
            per_bound == 100_000_000int,
        decreases n - i,
    {
        proof {
            assert(views[i as int] == subs@[i as int]@);
        }
        let w = crate::geom::winding_at(&subs[i].vertices, p);
        proof {
            lemma_winding_bounded(views[i as int].vertices, p, views[i as int].vertices.len() as int);
            assert(i as int <= u64::MAX as int);
            crate::math::lemma_abs_mul_bound(i as int, per_bound, u64::MAX as int, per_bound);
            crate::math::lemma_abs_mul_bound(i as int + 1, per_bound, u64::MAX as int, per_bound);
            assert((i as int) * per_bound + per_bound == (i as int + 1) * per_bound)
                by (nonlinear_arith);
        }
        acc = acc + w;
        i = i + 1;
    }
    acc
}

/// The winding number over `n` edges has magnitude at most `n`.
proof fn lemma_winding_bounded(vs: Seq<Pt>, p: Pt, n: int)
    requires
        n >= 0,
    ensures
        -n <= crate::geom::winding_upto(vs, p, n) <= n,
    decreases n,
{
    if n > 0 {
        lemma_winding_bounded(vs, p, n - 1);
    }
}

} // verus!
