//! Partitions classified subpaths into ordered icon parts: each filled
//! subpath opens a group, each unfilled subpath joins the first group whose
//! primary control box contains its own, and unmatched holes are reported as
//! orphans.

use vstd::prelude::*;
use crate::fill::spec_filled;
use crate::geom::{area2, box_contains, BBox};
use crate::outline::{cbox, outline_wf, SubV, Subpath};

verus! {

/// Sort keys used by the library: the grouping order (filled first, larger
/// absolute area first) and the reading order of shapes (top first in the
/// destination space, which is largest stored y first, then smallest x).
#[derive(Clone, Copy, PartialEq, Eq, Structural, Debug)]
pub enum SortKey {
    Grouping,
    Position,
}

/// Absolute value of twice the signed area of the subpath's vertex polygon.
pub open spec fn abs_area(s: SubV) -> int {
    let a = area2(s.vertices);
    if a < 0 {
        -a
    } else {
        a
    }
}

/// Strict total order on distinct indices: the sort places `a` before `b`
/// exactly when this holds. Ties fall back to index order, which makes the
/// sort stable.
pub open spec fn spec_lt(key: SortKey, subs: Seq<SubV>, filled: Seq<bool>, a: int, b: int) -> bool {
    match key {
        SortKey::Grouping => {
            if filled[a] != filled[b] {
                filled[a]
            } else if abs_area(subs[a]) != abs_area(subs[b]) {
                abs_area(subs[a]) > abs_area(subs[b])
            } else {
                a < b
            }
        },
        SortKey::Position => {
            if cbox(subs[a]).y1 != cbox(subs[b]).y1 {
                cbox(subs[a]).y1 > cbox(subs[b]).y1
            } else if cbox(subs[a]).x0 != cbox(subs[b]).x0 {
                cbox(subs[a]).x0 < cbox(subs[b]).x0
            } else {
                a < b
            }
        },
    }
}

/// Insert `v` before the first element it precedes under the order.
pub open spec fn spec_insert(
    key: SortKey,
    subs: Seq<SubV>,
    filled: Seq<bool>,
    s: Seq<int>,
    v: int,
) -> Seq<int>
    decreases s.len(),
{
    if s.len() == 0 {
        seq![v]
    } else if spec_lt(key, subs, filled, v, s[0]) {
        seq![v] + s
    } else {
        seq![s[0]] + spec_insert(key, subs, filled, s.drop_first(), v)
    }
}

/// The stable sorted order of indices `0 .. n` under the key, by repeated
/// insertion.
pub open spec fn spec_order_upto(key: SortKey, subs: Seq<SubV>, filled: Seq<bool>, n: int) -> Seq<
    int,
>
    decreases n,
{
    if n <= 0 {
        Seq::empty()
    } else {
        spec_insert(key, subs, filled, spec_order_upto(key, subs, filled, n - 1), n - 1)
    }
}

/// The stable sorted order of all subpath indices under the key.
pub open spec fn spec_order(key: SortKey, subs: Seq<SubV>, filled: Seq<bool>) -> Seq<int> {
    spec_order_upto(key, subs, filled, subs.len() as int)
}

pub open spec fn to_ints(s: Seq<usize>) -> Seq<int> {
    s.map_values(|u: usize| u as int)
}

/// Number of occurrences of `v` in `s`.
pub open spec fn count_in(s: Seq<int>, v: int) -> int
    decreases s.len(),
{
    if s.len() == 0 {
        0
    } else {
        count_in(s.drop_last(), v) + if s.last() == v {
            1int
        } else {
            0int
        }
    }
}

proof fn lemma_count_nonneg(s: Seq<int>, v: int)
    ensures
        count_in(s, v) >= 0,
    decreases s.len(),
{
    if s.len() > 0 {
        lemma_count_nonneg(s.drop_last(), v)
    }
}

proof fn lemma_count_concat(s1: Seq<int>, s2: Seq<int>, v: int)
    ensures
        count_in(s1 + s2, v) == count_in(s1, v) + count_in(s2, v),
    decreases s2.len(),
{
    if s2.len() == 0 {
        assert(s1 + s2 =~= s1);
    } else {
        lemma_count_concat(s1, s2.drop_last(), v);
        assert((s1 + s2).drop_last() =~= s1 + s2.drop_last());
        assert((s1 + s2).last() == s2.last());
    }
}

proof fn lemma_count_insert(key: SortKey, subs: Seq<SubV>, filled: Seq<bool>, s: Seq<int>, x: int, v: int)
    ensures
        count_in(spec_insert(key, subs, filled, s, x), v) == count_in(s, v) + if x == v {
            1int
        } else {
            0int
        },
    decreases s.len(),
{
    lemma_count_single(x, v);
    if s.len() == 0 {
        assert(spec_insert(key, subs, filled, s, x) =~= seq![x]);
    } else if spec_lt(key, subs, filled, x, s[0]) {
        lemma_count_concat(seq![x], s, v);
    } else {
        lemma_count_insert(key, subs, filled, s.drop_first(), x, v);
        lemma_count_concat(seq![s[0]], spec_insert(key, subs, filled, s.drop_first(), x), v);
        lemma_count_single(s[0], v);
        lemma_count_first_rest(s, v);
    }
}

proof fn lemma_count_single(x: int, v: int)
    ensures
        count_in(seq![x], v) == if x == v {
            1int
        } else {
            0int
        },
{
    let s = seq![x];
    assert(s.len() == 1);
    assert(s.last() == x);
    assert(s.drop_last() =~= Seq::<int>::empty());
    assert(count_in(s.drop_last(), v) == 0);
}

proof fn lemma_count_first_rest(s: Seq<int>, v: int)
    requires
        s.len() > 0,
    ensures
        count_in(s, v) == count_in(seq![s[0]], v) + count_in(s.drop_first(), v),
{
    lemma_count_concat(seq![s[0]], s.drop_first(), v);
    assert(seq![s[0]] + s.drop_first() =~= s);
}

/// Each index `0 <= k < n` occurs exactly once in the sort order, and nothing
/// else occurs.
pub proof fn lemma_order_counts(key: SortKey, subs: Seq<SubV>, filled: Seq<bool>, n: int, v: int)
    requires
        n >= 0,
    ensures
        count_in(spec_order_upto(key, subs, filled, n), v) == if 0 <= v < n {
            1int
        } else {
            0int
        },
    decreases n,
{
    if n > 0 {
        lemma_order_counts(key, subs, filled, n - 1, v);
        lemma_count_insert(key, subs, filled, spec_order_upto(key, subs, filled, n - 1), n - 1, v);
    }
}

proof fn lemma_count_bounds_membership(s: Seq<int>, v: int)
    ensures
        (count_in(s, v) > 0) == s.contains(v),
    decreases s.len(),
{
    if s.len() > 0 {
        lemma_count_bounds_membership(s.drop_last(), v);
        lemma_count_nonneg(s.drop_last(), v);
        if s.contains(v) {
            let j = choose|j: int| 0 <= j < s.len() && s[j] == v;
            if j < s.len() - 1 {
                assert(s.drop_last()[j] == v);
                assert(s.drop_last().contains(v));
            }
        } else {
            assert(!s.drop_last().contains(v)) by {
                if s.drop_last().contains(v) {
                    let j = choose|j: int| 0 <= j < s.len() - 1 && s.drop_last()[j] == v;
                    assert(s[j] == v);
                }
            }
        }
    }
}

/// The order has exactly `n` entries.
pub proof fn lemma_order_len(key: SortKey, subs: Seq<SubV>, filled: Seq<bool>, n: int)
    requires
        n >= 0,
    ensures
        spec_order_upto(key, subs, filled, n).len() == n,
    decreases n,
{
    if n > 0 {
        lemma_order_len(key, subs, filled, n - 1);
        lemma_insert_len(key, subs, filled, spec_order_upto(key, subs, filled, n - 1), n - 1);
    }
}

proof fn lemma_insert_len(key: SortKey, subs: Seq<SubV>, filled: Seq<bool>, s: Seq<int>, v: int)
    ensures
        spec_insert(key, subs, filled, s, v).len() == s.len() + 1,
    decreases s.len(),
{
    if s.len() > 0 && !spec_lt(key, subs, filled, v, s[0]) {
        lemma_insert_len(key, subs, filled, s.drop_first(), v);
    }
}

/// Where an element lands: inserting `v` into `s` yields the split of `s` at
/// the first position whose element `v` precedes.
proof fn lemma_insert_at(
    key: SortKey,
    subs: Seq<SubV>,
    filled: Seq<bool>,
    s: Seq<int>,
    v: int,
    pos: int,
)
    requires
        0 <= pos <= s.len(),
        forall|j: int| 0 <= j < pos ==> !spec_lt(key, subs, filled, v, #[trigger] s[j]),
        pos < s.len() ==> spec_lt(key, subs, filled, v, s[pos]),
    ensures
        spec_insert(key, subs, filled, s, v) =~= s.subrange(0, pos) + seq![v] + s.subrange(
            pos,
            s.len() as int,
        ),
    decreases s.len(),
{
    if s.len() == 0 {
        assert(spec_insert(key, subs, filled, s, v) =~= seq![v]);
        assert(s.subrange(0, 0) + seq![v] + s.subrange(0, 0) =~= seq![v]);
    } else if spec_lt(key, subs, filled, v, s[0]) {
        assert(pos == 0);
        assert(s.subrange(0, 0) + seq![v] + s.subrange(0, s.len() as int) =~= seq![v] + s);
    } else {
        assert(pos >= 1);
        let rest = s.drop_first();
        assert(forall|j: int|
            0 <= j < pos - 1 ==> !spec_lt(key, subs, filled, v, #[trigger] rest[j]));
        assert(pos - 1 < rest.len() ==> spec_lt(key, subs, filled, v, rest[pos - 1]));
        lemma_insert_at(key, subs, filled, rest, v, pos - 1);
        assert(seq![s[0]] + (rest.subrange(0, pos - 1) + seq![v] + rest.subrange(
            pos - 1,
            rest.len() as int,
        )) =~= s.subrange(0, pos) + seq![v] + s.subrange(pos, s.len() as int));
    }
}

/// Exec comparison matching `spec_lt`.
fn less_than(subs: &Vec<Subpath>, filled: &Vec<bool>, key: SortKey, a: usize, b: usize) -> (r: bool)
    requires
        outline_wf(subs@.map_values(|s: Subpath| s@)),
        a < subs@.len(),
        b < subs@.len(),
        key is Grouping ==> filled@.len() == subs@.len(),
    ensures
        r == spec_lt(key, subs@.map_values(|s: Subpath| s@), filled@, a as int, b as int),
{
    let ghost views = subs@.map_values(|s: Subpath| s@);
    proof {
        assert(views[a as int] == subs@[a as int]@);
        assert(views[b as int] == subs@[b as int]@);
    }
    match key {
        SortKey::Grouping => {
            let fa = filled[a];
            let fb = filled[b];
            if fa != fb {
                fa
            } else {
                let ra = crate::geom::area2_of(&subs[a].vertices);
                let rb = crate::geom::area2_of(&subs[b].vertices);
                let aa = if ra < 0 {
                    -ra
                } else {
                    ra
                };
                let ab = if rb < 0 {
                    -rb
                } else {
                    rb
                };
                if aa != ab {
                    aa > ab
                } else {
                    a < b
                }
            }
        },
        SortKey::Position => {
            let ba = crate::outline::control_box(&subs[a]);
            let bb = crate::outline::control_box(&subs[b]);
            if ba.y1 != bb.y1 {
                ba.y1 > bb.y1
            } else if ba.x0 != bb.x0 {
                ba.x0 < bb.x0
            } else {
                a < b
            }
        },
    }
}

/// Stable sort of the indices `0 .. subs.len()` under the key.
pub fn sorted_order(subs: &Vec<Subpath>, filled: &Vec<bool>, key: SortKey) -> (order: Vec<usize>)
    requires
        outline_wf(subs@.map_values(|s: Subpath| s@)),
        key is Grouping ==> filled@.len() == subs@.len(),
    ensures
        to_ints(order@) == spec_order(key, subs@.map_values(|s: Subpath| s@), filled@),
        order@.len() == subs@.len(),
        forall|j: int| 0 <= j < order@.len() ==> (#[trigger] order@[j]) < subs@.len(),
{
    let ghost views = subs@.map_values(|s: Subpath| s@);
    let n = subs.len();
    let mut order: Vec<usize> = Vec::new();
    let mut i: usize = 0;
    while i < n
        invariant
            n == subs@.len(),
            views == subs@.map_values(|s: Subpath| s@),
            outline_wf(views),
            key is Grouping ==> filled@.len() == subs@.len(),
            0 <= i <= n,
            to_ints(order@) == spec_order_upto(key, views, filled@, i as int),
            order@.len() == i,
            forall|j: int| 0 <= j < order@.len() ==> (#[trigger] order@[j]) < n,
        decreases n - i,
    {
        let ghost cur = to_ints(order@);
        let mut pos: usize = 0;
        while pos < i
            invariant_except_break
                n == subs@.len(),
                views == subs@.map_values(|s: Subpath| s@),
                outline_wf(views),
                key is Grouping ==> filled@.len() == subs@.len(),
                0 <= i < n,
                order@.len() == i,
                cur == to_ints(order@),
                forall|j: int| 0 <= j < order@.len() ==> (#[trigger] order@[j]) < n,
                0 <= pos <= i,
                forall|j: int| 0 <= j < pos ==> !spec_lt(key, views, filled@, i as int, #[trigger] cur[j]),
            ensures
                0 <= pos <= i,
                forall|j: int| 0 <= j < pos ==> !spec_lt(key, views, filled@, i as int, #[trigger] cur[j]),
                pos < i ==> spec_lt(key, views, filled@, i as int, cur[pos as int]),
            decreases i - pos,
        {
            if less_than(subs, filled, key, i, order[pos]) {
                break;
            }
            pos = pos + 1;
        }
        order.insert(pos, i);
        proof {
            lemma_insert_at(key, views, filled@, cur, i as int, pos as int);
            assert(to_ints(order@) =~= cur.subrange(0, pos as int) + seq![i as int] + cur.subrange(
                pos as int,
                cur.len() as int,
            ));
        }
        i = i + 1;
    }
    proof {
        lemma_order_len(key, views, filled@, n as int);
    }
    order
}


/// One icon part: `members[0]` is the primary (filled) subpath index, the
/// rest are its hole subpath indices, in attachment order.
#[derive(Clone, Debug)]
pub struct IconPart {
    pub members: Vec<usize>,
}

/// Grouping state: primary index per group, hole indices per group, and
/// orphan hole indices.
#[verifier::ext_equal]
pub ghost struct GroupState {
    pub prims: Seq<int>,
    pub holes: Seq<Seq<int>>,
    pub orphans: Seq<int>,
}

/// First group at or after `g` whose primary control box contains the control
/// box of subpath `h`, if any. Groups open largest primary first, so the
/// first match is the first-created (largest) eligible container.
pub open spec fn first_container_from(subs: Seq<SubV>, prims: Seq<int>, h: int, g: int) -> Option<
    int,
>
    decreases prims.len() - g,
{
    if g < 0 || g >= prims.len() {
        None
    } else if box_contains(cbox(subs[prims[g]]), cbox(subs[h])) {
        Some(g)
    } else {
        first_container_from(subs, prims, h, g + 1)
    }
}

/// Effect of one subpath on the grouping state: a filled subpath opens a new
/// group; an unfilled one joins the first containing group or becomes an
/// orphan.
pub open spec fn group_step(subs: Seq<SubV>, filled: Seq<bool>, st: GroupState, h: int) -> GroupState {
    if filled[h] {
        GroupState {
            prims: st.prims.push(h),
            holes: st.holes.push(Seq::empty()),
            orphans: st.orphans,
        }
    } else {
        match first_container_from(subs, st.prims, h, 0) {
            Some(g) => GroupState { holes: st.holes.update(g, st.holes[g].push(h)), ..st },
            None => GroupState { orphans: st.orphans.push(h), ..st },
        }
    }
}

pub open spec fn group_init() -> GroupState {
    GroupState { prims: Seq::empty(), holes: Seq::empty(), orphans: Seq::empty() }
}

/// Grouping state after walking the first `n` entries of the order.
pub open spec fn spec_groups_upto(
    subs: Seq<SubV>,
    filled: Seq<bool>,
    order: Seq<int>,
    n: int,
) -> GroupState
    decreases n,
{
    if n <= 0 {
        group_init()
    } else {
        group_step(subs, filled, spec_groups_upto(subs, filled, order, n - 1), order[n - 1])
    }
}

/// Grouping state after walking the whole order.
pub open spec fn spec_groups(subs: Seq<SubV>, filled: Seq<bool>, order: Seq<int>) -> GroupState {
    spec_groups_upto(subs, filled, order, order.len() as int)
}

/// The filled flag of every subpath of the outline.
pub open spec fn filled_flags(subs: Seq<SubV>) -> Seq<bool> {
    Seq::new(subs.len(), |k: int| spec_filled(subs, k))
}

/// The grouping state keeps one hole list per group.
pub proof fn lemma_state_shape(subs: Seq<SubV>, filled: Seq<bool>, order: Seq<int>, n: int)
    requires
        n >= 0,
    ensures
        spec_groups_upto(subs, filled, order, n).holes.len() == spec_groups_upto(
            subs,
            filled,
            order,
            n,
        ).prims.len(),
    decreases n,
{
    if n > 0 {
        lemma_state_shape(subs, filled, order, n - 1);
        let st = spec_groups_upto(subs, filled, order, n - 1);
        let h = order[n - 1];
        if !filled[h] && first_container_from(subs, st.prims, h, 0) is Some {
            lemma_first_container_in_range(subs, st.prims, h, 0);
        }
    }
}

/// Walk the sorted order, opening a group per filled subpath and attaching
/// each unfilled subpath to the first group whose primary control box
/// contains its own.
pub fn group_ordered(subs: &Vec<Subpath>, filled: &Vec<bool>, order: &Vec<usize>) -> (res: (
    Vec<IconPart>,
    Vec<usize>,
))
    requires
        outline_wf(subs@.map_values(|s: Subpath| s@)),
        filled@.len() == subs@.len(),
        forall|j: int| 0 <= j < order@.len() ==> (#[trigger] order@[j]) < subs@.len(),
    ensures
        ({
            let st = spec_groups(subs@.map_values(|s: Subpath| s@), filled@, to_ints(order@));
            &&& res.0@.len() == st.prims.len()
            &&& forall|g: int|
                0 <= g < st.prims.len() ==> to_ints(#[trigger] res.0@[g].members@) == seq![
                    st.prims[g],
                ] + st.holes[g]
            &&& to_ints(res.1@) == st.orphans
        }),
        res.0@.len() <= order@.len(),
        forall|g: int, j: int|
            0 <= g < res.0@.len() && 0 <= j < res.0@[g].members@.len()
                ==> (#[trigger] res.0@[g].members@[j]) < subs@.len(),
        forall|j: int| 0 <= j < res.1@.len() ==> (#[trigger] res.1@[j]) < subs@.len(),
{
    let ghost views = subs@.map_values(|s: Subpath| s@);
    let ghost iorder = to_ints(order@);
    let n = order.len();
    let mut groups: Vec<IconPart> = Vec::new();
    let mut boxes: Vec<BBox> = Vec::new();
    let mut orphans: Vec<usize> = Vec::new();
    let mut t: usize = 0;
    while t < n
        invariant
            n == order@.len(),
            views == subs@.map_values(|s: Subpath| s@),
            iorder == to_ints(order@),
            outline_wf(views),
            filled@.len() == subs@.len(),
            forall|j: int| 0 <= j < order@.len() ==> (#[trigger] order@[j]) < subs@.len(),
            0 <= t <= n,
            ({
                let st = spec_groups_upto(views, filled@, iorder, t as int);
                &&& groups@.len() == st.prims.len()
                &&& boxes@.len() == st.prims.len()
                &&& forall|g: int|
                    0 <= g < st.prims.len() ==> to_ints(#[trigger] groups@[g].members@) == seq![
                        st.prims[g],
                    ] + st.holes[g]
                &&& forall|g: int| 0 <= g < st.prims.len() ==> 0 <= #[trigger] st.prims[g]
                    < subs@.len()
                &&& forall|g: int|
                    0 <= g < st.prims.len() ==> #[trigger] boxes@[g] == cbox(views[st.prims[g]])
                &&& to_ints(orphans@) == st.orphans
            }),
            groups@.len() <= t,
            forall|g: int, j: int|
                0 <= g < groups@.len() && 0 <= j < groups@[g].members@.len()
                    ==> (#[trigger] groups@[g].members@[j]) < subs@.len(),
            forall|j: int| 0 <= j < orphans@.len() ==> (#[trigger] orphans@[j]) < subs@.len(),
        decreases n - t,
    {
        let ghost st = spec_groups_upto(views, filled@, iorder, t as int);
        let h = order[t];
        proof {
            assert(iorder[t as int] == h as int);
            assert(views[h as int] == subs@[h as int]@);
        }
        let hb = crate::outline::control_box(&subs[h]);
        if filled[h] {
            let mut members: Vec<usize> = Vec::new();
            members.push(h);
            groups.push(IconPart { members });
            boxes.push(hb);
            proof {
                lemma_state_shape(views, filled@, iorder, t as int);
                let st2 = group_step(views, filled@, st, h as int);
                assert(to_ints(groups@[st.prims.len() as int].members@) =~= seq![h as int]);
                assert(seq![h as int] + Seq::<int>::empty() =~= seq![h as int]);
                assert(st2.holes[st.prims.len() as int] =~= Seq::<int>::empty());
                assert(to_ints(orphans@) == st2.orphans);
            }
        } else {
            let mut g: usize = 0;
            let mut found = false;
            let blen = boxes.len();
            while g < blen
                invariant_except_break
                    views == subs@.map_values(|s: Subpath| s@),
                    outline_wf(views),
                    blen == boxes@.len(),
                    boxes@.len() == st.prims.len(),
                    forall|g2: int| 0 <= g2 < st.prims.len() ==> 0 <= #[trigger] st.prims[g2]
                        < views.len(),
                    forall|g2: int|
                        0 <= g2 < st.prims.len() ==> #[trigger] boxes@[g2] == cbox(
                            views[st.prims[g2]],
                        ),
                    hb == cbox(views[h as int]),
                    0 <= g <= blen,
                    !found,
                    first_container_from(views, st.prims, h as int, 0) == first_container_from(
                        views,
                        st.prims,
                        h as int,
                        g as int,
                    ),
                ensures
                    0 <= g <= st.prims.len(),
                    found ==> g < st.prims.len() && first_container_from(
                        views,
                        st.prims,
                        h as int,
                        0,
                    ) == Some(g as int),
                    !found ==> first_container_from(views, st.prims, h as int, 0) is None,
                decreases blen - g,
            {
                if crate::geom::box_contains_exec(&boxes[g], &hb) {
                    found = true;
                    break;
                }
                g = g + 1;
            }
            if found {
                let ghost old_groups = groups@;
                let mut part = groups.remove(g);
                part.members.push(h);
                groups.insert(g, part);
                proof {
                    lemma_state_shape(views, filled@, iorder, t as int);
                    let st2 = group_step(views, filled@, st, h as int);
                    assert(groups@ =~= old_groups.update(g as int, groups@[g as int]));
                    assert(to_ints(groups@[g as int].members@) =~= (seq![st.prims[g as int]]
                        + st.holes[g as int]).push(h as int));
                    assert((seq![st.prims[g as int]] + st.holes[g as int]).push(h as int) =~= seq![
                        st.prims[g as int],
                    ] + st.holes[g as int].push(h as int));
                    assert forall|g2: int|
                        0 <= g2 < st2.prims.len() implies to_ints(
                        #[trigger] groups@[g2].members@,
                    ) == seq![st2.prims[g2]] + st2.holes[g2] by {
                        if g2 != g as int {
                            assert(groups@[g2] == old_groups[g2]);
                        }
                    }
                }
            } else {
                orphans.push(h);
                proof {
                    let st2 = group_step(views, filled@, st, h as int);
                    assert(to_ints(orphans@) =~= st.orphans.push(h as int));
                }
            }
        }
        t = t + 1;
    }
    (groups, orphans)
}

/// Group the subpaths of an outline into icon parts.
///
/// Classifies fill, sorts filled subpaths before unfilled and larger before
/// smaller, opens a group per filled subpath, and attaches every hole to the
/// first-created eligible containing group; holes matching no group are
/// returned as orphans.
pub fn group_icon_parts(subs: &Vec<Subpath>) -> (res: (Vec<IconPart>, Vec<usize>))
    requires
        outline_wf(subs@.map_values(|s: Subpath| s@)),
    ensures
        ({
            let views = subs@.map_values(|s: Subpath| s@);
            let st = spec_groups(
                views,
                filled_flags(views),
                spec_order(SortKey::Grouping, views, filled_flags(views)),
            );
            &&& res.0@.len() == st.prims.len()
            &&& forall|g: int|
                0 <= g < st.prims.len() ==> to_ints(#[trigger] res.0@[g].members@) == seq![
                    st.prims[g],
                ] + st.holes[g]
            &&& to_ints(res.1@) == st.orphans
        }),
        res.0@.len() <= subs@.len(),
        forall|g: int, j: int|
            0 <= g < res.0@.len() && 0 <= j < res.0@[g].members@.len()
                ==> (#[trigger] res.0@[g].members@[j]) < subs@.len(),
        forall|j: int| 0 <= j < res.1@.len() ==> (#[trigger] res.1@[j]) < subs@.len(),
{
    let ghost views = subs@.map_values(|s: Subpath| s@);
    let filled = crate::fill::classify_filled(subs);
    proof {
        assert(filled@ =~= filled_flags(views));
    }
    let order = sorted_order(subs, &filled, SortKey::Grouping);
    group_ordered(subs, &filled, &order)
}

/// Occurrences of `v` over all hole lists.
pub open spec fn holes_count(holes: Seq<Seq<int>>, v: int) -> int
    decreases holes.len(),
{
    if holes.len() == 0 {
        0
    } else {
        holes_count(holes.drop_last(), v) + count_in(holes.last(), v)
    }
}

/// Occurrences of `v` anywhere in the grouping result: as a primary, as a
/// hole of some group, or as an orphan.
pub open spec fn occurrences(st: GroupState, v: int) -> int {
    count_in(st.prims, v) + holes_count(st.holes, v) + count_in(st.orphans, v)
}

proof fn lemma_count_push(s: Seq<int>, x: int, v: int)
    ensures
        count_in(s.push(x), v) == count_in(s, v) + if x == v {
            1int
        } else {
            0int
        },
{
    assert(s.push(x).drop_last() =~= s);
    assert(s.push(x).last() == x);
}

proof fn lemma_holes_count_push_empty(holes: Seq<Seq<int>>, v: int)
    ensures
        holes_count(holes.push(Seq::empty()), v) == holes_count(holes, v),
{
    assert(holes.push(Seq::<int>::empty()).drop_last() =~= holes);
    assert(holes.push(Seq::<int>::empty()).last() =~= Seq::<int>::empty());
    assert(count_in(Seq::<int>::empty(), v) == 0);
}

proof fn lemma_holes_count_update(holes: Seq<Seq<int>>, g: int, x: int, v: int)
    requires
        0 <= g < holes.len(),
    ensures
        holes_count(holes.update(g, holes[g].push(x)), v) == holes_count(holes, v) + if x == v {
            1int
        } else {
            0int
        },
    decreases holes.len(),
{
    let upd = holes.update(g, holes[g].push(x));
    if g == holes.len() - 1 {
        assert(upd.drop_last() =~= holes.drop_last());
        assert(upd.last() == holes[g].push(x));
        lemma_count_push(holes[g], x, v);
    } else {
        assert(upd.drop_last() =~= holes.drop_last().update(g, holes.drop_last()[g].push(x)));
        lemma_holes_count_update(holes.drop_last(), g, x, v);
        assert(upd.last() == holes.last());
    }
}

proof fn lemma_occ_step(subs: Seq<SubV>, filled: Seq<bool>, st: GroupState, h: int, v: int)
    requires
        st.holes.len() == st.prims.len(),
    ensures
        occurrences(group_step(subs, filled, st, h), v) == occurrences(st, v) + if h == v {
            1int
        } else {
            0int
        },
{
    if filled[h] {
        lemma_count_push(st.prims, h, v);
        lemma_holes_count_push_empty(st.holes, v);
    } else {
        match first_container_from(subs, st.prims, h, 0) {
            Some(g) => {
                lemma_first_container_in_range(subs, st.prims, h, 0);
                lemma_holes_count_update(st.holes, g, h, v);
            },
            None => {
                lemma_count_push(st.orphans, h, v);
            },
        }
    }
}

proof fn lemma_first_container_in_range(subs: Seq<SubV>, prims: Seq<int>, h: int, g: int)
    requires
        first_container_from(subs, prims, h, g) is Some,
    ensures
        ({
            let r = first_container_from(subs, prims, h, g)->Some_0;
            g <= r < prims.len()
        }),
    decreases prims.len() - g,
{
    if !(g < 0 || g >= prims.len()) && !box_contains(cbox(subs[prims[g]]), cbox(subs[h])) {
        lemma_first_container_in_range(subs, prims, h, g + 1);
    }
}

proof fn lemma_occ_upto(subs: Seq<SubV>, filled: Seq<bool>, order: Seq<int>, n: int, v: int)
    requires
        0 <= n <= order.len(),
    ensures
        occurrences(spec_groups_upto(subs, filled, order, n), v) == count_in(
            order.subrange(0, n),
            v,
        ),
    decreases n,
{
    if n == 0 {
        assert(order.subrange(0, 0) =~= Seq::<int>::empty());
    } else {
        lemma_occ_upto(subs, filled, order, n - 1, v);
        lemma_state_shape(subs, filled, order, n - 1);
        lemma_occ_step(subs, filled, spec_groups_upto(subs, filled, order, n - 1), order[n - 1], v);
        assert(order.subrange(0, n).drop_last() =~= order.subrange(0, n - 1));
        assert(order.subrange(0, n).last() == order[n - 1]);
    }
}

/// Grouping partitions the input: walked over the grouping order of an
/// outline of `n` subpaths, every subpath index lands exactly once in the
/// result — as a group primary, as a hole of exactly one group, or as a
/// reported orphan — and no other index appears.
pub proof fn lemma_grouping_partitions(subs: Seq<SubV>, v: int)
    ensures
        occurrences(
            spec_groups(
                subs,
                filled_flags(subs),
                spec_order(SortKey::Grouping, subs, filled_flags(subs)),
            ),
            v,
        ) == if 0 <= v < subs.len() {
            1int
        } else {
            0int
        },
{
    let filled = filled_flags(subs);
    let order = spec_order(SortKey::Grouping, subs, filled);
    lemma_order_len(SortKey::Grouping, subs, filled, subs.len() as int);
    lemma_occ_upto(subs, filled, order, order.len() as int, v);
    assert(order.subrange(0, order.len() as int) =~= order);
    lemma_order_counts(SortKey::Grouping, subs, filled, subs.len() as int, v);
}


/// Between two distinct indices, the order relates them one way or the
/// other.
proof fn lemma_lt_connected(key: SortKey, subs: Seq<SubV>, filled: Seq<bool>, a: int, b: int)
    requires
        a != b,
    ensures
        spec_lt(key, subs, filled, a, b) || spec_lt(key, subs, filled, b, a),
{
}

proof fn lemma_lt_trans(key: SortKey, subs: Seq<SubV>, filled: Seq<bool>, a: int, b: int, c: int)
    requires
        spec_lt(key, subs, filled, a, b),
        spec_lt(key, subs, filled, b, c),
    ensures
        spec_lt(key, subs, filled, a, c),
{
}

/// Every pair of positions respects the order.
pub open spec fn strictly_sorted(key: SortKey, subs: Seq<SubV>, filled: Seq<bool>, s: Seq<int>) -> bool {
    forall|p: int, q: int| 0 <= p < q < s.len() ==> spec_lt(key, subs, filled, s[p], s[q])
}

proof fn lemma_insert_elem(
    key: SortKey,
    subs: Seq<SubV>,
    filled: Seq<bool>,
    s: Seq<int>,
    v: int,
    j: int,
)
    requires
        0 <= j < spec_insert(key, subs, filled, s, v).len(),
    ensures
        spec_insert(key, subs, filled, s, v)[j] == v || s.contains(
            spec_insert(key, subs, filled, s, v)[j],
        ),
    decreases s.len(),
{
    let out = spec_insert(key, subs, filled, s, v);
    if s.len() == 0 {
    } else if spec_lt(key, subs, filled, v, s[0]) {
        if j > 0 {
            assert(out[j] == s[j - 1]);
        }
    } else {
        if j > 0 {
            let rest = s.drop_first();
            lemma_insert_elem(key, subs, filled, rest, v, j - 1);
            assert(out[j] == spec_insert(key, subs, filled, rest, v)[j - 1]);
            if spec_insert(key, subs, filled, rest, v)[j - 1] != v {
                let w = spec_insert(key, subs, filled, rest, v)[j - 1];
                let t = choose|t: int| 0 <= t < rest.len() && rest[t] == w;
                assert(s[t + 1] == w);
            }
        }
    }
}

proof fn lemma_insert_sorted(key: SortKey, subs: Seq<SubV>, filled: Seq<bool>, s: Seq<int>, v: int)
    requires
        strictly_sorted(key, subs, filled, s),
        forall|j: int| 0 <= j < s.len() ==> s[j] != v,
    ensures
        strictly_sorted(key, subs, filled, spec_insert(key, subs, filled, s, v)),
    decreases s.len(),
{
    let out = spec_insert(key, subs, filled, s, v);
    lemma_insert_len(key, subs, filled, s, v);
    if s.len() == 0 {
    } else if spec_lt(key, subs, filled, v, s[0]) {
        assert forall|p: int, q: int|
            0 <= p < q < out.len() implies spec_lt(key, subs, filled, out[p], out[q]) by {
            if p == 0 {
                assert(out[q] == s[q - 1]);
                if q > 1 {
                    lemma_lt_trans(key, subs, filled, v, s[0], s[q - 1]);
                }
            } else {
                assert(out[p] == s[p - 1] && out[q] == s[q - 1]);
            }
        }
    } else {
        let rest = s.drop_first();
        assert forall|j: int| 0 <= j < rest.len() implies rest[j] != v by {
            assert(rest[j] == s[j + 1]);
        }
        assert(strictly_sorted(key, subs, filled, rest)) by {
            assert forall|p: int, q: int|
                0 <= p < q < rest.len() implies spec_lt(key, subs, filled, rest[p], rest[q]) by {
                assert(rest[p] == s[p + 1] && rest[q] == s[q + 1]);
            }
        }
        lemma_insert_sorted(key, subs, filled, rest, v);
        let inner = spec_insert(key, subs, filled, rest, v);
        lemma_lt_connected(key, subs, filled, s[0], v);
        assert forall|p: int, q: int|
            0 <= p < q < out.len() implies spec_lt(key, subs, filled, out[p], out[q]) by {
            if p == 0 {
                assert(out[q] == inner[q - 1]);
                lemma_insert_elem(key, subs, filled, rest, v, q - 1);
                if inner[q - 1] != v {
                    let w = inner[q - 1];
                    let t = choose|t: int| 0 <= t < rest.len() && rest[t] == w;
                    assert(s[t + 1] == w);
                }
            } else {
                assert(out[p] == inner[p - 1] && out[q] == inner[q - 1]);
            }
        }
    }
}

/// The sort order is sorted as specified: under the grouping key, filled
/// subpaths come before unfilled and, within each class, larger absolute
/// area before smaller; under the position key, larger stored y comes first,
/// then smaller x; ties keep index order, which makes the sort stable.
pub proof fn lemma_order_sorted(key: SortKey, subs: Seq<SubV>, filled: Seq<bool>, n: int)
    requires
        n >= 0,
    ensures
        strictly_sorted(key, subs, filled, spec_order_upto(key, subs, filled, n)),
    decreases n,
{
    if n > 0 {
        lemma_order_sorted(key, subs, filled, n - 1);
        let s = spec_order_upto(key, subs, filled, n - 1);
        assert forall|j: int| 0 <= j < s.len() implies s[j] != n - 1 by {
            if s[j] == n - 1 {
                assert(s.contains(n - 1));
                lemma_count_bounds_membership(s, n - 1);
                lemma_order_counts(key, subs, filled, n - 1, n - 1);
            }
        }
        lemma_insert_sorted(key, subs, filled, s, n - 1);
    }
}

} // verus!
