//! Stitching the outer ways of a multipolygon relation into closed rings of
//! node ids.
use std::collections::HashMap;
use vstd::prelude::*;
use crate::text::str_eq;

verus! {

broadcast use vstd::std_specs::hash::group_hash_axioms;

/// A relation member with this role is part of the outer boundary: the role
/// is `outer` or empty.
pub fn is_outer_role(role: &str) -> (b: bool)
    ensures
        b == (role@ == "outer"@ || role@.len() == 0),
{
    proof {
        reveal_strlit("outer");
    }
    str_eq(role, "outer") || role.unicode_len() == 0
}

/// The node lists of the outer ways, in the order of `ids`, leaving out the
/// ways the map does not know and those with fewer than two nodes.
pub open spec fn outer_segments(ids: Seq<i64>, refs: Map<i64, Vec<i64>>) -> Seq<Seq<i64>>
    decreases ids.len(),
{
    if ids.len() == 0 {
        Seq::empty()
    } else {
        let prev = outer_segments(ids.drop_last(), refs);
        let id = ids.last();
        if refs.contains_key(id) && refs[id]@.len() >= 2 {
            prev.push(refs[id]@)
        } else {
            prev
        }
    }
}

/// The first segment from position `from` on that starts at `tail`, or else
/// ends there; `true` when it has to be walked backwards.
pub open spec fn next_match(segs: Seq<Seq<i64>>, tail: i64, from: int) -> Option<(int, bool)>
    decreases segs.len() - from,
{
    if from >= segs.len() || from < 0 {
        None
    } else if segs[from].len() > 0 && segs[from][0] == tail {
        Some((from, false))
    } else if segs[from].len() > 0 && segs[from].last() == tail {
        Some((from, true))
    } else {
        next_match(segs, tail, from + 1)
    }
}

/// `ring` continued by `seg` without its first node, or, walking backwards,
/// by `seg` without its last node in reverse order.
pub open spec fn joined(ring: Seq<i64>, seg: Seq<i64>, reverse: bool) -> Seq<i64> {
    if reverse {
        ring + Seq::new((seg.len() - 1) as nat, |k: int| seg[seg.len() - 2 - k])
    } else {
        ring + seg.skip(1)
    }
}

/// `segs` without the segment at `i`, whose place the last one takes.
pub open spec fn swap_removed(segs: Seq<Seq<i64>>, i: int) -> Seq<Seq<i64>> {
    segs.update(i, segs.last()).drop_last()
}

/// The ring's first node is its last.
pub open spec fn is_closed(ring: Seq<i64>) -> bool {
    ring.len() > 0 && ring[0] == ring.last()
}

/// `ring` extended, while it is open, by the first segment that continues it;
/// and the segments left.
pub open spec fn grow(ring: Seq<i64>, segs: Seq<Seq<i64>>) -> (Seq<i64>, Seq<Seq<i64>>)
    decreases segs.len(),
{
    if ring.len() == 0 || is_closed(ring) {
        (ring, segs)
    } else {
        match next_match(segs, ring.last(), 0) {
            None => (ring, segs),
            Some(m) => if 0 <= m.0 < segs.len() {
                grow(joined(ring, segs[m.0], m.1), swap_removed(segs, m.0))
            } else {
                (ring, segs)
            },
        }
    }
}

/// Growing a ring uses segments up, never adds any.
pub proof fn lemma_grow_shrinks(ring: Seq<i64>, segs: Seq<Seq<i64>>)
    ensures
        grow(ring, segs).1.len() <= segs.len(),
    decreases segs.len(),
{
    if !(ring.len() == 0 || is_closed(ring)) {
        if let Some(m) = next_match(segs, ring.last(), 0) {
            if 0 <= m.0 < segs.len() {
                lemma_grow_shrinks(joined(ring, segs[m.0], m.1), swap_removed(segs, m.0));
            }
        }
    }
}

/// The rings made from `segs`: the last segment is grown into a ring, kept
/// when it closes with at least four nodes, and the segments it did not use
/// are stitched in turn.
pub open spec fn stitch(segs: Seq<Seq<i64>>) -> Seq<Seq<i64>>
    decreases segs.len(),
{
    if segs.len() == 0 {
        Seq::empty()
    } else {
        let g = grow(segs.last(), segs.drop_last());
        proof {
            lemma_grow_shrinks(segs.last(), segs.drop_last());
        }
        let kept = if g.0.len() >= 4 && is_closed(g.0) {
            seq![g.0]
        } else {
            Seq::empty()
        };
        kept + stitch(g.1)
    }
}

proof fn lemma_outer_segments_long(ids: Seq<i64>, refs: Map<i64, Vec<i64>>)
    ensures
        forall|k: int| 0 <= k < outer_segments(ids, refs).len() ==> #[trigger] outer_segments(ids, refs)[k].len() >= 2,
    decreases ids.len(),
{
    if ids.len() > 0 {
        let prev = outer_segments(ids.drop_last(), refs);
        lemma_outer_segments_long(ids.drop_last(), refs);
        let id = ids.last();
        if refs.contains_key(id) && refs[id]@.len() >= 2 {
            assert forall|k: int| 0 <= k < prev.push(refs[id]@).len() implies #[trigger] prev.push(refs[id]@)[k].len() >= 2 by {
                if k < prev.len() {
                    assert(prev.push(refs[id]@)[k] == prev[k]);
                }
            }
        }
    }
}

/// The views of a list of node lists.
pub open spec fn views(v: Seq<Vec<i64>>) -> Seq<Seq<i64>> {
    Seq::new(v.len(), |i: int| v[i]@)
}

proof fn lemma_next_match_in_range(segs: Seq<Seq<i64>>, tail: i64, from: int)
    ensures
        next_match(segs, tail, from) matches Some(m) ==> from <= m.0 < segs.len() && 0 <= m.0 && segs[m.0].len() > 0,
    decreases segs.len() - from,
{
    if !(from >= segs.len() || from < 0) {
        lemma_next_match_in_range(segs, tail, from + 1);
    }
}

proof fn lemma_views_swap_removed(v: Seq<Vec<i64>>, i: int)
    requires
        0 <= i < v.len(),
    ensures
        views(v.update(i, v.last()).drop_last()) == swap_removed(views(v), i),
{
    assert(views(v.update(i, v.last()).drop_last()) =~= swap_removed(views(v), i));
}

/// Appends `seg` to `ring` as `joined` says.
fn append_joined(ring: &mut Vec<i64>, seg: &Vec<i64>, reverse: bool)
    requires
        seg@.len() >= 1,
    ensures
        final(ring)@ == joined(old(ring)@, seg@, reverse),
{
    let ghost r0 = ring@;
    let n = seg.len();
    if reverse {
        let mut k: usize = 0;
        while k + 1 < n
            invariant
                n == seg@.len(),
                n >= 1,
                0 <= k <= n - 1,
                ring@ == r0 + Seq::new(k as nat, |j: int| seg@[n - 2 - j]),
            decreases n - k,
        {
            let x = seg[n - 2 - k];
            ring.push(x);
            k = k + 1;
            assert(ring@ =~= r0 + Seq::new(k as nat, |j: int| seg@[n - 2 - j]));
        }
        assert(ring@ =~= joined(r0, seg@, reverse));
    } else {
        let mut k: usize = 1;
        while k < n
            invariant
                n == seg@.len(),
                1 <= k <= n,
                ring@ == r0 + seg@.subrange(1, k as int),
            decreases n - k,
        {
            ring.push(seg[k]);
            k = k + 1;
            assert(ring@ =~= r0 + seg@.subrange(1, k as int));
        }
        assert(ring@ =~= joined(r0, seg@, reverse));
    }
}

/// Position of the first segment that continues a ring ending at `tail`
/// (see `next_match`).
fn find_next_segment(segments: &Vec<Vec<i64>>, tail: i64) -> (m: Option<(usize, bool)>)
    ensures
        match next_match(views(segments@), tail, 0) {
            None => m is None,
            Some(n) => m matches Some(p) && p.0 == n.0 && p.1 == n.1,
        },
{
    let ghost s = views(segments@);
    let mut j: usize = 0;
    while j < segments.len()
        invariant
            0 <= j <= segments@.len(),
            s == views(segments@),
            next_match(s, tail, 0) == next_match(s, tail, j as int),
        decreases segments@.len() - j,
    {
        let seg = &segments[j];
        assert(seg@ == s[j as int]);
        if seg.len() > 0 && seg[0] == tail {
            return Some((j, false));
        }
        if seg.len() > 0 && seg[seg.len() - 1] == tail {
            return Some((j, true));
        }
        j = j + 1;
    }
    None
}

/// The node lists of the outer ways, taken from the map (see
/// `outer_segments`).
fn collect_outer_segments(outer_way_ids: &[i64], relation_way_refs: &HashMap<i64, Vec<i64>>) -> (segments: Vec<Vec<i64>>)
    ensures
        views(segments@) == outer_segments(outer_way_ids@, relation_way_refs@),
{
    let mut segments: Vec<Vec<i64>> = Vec::new();
    let mut i: usize = 0;
    while i < outer_way_ids.len()
        invariant
            0 <= i <= outer_way_ids@.len(),
            views(segments@) == outer_segments(outer_way_ids@.take(i as int), relation_way_refs@),
        decreases outer_way_ids@.len() - i,
    {
        let id = outer_way_ids[i];
        assert(outer_way_ids@.take(i + 1).drop_last() =~= outer_way_ids@.take(i as int));
        match relation_way_refs.get(&id) {
            Some(node_refs) => {
                if node_refs.len() >= 2 {
                    let copy = node_refs.clone();
                    assert(copy@ =~= node_refs@);
                    let ghost before = segments@;
                    segments.push(copy);
                    assert(views(segments@) =~= views(before).push(node_refs@));
                }
            },
            None => {},
        }
        i = i + 1;
    }
    assert(outer_way_ids@.take(outer_way_ids@.len() as int) =~= outer_way_ids@);
    segments
}

/// Joins the outer ways of a multipolygon relation, end to end, into rings.
/// Each ring starts from the last way not yet used and is extended by the
/// first remaining way that starts, or else ends, where it ends, until it
/// closes or nothing continues it; rings that close with at least four
/// nodes are kept, in the order they were made.
pub fn stitch_relation_outer_rings(outer_way_ids: &[i64], relation_way_refs: &HashMap<i64, Vec<i64>>) -> (rings: Vec<Vec<i64>>)
    ensures
        views(rings@) == stitch(outer_segments(outer_way_ids@, relation_way_refs@)),
{
    let mut segments = collect_outer_segments(outer_way_ids, relation_way_refs);
    let ghost all = views(segments@);
    proof {
        lemma_outer_segments_long(outer_way_ids@, relation_way_refs@);
        assert forall|k: int| 0 <= k < segments@.len() implies #[trigger] segments@[k]@.len() >= 2 by {
            assert(all[k] == segments@[k]@);
        }
    }
    let mut rings: Vec<Vec<i64>> = Vec::new();
    assert(views(rings@) + stitch(views(segments@)) =~= stitch(all));
    while segments.len() > 0
        invariant
            views(rings@) + stitch(views(segments@)) == stitch(all),
            forall|k: int| 0 <= k < segments@.len() ==> #[trigger] segments@[k]@.len() >= 2,
        decreases segments@.len(),
    {
        let ghost s = views(segments@);
        let mut ring = match segments.pop() {
            Some(r) => r,
            None => Vec::new(),
        };
        assert(views(segments@) =~= s.drop_last());
        assert(ring@ == s.last());
        let ghost target = grow(s.last(), s.drop_last());
        let ghost left = segments@.len();
        let mut done = false;
        while !done
            invariant
                segments@.len() <= left,
                left < s.len(),
                ring@.len() >= 2,
                forall|k: int| 0 <= k < segments@.len() ==> #[trigger] segments@[k]@.len() >= 2,
                !done ==> grow(ring@, views(segments@)) == target,
                done ==> (ring@, views(segments@)) == target,
            decreases segments@.len(), if done { 0int } else { 1int },
        {
            let last = ring.len() - 1;
            if ring[0] == ring[last] {
                done = true;
            } else {
                let tail = ring[last];
                proof {
                    lemma_next_match_in_range(views(segments@), tail, 0);
                }
                match find_next_segment(&segments, tail) {
                    None => {
                        done = true;
                    },
                    Some((index, reverse)) => {
                        let ghost before = segments@;
                        let segment = segments.swap_remove(index);
                        proof {
                            lemma_views_swap_removed(before, index as int);
                        }
                        append_joined(&mut ring, &segment, reverse);
                        assert forall|k: int| 0 <= k < segments@.len() implies #[trigger] segments@[k]@.len() >= 2 by {
                            if k == index as int {
                                assert(segments@[k] == before[before.len() - 1]);
                            } else {
                                assert(segments@[k] == before[k]);
                            }
                        }
                    },
                }
            }
        }
        let ghost before_rings = views(rings@);
        let n = ring.len();
        if n >= 4 && ring[0] == ring[n - 1] {
            rings.push(ring);
            assert(views(rings@) =~= before_rings + seq![target.0]);
        } else {
            assert(views(rings@) =~= before_rings + Seq::<Seq<i64>>::empty());
        }
        assert(before_rings + stitch(s) =~= views(rings@) + stitch(views(segments@)));
    }
    assert(views(rings@) =~= views(rings@) + stitch(views(segments@)));
    rings
}

/// Every stitched ring is closed and has at least four nodes.
pub proof fn lemma_stitched_rings_closed(segs: Seq<Seq<i64>>)
    ensures
        forall|i: int| 0 <= i < stitch(segs).len() ==> #[trigger] stitch(segs)[i].len() >= 4 && is_closed(stitch(segs)[i]),
    decreases segs.len(),
{
    if segs.len() > 0 {
        let g = grow(segs.last(), segs.drop_last());
        lemma_grow_shrinks(segs.last(), segs.drop_last());
        lemma_stitched_rings_closed(g.1);
        let kept = if g.0.len() >= 4 && is_closed(g.0) {
            seq![g.0]
        } else {
            Seq::empty()
        };
        assert(stitch(segs) == kept + stitch(g.1));
    }
}


/// Node `x` is a node of one of the segments.
pub open spec fn node_of(segs: Seq<Seq<i64>>, x: i64) -> bool {
    exists|s: int, b: int| 0 <= s < segs.len() && 0 <= b < segs[s].len() && #[trigger] segs[s][b] == x
}

/// Every node of the segments `a` is a node of the segments `all`.
pub open spec fn nodes_within(a: Seq<Seq<i64>>, all: Seq<Seq<i64>>) -> bool {
    forall|s: int, b: int| 0 <= s < a.len() && 0 <= b < a[s].len() ==> #[trigger] node_of(all, a[s][b])
}

/// Every node of the ring is a node of the segments `all`.
pub open spec fn ring_within(ring: Seq<i64>, all: Seq<Seq<i64>>) -> bool {
    forall|k: int| 0 <= k < ring.len() ==> #[trigger] node_of(all, ring[k])
}

proof fn lemma_joined_within(ring: Seq<i64>, seg: Seq<i64>, reverse: bool, all: Seq<Seq<i64>>)
    requires
        ring_within(ring, all),
        ring_within(seg, all),
        seg.len() >= 1,
    ensures
        ring_within(joined(ring, seg, reverse), all),
{
    let j = joined(ring, seg, reverse);
    assert forall|k: int| 0 <= k < j.len() implies #[trigger] node_of(all, j[k]) by {
        if k < ring.len() {
            assert(j[k] == ring[k]);
        } else if reverse {
            let t = k - ring.len();
            assert(j[k] == seg[seg.len() - 2 - t]);
            assert(node_of(all, seg[seg.len() - 2 - t]));
        } else {
            assert(j[k] == seg[k - ring.len() + 1]);
            assert(node_of(all, seg[k - ring.len() + 1]));
        }
    }
}

proof fn lemma_grow_within(ring: Seq<i64>, segs: Seq<Seq<i64>>, all: Seq<Seq<i64>>)
    requires
        ring_within(ring, all),
        nodes_within(segs, all),
    ensures
        ring_within(grow(ring, segs).0, all),
        nodes_within(grow(ring, segs).1, all),
    decreases segs.len(),
{
    if !(ring.len() == 0 || is_closed(ring)) {
        if let Some(m) = next_match(segs, ring.last(), 0) {
            if 0 <= m.0 < segs.len() {
                let seg = segs[m.0];
                assert(ring_within(seg, all)) by {
                    assert forall|k: int| 0 <= k < seg.len() implies #[trigger] node_of(all, seg[k]) by {
                        assert(node_of(all, segs[m.0][k]));
                    }
                }
                lemma_next_match_in_range(segs, ring.last(), 0);
                lemma_joined_within(ring, seg, m.1, all);
                let rest = swap_removed(segs, m.0);
                assert(nodes_within(rest, all)) by {
                    assert forall|t: int, b: int| 0 <= t < rest.len() && 0 <= b < rest[t].len() implies #[trigger] node_of(all, rest[t][b]) by {
                        if t == m.0 {
                            assert(rest[t] == segs[segs.len() - 1]);
                            assert(node_of(all, segs[segs.len() - 1][b]));
                        } else {
                            assert(rest[t] == segs[t]);
                            assert(node_of(all, segs[t][b]));
                        }
                    }
                }
                lemma_grow_within(joined(ring, seg, m.1), rest, all);
            }
        }
    }
}

proof fn lemma_stitch_within(segs: Seq<Seq<i64>>, all: Seq<Seq<i64>>)
    requires
        nodes_within(segs, all),
    ensures
        nodes_within(stitch(segs), all),
        stitch(segs).len() <= segs.len(),
    decreases segs.len(),
{
    if segs.len() > 0 {
        let first = segs.last();
        let rest = segs.drop_last();
        assert(ring_within(first, all)) by {
            assert forall|k: int| 0 <= k < first.len() implies #[trigger] node_of(all, first[k]) by {
                assert(node_of(all, segs[segs.len() - 1][k]));
            }
        }
        assert(nodes_within(rest, all)) by {
            assert forall|t: int, b: int| 0 <= t < rest.len() && 0 <= b < rest[t].len() implies #[trigger] node_of(all, rest[t][b]) by {
                assert(rest[t] == segs[t]);
                assert(node_of(all, segs[t][b]));
            }
        }
        let g = grow(first, rest);
        lemma_grow_within(first, rest, all);
        lemma_grow_shrinks(first, rest);
        lemma_stitch_within(g.1, all);
        let kept = if g.0.len() >= 4 && is_closed(g.0) {
            seq![g.0]
        } else {
            Seq::empty()
        };
        let out = stitch(segs);
        assert(out == kept + stitch(g.1));
        assert forall|t: int, b: int| 0 <= t < out.len() && 0 <= b < out[t].len() implies #[trigger] node_of(all, out[t][b]) by {
            if t < kept.len() {
                assert(out[t] == g.0);
                assert(node_of(all, g.0[b]));
            } else {
                assert(out[t] == stitch(g.1)[t - kept.len()]);
                assert(node_of(all, stitch(g.1)[t - kept.len()][b]));
            }
        }
    }
}

/// Node `x` is a node of one of the outer ways, as the map gives them.
pub open spec fn way_node(ids: Seq<i64>, refs: Map<i64, Vec<i64>>, x: i64) -> bool {
    exists|j: int, b: int| 0 <= j < ids.len() && refs.contains_key(ids[j]) && 0 <= b < refs[ids[j]]@.len() && #[trigger] refs[ids[j]]@[b] == x
}

proof fn lemma_outer_segments_nodes(ids: Seq<i64>, refs: Map<i64, Vec<i64>>)
    ensures
        outer_segments(ids, refs).len() <= ids.len(),
        forall|s: int, b: int| 0 <= s < outer_segments(ids, refs).len() && 0 <= b < outer_segments(ids, refs)[s].len() ==> #[trigger] way_node(ids, refs, outer_segments(ids, refs)[s][b]),
    decreases ids.len(),
{
    if ids.len() > 0 {
        let pre = ids.drop_last();
        lemma_outer_segments_nodes(pre, refs);
        let prev = outer_segments(pre, refs);
        let cur = outer_segments(ids, refs);
        let id = ids.last();
        assert forall|s: int, b: int| 0 <= s < cur.len() && 0 <= b < cur[s].len() implies #[trigger] way_node(ids, refs, cur[s][b]) by {
            if s < prev.len() {
                assert(cur[s] == prev[s]);
                assert(way_node(pre, refs, prev[s][b]));
                let (j, bb) = choose|j: int, bb: int| 0 <= j < pre.len() && refs.contains_key(pre[j]) && 0 <= bb < refs[pre[j]]@.len() && #[trigger] refs[pre[j]]@[bb] == prev[s][b];
                assert(ids[j] == pre[j]);
                assert(refs[ids[j]]@[bb] == cur[s][b]);
            } else {
                assert(cur[s] == refs[id]@);
                assert(ids[ids.len() - 1] == id);
                assert(refs[ids[ids.len() - 1]]@[b] == cur[s][b]);
            }
        }
    }
}

/// Law: the stitched rings of a relation use only nodes of its outer ways,
/// and there are at most as many rings as outer ways with two or more nodes
/// (each ring starts from a way no other ring uses).
pub proof fn lemma_rings_use_outer_way_nodes(ids: Seq<i64>, refs: Map<i64, Vec<i64>>)
    ensures
        stitch(outer_segments(ids, refs)).len() <= outer_segments(ids, refs).len(),
        outer_segments(ids, refs).len() <= ids.len(),
        forall|i: int, a: int| 0 <= i < stitch(outer_segments(ids, refs)).len() && 0 <= a < stitch(outer_segments(ids, refs))[i].len()
            ==> #[trigger] way_node(ids, refs, stitch(outer_segments(ids, refs))[i][a]),
{
    let segs = outer_segments(ids, refs);
    lemma_outer_segments_nodes(ids, refs);
    assert(nodes_within(segs, segs)) by {
        assert forall|s: int, b: int| 0 <= s < segs.len() && 0 <= b < segs[s].len() implies #[trigger] node_of(segs, segs[s][b]) by {}
    }
    lemma_stitch_within(segs, segs);
    let rings = stitch(segs);
    assert forall|i: int, a: int| 0 <= i < rings.len() && 0 <= a < rings[i].len() implies #[trigger] way_node(ids, refs, rings[i][a]) by {
        assert(node_of(segs, rings[i][a]));
        let (s, b) = choose|s: int, b: int| 0 <= s < segs.len() && 0 <= b < segs[s].len() && #[trigger] segs[s][b] == rings[i][a];
        assert(way_node(ids, refs, segs[s][b]));
    }
}

} // verus!
