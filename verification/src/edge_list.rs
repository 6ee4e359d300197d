//! The list of labelled edges that the relationship store keeps, and how it
//! is read as a map from ordered pairs of handles to labels.

use crate::relationship::TimeRelationship;
use vstd::prelude::*;

verus! {

/// Whether the stored edge `e` leads from `a` to `b`.
pub open spec fn joins(e: (usize, usize, TimeRelationship), a: usize, b: usize) -> bool {
    e.0 == a && e.1 == b
}

/// Whether some edge of the list leads from `a` to `b`.
pub open spec fn edge_between(edges: Seq<(usize, usize, TimeRelationship)>, a: usize, b: usize) -> bool {
    exists|i: int| 0 <= i < edges.len() && joins(#[trigger] edges[i], a, b)
}

/// The position of an edge from `a` to `b`, where there is one.
pub open spec fn position_of(edges: Seq<(usize, usize, TimeRelationship)>, a: usize, b: usize) -> int {
    choose|i: int| 0 <= i < edges.len() && joins(#[trigger] edges[i], a, b)
}

/// The list read as a map: the pairs that an edge joins, each with the label
/// of an edge that joins it.
pub open spec fn edge_labels(edges: Seq<(usize, usize, TimeRelationship)>) -> Map<
    (usize, usize),
    TimeRelationship,
> {
    Map::new(
        |p: (usize, usize)| edge_between(edges, p.0, p.1),
        |p: (usize, usize)| edges[position_of(edges, p.0, p.1)].2,
    )
}

/// The pairs that the edges of the list join.
pub open spec fn edge_pairs(edges: Seq<(usize, usize, TimeRelationship)>) -> Set<(usize, usize)> {
    Set::new(|p: (usize, usize)| edge_between(edges, p.0, p.1))
}

/// No two edges of the list join the same ordered pair.
pub open spec fn distinct_pairs(edges: Seq<(usize, usize, TimeRelationship)>) -> bool {
    forall|i: int, j: int|
        0 <= i < j < edges.len() ==> !joins(#[trigger] edges[i], (#[trigger] edges[j]).0, edges[j].1)
}

/// The list with the edge at `e` taken out and the last edge moved into its
/// place.
pub open spec fn swap_removed(edges: Seq<(usize, usize, TimeRelationship)>, e: int) -> Seq<
    (usize, usize, TimeRelationship),
> {
    edges.update(e, edges[edges.len() - 1]).drop_last()
}

/// The end of `e` that lies at the node whose neighbours are asked for.
pub open spec fn near_end(e: (usize, usize, TimeRelationship), incoming: bool) -> usize {
    if incoming {
        e.1
    } else {
        e.0
    }
}

/// The end of `e` that is the neighbour.
pub open spec fn far_end(e: (usize, usize, TimeRelationship), incoming: bool) -> usize {
    if incoming {
        e.0
    } else {
        e.1
    }
}

/// `r` names the far end of each edge that has its near end at `a`, once per
/// edge and in the order `at` gives: `at[j]` is the position of the edge that
/// `r[j]` comes from.
pub open spec fn neighbor_listing(
    edges: Seq<(usize, usize, TimeRelationship)>,
    a: usize,
    incoming: bool,
    r: Seq<usize>,
    at: Seq<int>,
) -> bool {
    &&& at.len() == r.len()
    &&& at.no_duplicates()
    &&& forall|j: int|
        0 <= j < at.len() ==> 0 <= #[trigger] at[j] < edges.len()
            && near_end(edges[at[j]], incoming) == a && far_end(edges[at[j]], incoming) == r[j]
    &&& forall|i: int|
        0 <= i < edges.len() && near_end(#[trigger] edges[i], incoming) == a ==> at.contains(i)
}

/// `r` names the far end of each edge that has its near end at `a`, once per
/// edge, in some order.
pub open spec fn lists_neighbors(
    edges: Seq<(usize, usize, TimeRelationship)>,
    a: usize,
    incoming: bool,
    r: Seq<usize>,
) -> bool {
    exists|at: Seq<int>| #[trigger] neighbor_listing(edges, a, incoming, r, at)
}

/// The pairs of the list are the domain of its map.
pub proof fn lemma_pairs_are_domain(edges: Seq<(usize, usize, TimeRelationship)>)
    ensures
        edge_pairs(edges) == edge_labels(edges).dom(),
{
    assert(edge_pairs(edges) =~= edge_labels(edges).dom());
}

/// In a list without double pairs, the map gives each edge its own label.
pub proof fn lemma_label_at(edges: Seq<(usize, usize, TimeRelationship)>, i: int)
    requires
        distinct_pairs(edges),
        0 <= i < edges.len(),
    ensures
        edge_labels(edges).contains_key((edges[i].0, edges[i].1)),
        edge_labels(edges)[(edges[i].0, edges[i].1)] == edges[i].2,
        position_of(edges, edges[i].0, edges[i].1) == i,
{
    let a = edges[i].0;
    let b = edges[i].1;
    assert(joins(edges[i], a, b));
    let j = position_of(edges, a, b);
    assert(0 <= j < edges.len() && joins(edges[j], a, b));
    if j < i {
        assert(!joins(edges[j], edges[i].0, edges[i].1));
    } else if i < j {
        assert(!joins(edges[i], edges[j].0, edges[j].1));
    }
}

/// Appending an edge between a pair that was not joined adds that pair to
/// the map.
pub proof fn lemma_push_inserts(
    edges: Seq<(usize, usize, TimeRelationship)>,
    a: usize,
    b: usize,
    kind: TimeRelationship,
)
    requires
        distinct_pairs(edges),
        !edge_between(edges, a, b),
    ensures
        distinct_pairs(edges.push((a, b, kind))),
        edge_labels(edges.push((a, b, kind))) == edge_labels(edges).insert((a, b), kind),
        edge_pairs(edges.push((a, b, kind))) == edge_pairs(edges).insert((a, b)),
{
    let after = edges.push((a, b, kind));
    let n = edges.len() as int;
    assert forall|i: int, j: int| 0 <= i < j < after.len() implies !joins(
        #[trigger] after[i],
        (#[trigger] after[j]).0,
        after[j].1,
    ) by {
        if j < n {
            assert(!joins(edges[i], edges[j].0, edges[j].1));
        } else {
            assert(after[i] == edges[i]);
            if joins(edges[i], a, b) {
                assert(edge_between(edges, a, b));
            }
        }
    }
    assert forall|p: (usize, usize)| edge_between(after, p.0, p.1) <==> (p == (a, b) || edge_between(
        edges,
        p.0,
        p.1,
    )) by {
        if edge_between(after, p.0, p.1) {
            let i = position_of(after, p.0, p.1);
            if i < n {
                assert(joins(edges[i], p.0, p.1));
            }
        }
        if p == (a, b) {
            assert(joins(after[n], a, b));
        }
        if edge_between(edges, p.0, p.1) {
            let i = position_of(edges, p.0, p.1);
            assert(joins(after[i], p.0, p.1));
        }
    }
    assert forall|p: (usize, usize)| edge_between(after, p.0, p.1) implies #[trigger] edge_labels(
        after,
    )[p] == edge_labels(edges).insert((a, b), kind)[p] by {
        let i = position_of(after, p.0, p.1);
        lemma_label_at(after, i);
        if i < n {
            assert(joins(edges[i], p.0, p.1));
            lemma_label_at(edges, i);
        }
    }
    assert(edge_labels(after) =~= edge_labels(edges).insert((a, b), kind));
    assert(edge_pairs(after) =~= edge_pairs(edges).insert((a, b)));
}

/// Writing a new label on an edge sets the label of its pair in the map and
/// changes no pair.
pub proof fn lemma_update_relabels(
    edges: Seq<(usize, usize, TimeRelationship)>,
    e: int,
    kind: TimeRelationship,
)
    requires
        distinct_pairs(edges),
        0 <= e < edges.len(),
    ensures
        distinct_pairs(edges.update(e, (edges[e].0, edges[e].1, kind))),
        edge_labels(edges.update(e, (edges[e].0, edges[e].1, kind))) == edge_labels(edges).insert(
            (edges[e].0, edges[e].1),
            kind,
        ),
        edge_pairs(edges.update(e, (edges[e].0, edges[e].1, kind))) == edge_pairs(edges),
{
    let a = edges[e].0;
    let b = edges[e].1;
    let after = edges.update(e, (a, b, kind));
    assert forall|i: int, j: int| 0 <= i < j < after.len() implies !joins(
        #[trigger] after[i],
        (#[trigger] after[j]).0,
        after[j].1,
    ) by {
        assert(!joins(edges[i], edges[j].0, edges[j].1));
    }
    assert forall|p: (usize, usize)|
        edge_between(after, p.0, p.1) <==> edge_between(edges, p.0, p.1) by {
        if edge_between(after, p.0, p.1) {
            let i = position_of(after, p.0, p.1);
            assert(joins(edges[i], p.0, p.1));
        }
        if edge_between(edges, p.0, p.1) {
            let i = position_of(edges, p.0, p.1);
            assert(joins(after[i], p.0, p.1));
        }
    }
    assert(joins(edges[e], a, b));
    assert forall|p: (usize, usize)| edge_between(after, p.0, p.1) implies #[trigger] edge_labels(
        after,
    )[p] == edge_labels(edges).insert((a, b), kind)[p] by {
        let i = position_of(after, p.0, p.1);
        lemma_label_at(after, i);
        assert(joins(edges[i], p.0, p.1));
        lemma_label_at(edges, i);
        if i != e && p == (a, b) {
            if i < e {
                assert(!joins(edges[i], edges[e].0, edges[e].1));
            } else {
                assert(!joins(edges[e], edges[i].0, edges[i].1));
            }
        }
    }
    assert(edge_labels(after) =~= edge_labels(edges).insert((a, b), kind));
    assert(edge_pairs(after) =~= edge_pairs(edges));
}

/// Taking an edge out of a list without double pairs takes its pair out of
/// the map and leaves every other pair with its label.
pub proof fn lemma_swap_remove_removes(edges: Seq<(usize, usize, TimeRelationship)>, e: int)
    requires
        distinct_pairs(edges),
        0 <= e < edges.len(),
    ensures
        distinct_pairs(swap_removed(edges, e)),
        edge_labels(swap_removed(edges, e)) == edge_labels(edges).remove((edges[e].0, edges[e].1)),
        edge_pairs(swap_removed(edges, e)) == edge_pairs(edges).remove((edges[e].0, edges[e].1)),
{
    let a = edges[e].0;
    let b = edges[e].1;
    let n = edges.len() - 1;
    let after = swap_removed(edges, e);
    // Where each edge of the new list stood in the old one.
    let origin = |i: int| if i == e { n } else { i };
    assert forall|i: int| 0 <= i < after.len() implies #[trigger] after[i] == edges[origin(i)] by {}
    assert forall|i: int, j: int| 0 <= i < j < after.len() implies !joins(
        #[trigger] after[i],
        (#[trigger] after[j]).0,
        after[j].1,
    ) by {
        let oi = origin(i);
        let oj = origin(j);
        assert(after[i] == edges[oi] && after[j] == edges[oj]);
        if oi < oj {
            assert(!joins(edges[oi], edges[oj].0, edges[oj].1));
        } else {
            assert(!joins(edges[oj], edges[oi].0, edges[oi].1));
        }
    }
    assert forall|p: (usize, usize)| edge_between(after, p.0, p.1) <==> (p != (a, b) && edge_between(
        edges,
        p.0,
        p.1,
    )) by {
        if edge_between(after, p.0, p.1) {
            let i = position_of(after, p.0, p.1);
            let oi = origin(i);
            assert(after[i] == edges[oi]);
            assert(joins(edges[oi], p.0, p.1));
            if p == (a, b) {
                if oi < e {
                    assert(!joins(edges[oi], edges[e].0, edges[e].1));
                } else {
                    assert(!joins(edges[e], edges[oi].0, edges[oi].1));
                }
            }
        }
        if p != (a, b) && edge_between(edges, p.0, p.1) {
            let i = position_of(edges, p.0, p.1);
            assert(i != e);
            if i == n {
                assert(after[e] == edges[n]);
                assert(joins(after[e], p.0, p.1));
            } else {
                assert(after[i] == edges[i]);
                assert(joins(after[i], p.0, p.1));
            }
        }
    }
    assert forall|p: (usize, usize)| edge_between(after, p.0, p.1) implies #[trigger] edge_labels(
        after,
    )[p] == edge_labels(edges)[p] by {
        let i = position_of(after, p.0, p.1);
        lemma_label_at(after, i);
        assert(after[i] == edges[origin(i)]);
        lemma_label_at(edges, origin(i));
    }
    assert(edge_labels(after) =~= edge_labels(edges).remove((a, b)));
    assert(edge_pairs(after) =~= edge_pairs(edges).remove((a, b)));
}

/// In a list without double pairs, a listing of neighbours names each
/// neighbour once, and names exactly the nodes that an edge joins to `a`.
pub proof fn lemma_neighbors_are_set(
    edges: Seq<(usize, usize, TimeRelationship)>,
    a: usize,
    incoming: bool,
    r: Seq<usize>,
)
    requires
        distinct_pairs(edges),
        lists_neighbors(edges, a, incoming, r),
    ensures
        r.no_duplicates(),
        forall|b: usize|
            r.contains(b) <==> if incoming {
                edge_between(edges, b, a)
            } else {
                edge_between(edges, a, b)
            },
{
    let at = choose|at: Seq<int>| #[trigger] neighbor_listing(edges, a, incoming, r, at);
    assert forall|i: int, j: int| 0 <= i < r.len() && 0 <= j < r.len() && i != j implies r[i]
        != r[j] by {
        let x = at[i];
        let y = at[j];
        assert(x != y);
        if r[i] == r[j] {
            if x < y {
                assert(!joins(edges[x], edges[y].0, edges[y].1));
            } else {
                assert(!joins(edges[y], edges[x].0, edges[x].1));
            }
        }
    }
    assert forall|b: usize|
        r.contains(b) <==> if incoming {
            edge_between(edges, b, a)
        } else {
            edge_between(edges, a, b)
        } by {
        if r.contains(b) {
            let j = choose|j: int| 0 <= j < r.len() && r[j] == b;
            let x = at[j];
            if incoming {
                assert(joins(edges[x], b, a));
            } else {
                assert(joins(edges[x], a, b));
            }
        }
        if incoming && edge_between(edges, b, a) {
            let i = position_of(edges, b, a);
            assert(near_end(edges[i], incoming) == a);
            assert(at.contains(i));
            let j = choose|j: int| 0 <= j < at.len() && at[j] == i;
            assert(r[j] == b);
        }
        if !incoming && edge_between(edges, a, b) {
            let i = position_of(edges, a, b);
            assert(near_end(edges[i], incoming) == a);
            assert(at.contains(i));
            let j = choose|j: int| 0 <= j < at.len() && at[j] == i;
            assert(r[j] == b);
        }
    }
}

} // verus!
