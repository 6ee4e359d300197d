//! Directed graphs over task handles, as sets of ordered pairs, with the
//! notions of path, reachability and acyclicity and the facts about them that
//! the dependency rules rest on.

use vstd::prelude::*;

verus! {

/// Whether `g` joins the node at position `i` of `p` to the one after it.
pub open spec fn linked_at(g: Set<(usize, usize)>, p: Seq<usize>, i: int) -> bool {
    g.contains((p[i], p[i + 1]))
}

/// A path of `g`: a non-empty list of nodes, each joined to the next by an
/// edge of `g`. A single node is a path of length zero.
pub open spec fn is_path(g: Set<(usize, usize)>, p: Seq<usize>) -> bool {
    p.len() > 0 && forall|i: int| 0 <= i < p.len() - 1 ==> #[trigger] linked_at(g, p, i)
}

/// A path of `g` that starts at `a` and ends at `b`.
pub open spec fn is_path_between(
    g: Set<(usize, usize)>,
    p: Seq<usize>,
    a: usize,
    b: usize,
) -> bool {
    is_path(g, p) && p[0] == a && p[p.len() - 1] == b
}

/// `b` can be reached from `a` along edges of `g`. Every node reaches itself.
pub open spec fn reaches(g: Set<(usize, usize)>, a: usize, b: usize) -> bool {
    exists|p: Seq<usize>| #[trigger] is_path_between(g, p, a, b)
}

/// No edge of `g` lies on a cycle: the target of an edge never reaches its
/// source. This rules out self-loops too.
pub open spec fn acyclic(g: Set<(usize, usize)>) -> bool {
    forall|a: usize, b: usize| #[trigger] g.contains((a, b)) ==> !reaches(g, b, a)
}

/// Every node reaches itself.
pub proof fn lemma_reaches_self(g: Set<(usize, usize)>, a: usize)
    ensures
        reaches(g, a, a),
{
    assert(is_path_between(g, seq![a], a, a));
}

/// An edge is a path.
pub proof fn lemma_reaches_edge(g: Set<(usize, usize)>, a: usize, b: usize)
    requires
        g.contains((a, b)),
    ensures
        reaches(g, a, b),
{
    let p = seq![a, b];
    assert(linked_at(g, p, 0));
    assert(is_path_between(g, p, a, b));
}

/// Two paths that meet join into one.
pub proof fn lemma_reaches_trans(g: Set<(usize, usize)>, a: usize, b: usize, c: usize)
    requires
        reaches(g, a, b),
        reaches(g, b, c),
    ensures
        reaches(g, a, c),
{
    let p = choose|p: Seq<usize>| #[trigger] is_path_between(g, p, a, b);
    let q = choose|q: Seq<usize>| #[trigger] is_path_between(g, q, b, c);
    let r = p + q.subrange(1, q.len() as int);
    assert forall|i: int| 0 <= i < r.len() - 1 implies #[trigger] linked_at(g, r, i) by {
        if i < p.len() - 1 {
            assert(linked_at(g, p, i));
        } else {
            assert(linked_at(g, q, i - (p.len() - 1)));
        }
    }
    assert(is_path_between(g, r, a, c));
}

/// A path can be extended by an edge at its end.
pub proof fn lemma_reaches_then_edge(g: Set<(usize, usize)>, a: usize, b: usize, c: usize)
    requires
        reaches(g, a, b),
        g.contains((b, c)),
    ensures
        reaches(g, a, c),
{
    lemma_reaches_edge(g, b, c);
    lemma_reaches_trans(g, a, b, c);
}

/// A path can be extended by an edge at its start.
pub proof fn lemma_edge_then_reaches(g: Set<(usize, usize)>, a: usize, b: usize, c: usize)
    requires
        g.contains((a, b)),
        reaches(g, b, c),
    ensures
        reaches(g, a, c),
{
    lemma_reaches_edge(g, a, b);
    lemma_reaches_trans(g, a, b, c);
}

/// A path of a graph is a path of every larger graph.
pub proof fn lemma_reaches_monotone(
    g: Set<(usize, usize)>,
    h: Set<(usize, usize)>,
    a: usize,
    b: usize,
)
    requires
        g.subset_of(h),
        reaches(g, a, b),
    ensures
        reaches(h, a, b),
{
    let p = choose|p: Seq<usize>| #[trigger] is_path_between(g, p, a, b);
    assert forall|i: int| 0 <= i < p.len() - 1 implies #[trigger] linked_at(h, p, i) by {
        assert(linked_at(g, p, i));
    }
    assert(is_path_between(h, p, a, b));
}

/// Every part of an acyclic graph is acyclic.
pub proof fn lemma_acyclic_subgraph(g: Set<(usize, usize)>, h: Set<(usize, usize)>)
    requires
        h.subset_of(g),
        acyclic(g),
    ensures
        acyclic(h),
{
    assert forall|a: usize, b: usize| #[trigger] h.contains((a, b)) implies !reaches(h, b, a) by {
        assert(g.contains((a, b)));
        if reaches(h, b, a) {
            lemma_reaches_monotone(h, g, b, a);
        }
    }
}

/// A path of `g` with the edge `a -> b` added either avoids that edge, or
/// falls into a part of `g` up to `a` and a part of `g` from `b` on.
proof fn lemma_path_through_new_edge(
    g: Set<(usize, usize)>,
    a: usize,
    b: usize,
    p: Seq<usize>,
)
    requires
        is_path(g.insert((a, b)), p),
    ensures
        reaches(g, p[0], p[p.len() - 1]) || (reaches(g, p[0], a) && reaches(g, b, p[p.len() - 1])),
    decreases p.len(),
{
    let h = g.insert((a, b));
    if p.len() == 1 {
        lemma_reaches_self(g, p[0]);
    } else {
        let q = p.drop_last();
        let n = p.len() - 1;
        assert forall|i: int| 0 <= i < q.len() - 1 implies #[trigger] linked_at(h, q, i) by {
            assert(linked_at(h, p, i));
        }
        lemma_path_through_new_edge(g, a, b, q);
        assert(linked_at(h, p, n - 1));
        let u = p[n - 1];
        let v = p[n];
        assert(q[q.len() - 1] == u);
        assert(q[0] == p[0]);
        if g.contains((u, v)) {
            if reaches(g, p[0], u) {
                lemma_reaches_then_edge(g, p[0], u, v);
            } else {
                lemma_reaches_then_edge(g, b, u, v);
            }
        } else {
            assert(u == a && v == b);
            lemma_reaches_self(g, b);
        }
    }
}

/// Adding the edge `a -> b` to an acyclic graph in which `b` does not reach
/// `a` leaves the graph acyclic.
pub proof fn lemma_insert_keeps_acyclic(g: Set<(usize, usize)>, a: usize, b: usize)
    requires
        acyclic(g),
        !reaches(g, b, a),
    ensures
        acyclic(g.insert((a, b))),
{
    let h = g.insert((a, b));
    assert forall|x: usize, y: usize| #[trigger] h.contains((x, y)) implies !reaches(h, y, x) by {
        if reaches(h, y, x) {
            let p = choose|p: Seq<usize>| #[trigger] is_path_between(h, p, y, x);
            lemma_path_through_new_edge(g, a, b, p);
            if g.contains((x, y)) {
                if reaches(g, y, x) {
                } else {
                    lemma_reaches_then_edge(g, b, x, y);
                    lemma_reaches_trans(g, b, y, a);
                }
            } else {
                assert(x == a && y == b);
                if !reaches(g, y, x) {
                    assert(reaches(g, b, x));
                }
            }
        }
    }
}

/// Where `h` adds to `g` only edges that end at `t`, a path of `h` is a path
/// of `g`, or it falls into a part of `g` up to the start of an edge into
/// `t` and a part of `g` from `t` on.
proof fn lemma_path_around_inbound(
    g: Set<(usize, usize)>,
    h: Set<(usize, usize)>,
    t: usize,
    p: Seq<usize>,
)
    requires
        forall|x: usize, y: usize| #[trigger] h.contains((x, y)) ==> g.contains((x, y)) || y == t,
        is_path(h, p),
    ensures
        reaches(g, p[0], p[p.len() - 1]) || exists|q: usize|
            #[trigger] h.contains((q, t)) && reaches(g, p[0], q) && reaches(g, t, p[p.len() - 1]),
    decreases p.len(),
{
    if p.len() == 1 {
        lemma_reaches_self(g, p[0]);
    } else {
        let shorter = p.drop_last();
        let n = p.len() - 1;
        assert forall|i: int| 0 <= i < shorter.len() - 1 implies #[trigger] linked_at(h, shorter, i) by {
            assert(linked_at(h, p, i));
        }
        lemma_path_around_inbound(g, h, t, shorter);
        assert(linked_at(h, p, n - 1));
        let u = p[0];
        let w = p[n - 1];
        let v = p[n];
        assert(shorter[0] == u && shorter[shorter.len() - 1] == w);
        assert(h.contains((w, v)));
        if reaches(g, u, w) {
            if g.contains((w, v)) {
                lemma_reaches_then_edge(g, u, w, v);
            } else {
                lemma_reaches_self(g, t);
                assert(h.contains((w, t)) && reaches(g, u, w) && reaches(g, t, v));
            }
        } else {
            let q = choose|q: usize|
                #[trigger] h.contains((q, t)) && reaches(g, u, q) && reaches(g, t, w);
            if g.contains((w, v)) {
                lemma_reaches_then_edge(g, t, w, v);
            } else {
                lemma_reaches_self(g, t);
            }
            assert(h.contains((q, t)) && reaches(g, u, q) && reaches(g, t, v));
        }
    }
}

/// Edges that end at `t` do not change what `t` reaches.
pub proof fn lemma_inbound_edges_irrelevant(
    g: Set<(usize, usize)>,
    h: Set<(usize, usize)>,
    t: usize,
    b: usize,
)
    requires
        forall|x: usize, y: usize| #[trigger] h.contains((x, y)) ==> g.contains((x, y)) || y == t,
        reaches(h, t, b),
    ensures
        reaches(g, t, b),
{
    let p = choose|p: Seq<usize>| #[trigger] is_path_between(h, p, t, b);
    lemma_path_around_inbound(g, h, t, p);
}

/// Adding edges that end at `t` to an acyclic graph, each from a node that
/// `t` does not reach, leaves the graph acyclic.
pub proof fn lemma_inbound_edges_keep_acyclic(
    g: Set<(usize, usize)>,
    h: Set<(usize, usize)>,
    t: usize,
)
    requires
        acyclic(g),
        forall|x: usize, y: usize| #[trigger] h.contains((x, y)) ==> g.contains((x, y)) || y == t,
        forall|x: usize| #[trigger] h.contains((x, t)) ==> !reaches(g, t, x),
    ensures
        acyclic(h),
{
    assert forall|a: usize, b: usize| #[trigger] h.contains((a, b)) implies !reaches(h, b, a) by {
        if reaches(h, b, a) {
            let p = choose|p: Seq<usize>| #[trigger] is_path_between(h, p, b, a);
            lemma_path_around_inbound(g, h, t, p);
            if b == t {
                lemma_inbound_edges_irrelevant(g, h, t, a);
            } else {
                assert(g.contains((a, b)));
                if !reaches(g, b, a) {
                    let q = choose|q: usize|
                        #[trigger] h.contains((q, t)) && reaches(g, b, q) && reaches(g, t, a);
                    lemma_reaches_then_edge(g, t, a, b);
                    lemma_reaches_trans(g, t, b, q);
                }
            }
        }
    }
}

/// Where `h` adds to `g` only edges that start at `t`, a path of `h` is a
/// path of `g`, or it falls into a part of `g` up to `t` and a part of `g`
/// from the end of an edge out of `t` on.
proof fn lemma_path_around_outbound(
    g: Set<(usize, usize)>,
    h: Set<(usize, usize)>,
    t: usize,
    p: Seq<usize>,
)
    requires
        forall|x: usize, y: usize| #[trigger] h.contains((x, y)) ==> g.contains((x, y)) || x == t,
        is_path(h, p),
    ensures
        reaches(g, p[0], p[p.len() - 1]) || exists|q: usize|
            #[trigger] h.contains((t, q)) && reaches(g, p[0], t) && reaches(g, q, p[p.len() - 1]),
    decreases p.len(),
{
    if p.len() == 1 {
        lemma_reaches_self(g, p[0]);
    } else {
        let shorter = p.drop_first();
        assert forall|i: int| 0 <= i < shorter.len() - 1 implies #[trigger] linked_at(h, shorter, i) by {
            assert(linked_at(h, p, i + 1));
        }
        lemma_path_around_outbound(g, h, t, shorter);
        assert(linked_at(h, p, 0));
        let u = p[0];
        let w = p[1];
        let v = p[p.len() - 1];
        assert(shorter[0] == w && shorter[shorter.len() - 1] == v);
        assert(h.contains((u, w)));
        if reaches(g, w, v) {
            if g.contains((u, w)) {
                lemma_edge_then_reaches(g, u, w, v);
            } else {
                lemma_reaches_self(g, t);
                assert(h.contains((t, w)) && reaches(g, u, t) && reaches(g, w, v));
            }
        } else {
            let q = choose|q: usize|
                #[trigger] h.contains((t, q)) && reaches(g, w, t) && reaches(g, q, v);
            if g.contains((u, w)) {
                lemma_edge_then_reaches(g, u, w, t);
            } else {
                lemma_reaches_self(g, t);
            }
            assert(h.contains((t, q)) && reaches(g, u, t) && reaches(g, q, v));
        }
    }
}

/// Edges that start at `t` do not change what reaches `t`.
pub proof fn lemma_outbound_edges_irrelevant(
    g: Set<(usize, usize)>,
    h: Set<(usize, usize)>,
    t: usize,
    a: usize,
)
    requires
        forall|x: usize, y: usize| #[trigger] h.contains((x, y)) ==> g.contains((x, y)) || x == t,
        reaches(h, a, t),
    ensures
        reaches(g, a, t),
{
    let p = choose|p: Seq<usize>| #[trigger] is_path_between(h, p, a, t);
    lemma_path_around_outbound(g, h, t, p);
}

/// Adding edges that start at `t` to an acyclic graph, each to a node that
/// does not reach `t`, leaves the graph acyclic.
pub proof fn lemma_outbound_edges_keep_acyclic(
    g: Set<(usize, usize)>,
    h: Set<(usize, usize)>,
    t: usize,
)
    requires
        acyclic(g),
        forall|x: usize, y: usize| #[trigger] h.contains((x, y)) ==> g.contains((x, y)) || x == t,
        forall|y: usize| #[trigger] h.contains((t, y)) ==> !reaches(g, y, t),
    ensures
        acyclic(h),
{
    assert forall|a: usize, b: usize| #[trigger] h.contains((a, b)) implies !reaches(h, b, a) by {
        if reaches(h, b, a) {
            let p = choose|p: Seq<usize>| #[trigger] is_path_between(h, p, b, a);
            lemma_path_around_outbound(g, h, t, p);
            if a == t {
                lemma_outbound_edges_irrelevant(g, h, t, b);
            } else {
                assert(g.contains((a, b)));
                if !reaches(g, b, a) {
                    let q = choose|q: usize|
                        #[trigger] h.contains((t, q)) && reaches(g, b, t) && reaches(g, q, a);
                    lemma_reaches_then_edge(g, q, a, b);
                    lemma_reaches_trans(g, q, b, t);
                }
            }
        }
    }
}

} // verus!
