//! The store of relationship edges: a `daggy::Dag` over task handles, and the
//! contracts under which the rest of the library calls it. Nothing in this
//! file is proved: each contract states what the `daggy` and `petgraph`
//! sources show of the function it names.

use crate::edge_list::{edge_between, edge_pairs, lists_neighbors, swap_removed};
use crate::graph::reaches;
use crate::relationship::TimeRelationship;
use daggy::petgraph::visit::IntoNeighborsDirected;
use daggy::petgraph::Direction;
use daggy::{Dag, EdgeIndex, WouldCycle};
use vstd::prelude::*;

verus! {

/// A `daggy::Dag` whose nodes carry no data, whose edges carry a
/// `TimeRelationship`, and whose indices are `usize`. Node `i` stands for the
/// task handle `i`. The graph is kept in a struct of its own, opaque to
/// Verus, because `Dag` is bound by `IndexType`, a trait of `petgraph`: all
/// that the proofs know of it is what `dag_node_count` and `dag_edges` name.
#[verifier::external_body]
#[derive(Debug)]
pub struct TaskDag {
    inner: Dag<(), TimeRelationship, usize>,
}

/// `petgraph::Direction`: the side from which the edges of a node are
/// looked at. `Outgoing` edges start at the node, `Incoming` edges end there.
#[verifier::external_type_specification]
pub struct ExDirection(Direction);

/// `daggy::WouldCycle`, the error of `Dag::update_edge`. It is only told
/// apart from success.
#[verifier::external_type_specification]
#[verifier::external_body]
#[verifier::reject_recursive_types(E)]
pub struct ExWouldCycle<E>(WouldCycle<E>);

/// The number of nodes of the graph: what `Dag::node_count` returns.
pub uninterp spec fn dag_node_count(dag: TaskDag) -> nat;

/// The edges of the graph in the order of their edge indices, as
/// `Dag::raw_edges` shows them: source, target and label of each.
pub uninterp spec fn dag_edges(dag: TaskDag) -> Seq<(usize, usize, TimeRelationship)>;

/// `Dag::new`: a graph without nodes or edges.
#[verifier::external_body]
pub(crate) fn dag_new() -> (dag: TaskDag)
    ensures
        dag_node_count(dag) == 0,
        dag_edges(dag) == Seq::<(usize, usize, TimeRelationship)>::empty(),
{
    TaskDag { inner: Dag::new() }
}

/// `Clone::clone` of a `Dag`: a graph with the same nodes and the same edges
/// at the same indices.
#[verifier::external_body]
pub(crate) fn dag_clone(dag: &TaskDag) -> (copy: TaskDag)
    ensures
        dag_node_count(copy) == dag_node_count(*dag),
        dag_edges(copy) == dag_edges(*dag),
{
    TaskDag { inner: dag.inner.clone() }
}

/// `Dag::add_node`: appends a node, returns its index, which is the number
/// of nodes before the call, and touches no edge.
#[verifier::external_body]
pub(crate) fn dag_add_node(dag: &mut TaskDag) -> (index: usize)
    ensures
        index == dag_node_count(*old(dag)),
        dag_node_count(*final(dag)) == dag_node_count(*old(dag)) + 1,
        dag_edges(*final(dag)) == dag_edges(*old(dag)),
{
    dag.inner.add_node(()).index()
}

/// `Dag::update_edge`. Where an edge from `a` to `b` exists, the label of
/// one such edge is overwritten and its index returned. Where none exists,
/// the call is `Dag::add_edge`: it fails, changing nothing, when `b` reaches
/// `a` (`petgraph::algo::has_path_connecting`, which holds of a node and
/// itself); else the edge is appended and its index returned. Both nodes
/// must exist: `add_edge` panics otherwise.
#[verifier::external_body]
pub(crate) fn dag_update_edge(dag: &mut TaskDag, a: usize, b: usize, kind: TimeRelationship) -> (r:
    Result<usize, WouldCycle<TimeRelationship>>)
    requires
        a < dag_node_count(*old(dag)),
        b < dag_node_count(*old(dag)),
    ensures
        dag_node_count(*final(dag)) == dag_node_count(*old(dag)),
        r is Err <==> !edge_between(dag_edges(*old(dag)), a, b) && reaches(
            edge_pairs(dag_edges(*old(dag))),
            b,
            a,
        ),
        match r {
            Ok(e) => if edge_between(dag_edges(*old(dag)), a, b) {
                &&& e < dag_edges(*old(dag)).len()
                &&& dag_edges(*old(dag))[e as int].0 == a
                &&& dag_edges(*old(dag))[e as int].1 == b
                &&& dag_edges(*final(dag)) == dag_edges(*old(dag)).update(e as int, (a, b, kind))
            } else {
                &&& e == dag_edges(*old(dag)).len()
                &&& dag_edges(*final(dag)) == dag_edges(*old(dag)).push((a, b, kind))
            },
            Err(_) => dag_edges(*final(dag)) == dag_edges(*old(dag)),
        },
{
    match dag.inner.update_edge(a.into(), b.into(), kind) {
        Ok(e) => Ok(e.index()),
        Err(w) => Err(w),
    }
}

/// `Dag::find_edge`: the index of an edge from `a` to `b`, or `None` where
/// there is none.
#[verifier::external_body]
pub(crate) fn dag_find_edge(dag: &TaskDag, a: usize, b: usize) -> (r: Option<usize>)
    ensures
        match r {
            Some(e) => e < dag_edges(*dag).len() && dag_edges(*dag)[e as int].0 == a && dag_edges(
                *dag,
            )[e as int].1 == b,
            None => !edge_between(dag_edges(*dag), a, b),
        },
{
    dag.inner.find_edge(a.into(), b.into()).map(|e| e.index())
}

/// `Dag::remove_edge`: takes the edge with index `e` out and returns its
/// label. The last edge adopts the index `e`; every other edge keeps its
/// index. Where no edge has that index, nothing changes.
#[verifier::external_body]
pub(crate) fn dag_remove_edge(dag: &mut TaskDag, e: usize) -> (r: Option<TimeRelationship>)
    ensures
        dag_node_count(*final(dag)) == dag_node_count(*old(dag)),
        e < dag_edges(*old(dag)).len() ==> r == Some(dag_edges(*old(dag))[e as int].2) && dag_edges(
            *final(dag),
        ) == swap_removed(dag_edges(*old(dag)), e as int),
        e >= dag_edges(*old(dag)).len() ==> r is None && dag_edges(*final(dag)) == dag_edges(*old(dag)),
{
    dag.inner.remove_edge(EdgeIndex::new(e))
}

/// `neighbors_directed` of a `Dag`: for each edge that ends at `a`
/// (`Incoming`) or starts at `a` (`Outgoing`), its other end, once per edge.
/// The order is that of the graph's internal lists. A node that does not
/// exist has no neighbours.
#[verifier::external_body]
pub(crate) fn dag_neighbors(dag: &TaskDag, a: usize, direction: Direction) -> (r: Vec<usize>)
    ensures
        lists_neighbors(dag_edges(*dag), a, direction is Incoming, r@),
{
    dag.inner.neighbors_directed(a.into(), direction).map(|n| n.index()).collect()
}

} // verus!
