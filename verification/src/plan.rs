//! What a collection of tasks holds, seen as plain mathematics: the tasks by
//! handle, the time relationships as a map over ordered pairs of handles, and
//! the subtask pairs. The contracts of `Tasks` and `Project` are written over
//! this model, and so are the laws of the operations, which are proved here.

use crate::error::PlanError;
use crate::graph::{
    acyclic, lemma_acyclic_subgraph, lemma_inbound_edges_keep_acyclic, lemma_insert_keeps_acyclic,
    lemma_outbound_edges_keep_acyclic, lemma_reaches_monotone, lemma_reaches_self, reaches,
};
use crate::relationship::TimeRelationship;
use crate::task::Task;
use vstd::prelude::*;

verus! {

/// What a `Tasks` holds.
pub struct TasksView {
    /// The task of each handle issued so far; `None` for a removed task.
    pub tasks: Seq<Option<Task>>,
    /// The time relationships: the ordered pairs (predecessor, successor)
    /// that are related, each with its kind.
    pub relationships: Map<(usize, usize), TimeRelationship>,
    /// The pairs (task, subtask), in the order in which they were added.
    pub subtasks: Seq<(usize, usize)>,
}

/// Whether `handle` was issued and its task was not removed.
pub open spec fn is_live(tasks: Seq<Option<Task>>, handle: usize) -> bool {
    handle < tasks.len() && tasks[handle as int] is Some
}

/// What holds of every `Tasks`: the time relationships join tasks that
/// exist, and there is no cycle among them.
pub open spec fn sound(v: TasksView) -> bool {
    &&& acyclic(v.relationships.dom())
    &&& forall|a: usize, b: usize| #[trigger]
        v.relationships.contains_key((a, b)) ==> is_live(v.tasks, a) && is_live(v.tasks, b)
}

/// The tasks that were not removed, in the order of their handles.
pub open spec fn live_tasks(tasks: Seq<Option<Task>>) -> Seq<Task>
    decreases tasks.len(),
{
    if tasks.len() == 0 {
        Seq::empty()
    } else {
        match tasks.last() {
            Some(task) => live_tasks(tasks.drop_last()).push(task),
            None => live_tasks(tasks.drop_last()),
        }
    }
}

/// The number of tasks that exist with a handle below `handle`: the place
/// that the task of `handle` has among the tasks that exist.
pub open spec fn live_before(tasks: Seq<Option<Task>>, handle: int) -> nat
    decreases handle,
{
    if handle <= 0 {
        0
    } else if tasks[handle - 1] is Some {
        live_before(tasks, handle - 1) + 1
    } else {
        live_before(tasks, handle - 1)
    }
}

/// The subtasks of `task` among the pairs, in the order of the pairs.
pub open spec fn subtasks_of(pairs: Seq<(usize, usize)>, task: usize) -> Seq<usize>
    decreases pairs.len(),
{
    if pairs.len() == 0 {
        Seq::empty()
    } else if pairs.last().0 == task {
        subtasks_of(pairs.drop_last(), task).push(pairs.last().1)
    } else {
        subtasks_of(pairs.drop_last(), task)
    }
}

/// The relationships without those that touch `handle`.
pub open spec fn without_handle(m: Map<(usize, usize), TimeRelationship>, handle: usize) -> Map<
    (usize, usize),
    TimeRelationship,
> {
    m.remove_keys(Set::new(|p: (usize, usize)| p.0 == handle || p.1 == handle))
}

/// The relationships in which the predecessors of `t` are exactly `preds`,
/// each by `FinishToStart`, and nothing else is changed.
pub open spec fn with_predecessors(
    m: Map<(usize, usize), TimeRelationship>,
    t: usize,
    preds: Seq<usize>,
) -> Map<(usize, usize), TimeRelationship> {
    Map::new(
        |p: (usize, usize)|
            if p.1 == t {
                preds.contains(p.0)
            } else {
                m.contains_key(p)
            },
        |p: (usize, usize)|
            if p.1 == t {
                TimeRelationship::FinishToStart
            } else {
                m[p]
            },
    )
}

/// The relationships in which the successors of `t` are exactly `succs`,
/// each by `FinishToStart`, and nothing else is changed.
pub open spec fn with_successors(
    m: Map<(usize, usize), TimeRelationship>,
    t: usize,
    succs: Seq<usize>,
) -> Map<(usize, usize), TimeRelationship> {
    Map::new(
        |p: (usize, usize)|
            if p.0 == t {
                succs.contains(p.1)
            } else {
                m.contains_key(p)
            },
        |p: (usize, usize)|
            if p.0 == t {
                TimeRelationship::FinishToStart
            } else {
                m[p]
            },
    )
}

/// Whether `t` and every handle of `related` belong to tasks that exist.
pub open spec fn handles_live(tasks: Seq<Option<Task>>, t: usize, related: Seq<usize>) -> bool {
    &&& is_live(tasks, t)
    &&& forall|i: int| 0 <= i < related.len() ==> is_live(tasks, #[trigger] related[i])
}

/// Whether making some handle of `preds` a predecessor of `t` would close a
/// cycle: `t` reaches it already. `t` itself is such a handle.
pub open spec fn cycle_through_predecessors(
    g: Set<(usize, usize)>,
    t: usize,
    preds: Seq<usize>,
) -> bool {
    exists|i: int| 0 <= i < preds.len() && reaches(g, t, #[trigger] preds[i])
}

/// Whether making some handle of `succs` a successor of `t` would close a
/// cycle: it reaches `t` already. `t` itself is such a handle.
pub open spec fn cycle_through_successors(
    g: Set<(usize, usize)>,
    t: usize,
    succs: Seq<usize>,
) -> bool {
    exists|i: int| 0 <= i < succs.len() && reaches(g, #[trigger] succs[i], t)
}

/// `found` holds the tasks that `handles` name, in the same order.
pub open spec fn names_tasks(
    tasks: Seq<Option<Task>>,
    handles: Seq<usize>,
    found: Seq<&Task>,
) -> bool {
    &&& found.len() == handles.len()
    &&& forall|j: int|
        0 <= j < handles.len() ==> is_live(tasks, #[trigger] handles[j]) && tasks[handles[j] as int]
            == Some(*found[j])
}

/// `handles` names each successor of `handle` once.
pub open spec fn lists_successors(
    m: Map<(usize, usize), TimeRelationship>,
    handle: usize,
    handles: Seq<usize>,
) -> bool {
    handles.no_duplicates() && forall|c: usize| handles.contains(c) <==> m.contains_key((handle, c))
}

/// `handles` names each predecessor of `handle` once.
pub open spec fn lists_predecessors(
    m: Map<(usize, usize), TimeRelationship>,
    handle: usize,
    handles: Seq<usize>,
) -> bool {
    handles.no_duplicates() && forall|c: usize| handles.contains(c) <==> m.contains_key((c, handle))
}

/// `found` holds the successors of `handle`: each task that `handle` comes
/// before, once, in some order.
pub open spec fn are_successors(v: TasksView, handle: usize, found: Seq<&Task>) -> bool {
    exists|handles: Seq<usize>|
        lists_successors(v.relationships, handle, handles) && #[trigger] names_tasks(
            v.tasks,
            handles,
            found,
        )
}

/// `found` holds the predecessors of `handle`: each task that comes before
/// `handle`, once, in some order.
pub open spec fn are_predecessors(v: TasksView, handle: usize, found: Seq<&Task>) -> bool {
    exists|handles: Seq<usize>|
        lists_predecessors(v.relationships, handle, handles) && #[trigger] names_tasks(
            v.tasks,
            handles,
            found,
        )
}

/// What `add_relationship(predecessor, successor, kind)` does: `before` and
/// `after` are what the tasks hold before and after the call, `r` is what the
/// call returns.
pub open spec fn relationship_added(
    before: TasksView,
    after: TasksView,
    predecessor: usize,
    successor: usize,
    kind: TimeRelationship,
    r: Result<(), PlanError>,
) -> bool {
    let known = is_live(before.tasks, predecessor) && is_live(before.tasks, successor);
    let cycle = reaches(before.relationships.dom(), successor, predecessor);
    &&& r == Err::<(), PlanError>(PlanError::HandleNotFound) <==> !known
    &&& r == Err::<(), PlanError>(PlanError::CycleDetected) <==> known && cycle
    &&& r is Ok <==> known && !cycle
    &&& r is Ok ==> after == (TasksView {
        relationships: before.relationships.insert((predecessor, successor), kind),
        ..before
    })
    &&& r is Err ==> after == before
}

/// What `remove_relationship(predecessor, successor)` does.
pub open spec fn relationship_removed(
    before: TasksView,
    after: TasksView,
    predecessor: usize,
    successor: usize,
    r: Result<(), PlanError>,
) -> bool {
    let related = before.relationships.contains_key((predecessor, successor));
    &&& r == Err::<(), PlanError>(PlanError::EdgeNotFound) <==> !related
    &&& r is Ok <==> related
    &&& r is Ok ==> after == (TasksView {
        relationships: before.relationships.remove((predecessor, successor)),
        ..before
    })
    &&& r is Err ==> after == before
}

/// What `rm_task(handle)` does.
pub open spec fn task_removed(
    before: TasksView,
    after: TasksView,
    handle: usize,
    r: Result<(), PlanError>,
) -> bool {
    let known = is_live(before.tasks, handle);
    &&& r == Err::<(), PlanError>(PlanError::HandleNotFound) <==> !known
    &&& r is Ok <==> known
    &&& r is Ok ==> after == (TasksView {
        tasks: before.tasks.update(handle as int, None),
        relationships: without_handle(before.relationships, handle),
        ..before
    })
    &&& r is Err ==> after == before
}

/// What `update_predecessors(t, preds)` does.
pub open spec fn predecessors_replaced(
    before: TasksView,
    after: TasksView,
    t: usize,
    preds: Seq<usize>,
    r: Result<(), PlanError>,
) -> bool {
    let known = handles_live(before.tasks, t, preds);
    let cycle = cycle_through_predecessors(before.relationships.dom(), t, preds);
    &&& r == Err::<(), PlanError>(PlanError::HandleNotFound) <==> !known
    &&& r == Err::<(), PlanError>(PlanError::CycleDetected) <==> known && cycle
    &&& r is Ok <==> known && !cycle
    &&& r is Ok ==> after == (TasksView {
        relationships: with_predecessors(before.relationships, t, preds),
        ..before
    })
    &&& r is Err ==> after == before
}

/// What `update_successors(t, succs)` does.
pub open spec fn successors_replaced(
    before: TasksView,
    after: TasksView,
    t: usize,
    succs: Seq<usize>,
    r: Result<(), PlanError>,
) -> bool {
    let known = handles_live(before.tasks, t, succs);
    let cycle = cycle_through_successors(before.relationships.dom(), t, succs);
    &&& r == Err::<(), PlanError>(PlanError::HandleNotFound) <==> !known
    &&& r == Err::<(), PlanError>(PlanError::CycleDetected) <==> known && cycle
    &&& r is Ok <==> known && !cycle
    &&& r is Ok ==> after == (TasksView {
        relationships: with_successors(before.relationships, t, succs),
        ..before
    })
    &&& r is Err ==> after == before
}

/// Sound tasks stay sound when a relationship is added, and when it is
/// refused: no cycle arises.
pub proof fn lemma_added_relationship_keeps_sound(
    before: TasksView,
    after: TasksView,
    predecessor: usize,
    successor: usize,
    kind: TimeRelationship,
    r: Result<(), PlanError>,
)
    requires
        sound(before),
        relationship_added(before, after, predecessor, successor, kind, r),
    ensures
        sound(after),
{
    if r is Ok {
        lemma_insert_keeps_acyclic(before.relationships.dom(), predecessor, successor);
        assert(after.relationships.dom() =~= before.relationships.dom().insert(
            (predecessor, successor),
        ));
    }
}

/// Sound tasks stay sound when a relationship ends.
pub proof fn lemma_removed_relationship_keeps_sound(
    before: TasksView,
    after: TasksView,
    predecessor: usize,
    successor: usize,
    r: Result<(), PlanError>,
)
    requires
        sound(before),
        relationship_removed(before, after, predecessor, successor, r),
    ensures
        sound(after),
{
    if r is Ok {
        lemma_acyclic_subgraph(before.relationships.dom(), after.relationships.dom());
    }
}

/// Sound tasks stay sound when a task is removed: no relationship is left
/// that names the removed task.
pub proof fn lemma_removed_task_keeps_sound(
    before: TasksView,
    after: TasksView,
    handle: usize,
    r: Result<(), PlanError>,
)
    requires
        sound(before),
        task_removed(before, after, handle, r),
    ensures
        sound(after),
{
    if r is Ok {
        lemma_acyclic_subgraph(before.relationships.dom(), after.relationships.dom());
        assert forall|a: usize, b: usize| #[trigger]
            after.relationships.contains_key((a, b)) implies is_live(after.tasks, a) && is_live(
            after.tasks,
            b,
        ) by {
            assert(before.relationships.contains_key((a, b)));
        }
    }
}

/// Sound tasks stay sound when the predecessors of a task are replaced, and
/// when the replacement is refused: no cycle arises.
pub proof fn lemma_replaced_predecessors_keep_sound(
    before: TasksView,
    after: TasksView,
    t: usize,
    preds: Seq<usize>,
    r: Result<(), PlanError>,
)
    requires
        sound(before),
        predecessors_replaced(before, after, t, preds, r),
    ensures
        sound(after),
{
    if r is Ok {
        let g = before.relationships.dom();
        let h = after.relationships.dom();
        let kept = g.filter(|q: (usize, usize)| q.1 != t);
        lemma_acyclic_subgraph(g, kept);
        assert forall|x: usize| #[trigger] h.contains((x, t)) implies !reaches(kept, t, x) by {
            let i = choose|i: int| 0 <= i < preds.len() && preds[i] == x;
            if reaches(kept, t, x) {
                lemma_reaches_monotone(kept, g, t, preds[i]);
            }
        }
        assert forall|x: usize, y: usize| #[trigger] h.contains((x, y)) implies kept.contains((x, y))
            || y == t by {}
        lemma_inbound_edges_keep_acyclic(kept, h, t);
        assert forall|a: usize, b: usize| #[trigger]
            after.relationships.contains_key((a, b)) implies is_live(after.tasks, a) && is_live(
            after.tasks,
            b,
        ) by {
            if b == t {
                let i = choose|i: int| 0 <= i < preds.len() && preds[i] == a;
                assert(is_live(before.tasks, preds[i]));
            } else {
                assert(before.relationships.contains_key((a, b)));
            }
        }
    }
}

/// Sound tasks stay sound when the successors of a task are replaced, and
/// when the replacement is refused: no cycle arises.
pub proof fn lemma_replaced_successors_keep_sound(
    before: TasksView,
    after: TasksView,
    t: usize,
    succs: Seq<usize>,
    r: Result<(), PlanError>,
)
    requires
        sound(before),
        successors_replaced(before, after, t, succs, r),
    ensures
        sound(after),
{
    if r is Ok {
        let g = before.relationships.dom();
        let h = after.relationships.dom();
        let kept = g.filter(|q: (usize, usize)| q.0 != t);
        lemma_acyclic_subgraph(g, kept);
        assert forall|y: usize| #[trigger] h.contains((t, y)) implies !reaches(kept, y, t) by {
            let i = choose|i: int| 0 <= i < succs.len() && succs[i] == y;
            if reaches(kept, y, t) {
                lemma_reaches_monotone(kept, g, succs[i], t);
            }
        }
        assert forall|x: usize, y: usize| #[trigger] h.contains((x, y)) implies kept.contains((x, y))
            || x == t by {}
        lemma_outbound_edges_keep_acyclic(kept, h, t);
        assert forall|a: usize, b: usize| #[trigger]
            after.relationships.contains_key((a, b)) implies is_live(after.tasks, a) && is_live(
            after.tasks,
            b,
        ) by {
            if a == t {
                let i = choose|i: int| 0 <= i < succs.len() && succs[i] == b;
                assert(is_live(before.tasks, succs[i]));
            } else {
                assert(before.relationships.contains_key((a, b)));
            }
        }
    }
}

/// After the predecessors of `t` were replaced by `preds`, the predecessors
/// of `t` are the handles of `preds` and no others, each related by
/// `FinishToStart`, whatever they were before; and no relationship that
/// leads elsewhere has changed.
pub proof fn lemma_predecessors_are_exact(
    m: Map<(usize, usize), TimeRelationship>,
    t: usize,
    preds: Seq<usize>,
)
    ensures
        forall|x: usize| #[trigger]
            with_predecessors(m, t, preds).contains_key((x, t)) <==> preds.contains(x),
        forall|x: usize|
            preds.contains(x) ==> #[trigger] with_predecessors(m, t, preds)[(x, t)]
                == TimeRelationship::FinishToStart,
        forall|x: usize, y: usize|
            y != t ==> (#[trigger] with_predecessors(m, t, preds).contains_key((x, y))
                <==> m.contains_key((x, y))),
        forall|x: usize, y: usize|
            y != t && m.contains_key((x, y)) ==> #[trigger] with_predecessors(m, t, preds)[(x, y)]
                == m[(x, y)],
{
}

/// After the successors of `t` were replaced by `succs`, the successors of
/// `t` are the handles of `succs` and no others, each related by
/// `FinishToStart`, whatever they were before; and no relationship that
/// starts elsewhere has changed.
pub proof fn lemma_successors_are_exact(
    m: Map<(usize, usize), TimeRelationship>,
    t: usize,
    succs: Seq<usize>,
)
    ensures
        forall|y: usize| #[trigger]
            with_successors(m, t, succs).contains_key((t, y)) <==> succs.contains(y),
        forall|y: usize|
            succs.contains(y) ==> #[trigger] with_successors(m, t, succs)[(t, y)]
                == TimeRelationship::FinishToStart,
        forall|x: usize, y: usize|
            x != t ==> (#[trigger] with_successors(m, t, succs).contains_key((x, y))
                <==> m.contains_key((x, y))),
        forall|x: usize, y: usize|
            x != t && m.contains_key((x, y)) ==> #[trigger] with_successors(m, t, succs)[(x, y)]
                == m[(x, y)],
{
}

/// To replace the predecessors of `t` by `preds` a second time changes
/// nothing: the second call ends as the first did, and leaves everything as
/// the first left it.
pub proof fn lemma_replace_predecessors_twice(
    v: TasksView,
    w: TasksView,
    x: TasksView,
    t: usize,
    preds: Seq<usize>,
    first: Result<(), PlanError>,
    second: Result<(), PlanError>,
)
    requires
        sound(v),
        predecessors_replaced(v, w, t, preds, first),
        predecessors_replaced(w, x, t, preds, second),
    ensures
        first is Ok ==> second is Ok,
        first is Err ==> second == first,
        x == w,
{
    if first is Ok {
        lemma_replaced_predecessors_keep_sound(v, w, t, preds, first);
        assert forall|i: int| 0 <= i < preds.len() implies !reaches(
            w.relationships.dom(),
            t,
            #[trigger] preds[i],
        ) by {
            assert(w.relationships.dom().contains((preds[i], t)));
        }
        assert(with_predecessors(w.relationships, t, preds) =~= w.relationships);
    } else if handles_live(v.tasks, t, preds) {
        assert(first == Err::<(), PlanError>(PlanError::CycleDetected));
    } else {
        assert(first == Err::<(), PlanError>(PlanError::HandleNotFound));
    }
}

/// To replace the successors of `t` by `succs` a second time changes
/// nothing: the second call ends as the first did, and leaves everything as
/// the first left it.
pub proof fn lemma_replace_successors_twice(
    v: TasksView,
    w: TasksView,
    x: TasksView,
    t: usize,
    succs: Seq<usize>,
    first: Result<(), PlanError>,
    second: Result<(), PlanError>,
)
    requires
        sound(v),
        successors_replaced(v, w, t, succs, first),
        successors_replaced(w, x, t, succs, second),
    ensures
        first is Ok ==> second is Ok,
        first is Err ==> second == first,
        x == w,
{
    if first is Ok {
        lemma_replaced_successors_keep_sound(v, w, t, succs, first);
        assert forall|i: int| 0 <= i < succs.len() implies !reaches(
            w.relationships.dom(),
            #[trigger] succs[i],
            t,
        ) by {
            assert(w.relationships.dom().contains((t, succs[i])));
        }
        assert(with_successors(w.relationships, t, succs) =~= w.relationships);
    } else if handles_live(v.tasks, t, succs) {
        assert(first == Err::<(), PlanError>(PlanError::CycleDetected));
    } else {
        assert(first == Err::<(), PlanError>(PlanError::HandleNotFound));
    }
}

/// Once the task `handle` is removed, no task has it as a predecessor or as
/// a successor, the handle has no task, and every other relationship stands
/// as before.
pub proof fn lemma_removed_task_is_unrelated(
    before: TasksView,
    after: TasksView,
    handle: usize,
    r: Result<(), PlanError>,
)
    requires
        task_removed(before, after, handle, r),
        r is Ok,
    ensures
        !is_live(after.tasks, handle),
        forall|x: usize| !(#[trigger] after.relationships.contains_key((handle, x))),
        forall|x: usize| !(#[trigger] after.relationships.contains_key((x, handle))),
        forall|x: usize, y: usize|
            x != handle && y != handle ==> (#[trigger] after.relationships.contains_key((x, y))
                <==> before.relationships.contains_key((x, y))),
        forall|x: usize, y: usize|
            x != handle && y != handle && before.relationships.contains_key((x, y))
                ==> #[trigger] after.relationships[(x, y)] == before.relationships[(x, y)],
{
}

/// A list that names the task itself is refused as a cycle: a task cannot
/// come before itself.
pub proof fn lemma_self_reference_is_cycle(
    g: Set<(usize, usize)>,
    t: usize,
    related: Seq<usize>,
)
    requires
        related.contains(t),
    ensures
        cycle_through_predecessors(g, t, related),
        cycle_through_successors(g, t, related),
{
    lemma_reaches_self(g, t);
    let i = choose|i: int| 0 <= i < related.len() && related[i] == t;
    assert(reaches(g, t, related[i]));
    assert(reaches(g, related[i], t));
}

/// An empty list clears the predecessors: it is never refused as a cycle.
pub proof fn lemma_empty_list_is_no_cycle(g: Set<(usize, usize)>, t: usize)
    ensures
        !cycle_through_predecessors(g, t, Seq::empty()),
        !cycle_through_successors(g, t, Seq::empty()),
{
}

/// After the predecessors of `t` were replaced by `preds`, every listing of
/// the predecessors of `t`, such as `predecessors_indices` gives, names the
/// handles of `preds`, each once.
pub proof fn lemma_listed_predecessors_are_the_list(
    m: Map<(usize, usize), TimeRelationship>,
    t: usize,
    preds: Seq<usize>,
    handles: Seq<usize>,
)
    requires
        lists_predecessors(with_predecessors(m, t, preds), t, handles),
    ensures
        handles.no_duplicates(),
        handles.to_set() == preds.to_set(),
{
    assert forall|x: usize| handles.contains(x) <==> preds.contains(x) by {
        assert(with_predecessors(m, t, preds).contains_key((x, t)) <==> preds.contains(x));
    }
    assert(handles.to_set() =~= preds.to_set());
}

/// After the successors of `t` were replaced by `succs`, every listing of
/// the successors of `t`, such as `successors_indices` gives, names the
/// handles of `succs`, each once.
pub proof fn lemma_listed_successors_are_the_list(
    m: Map<(usize, usize), TimeRelationship>,
    t: usize,
    succs: Seq<usize>,
    handles: Seq<usize>,
)
    requires
        lists_successors(with_successors(m, t, succs), t, handles),
    ensures
        handles.no_duplicates(),
        handles.to_set() == succs.to_set(),
{
    assert forall|y: usize| handles.contains(y) <==> succs.contains(y) by {
        assert(with_successors(m, t, succs).contains_key((t, y)) <==> succs.contains(y));
    }
    assert(handles.to_set() =~= succs.to_set());
}

/// A list of predecessors that names a handle which was never issued, or
/// whose task was removed, is refused with `HandleNotFound`, and nothing
/// changes.
pub proof fn lemma_unknown_predecessor_is_rejected(
    before: TasksView,
    after: TasksView,
    t: usize,
    preds: Seq<usize>,
    h: usize,
    r: Result<(), PlanError>,
)
    requires
        predecessors_replaced(before, after, t, preds, r),
        preds.contains(h),
        h >= before.tasks.len() || before.tasks[h as int] is None,
    ensures
        r == Err::<(), PlanError>(PlanError::HandleNotFound),
        after == before,
{
}

/// A list of successors that names a handle which was never issued, or
/// whose task was removed, is refused with `HandleNotFound`, and nothing
/// changes.
pub proof fn lemma_unknown_successor_is_rejected(
    before: TasksView,
    after: TasksView,
    t: usize,
    succs: Seq<usize>,
    h: usize,
    r: Result<(), PlanError>,
)
    requires
        successors_replaced(before, after, t, succs, r),
        succs.contains(h),
        h >= before.tasks.len() || before.tasks[h as int] is None,
    ensures
        r == Err::<(), PlanError>(PlanError::HandleNotFound),
        after == before,
{
}

/// The place of a task among those that exist grows with its handle.
pub proof fn lemma_live_before_grows(tasks: Seq<Option<Task>>, a: int, b: int)
    requires
        0 <= a <= b,
    ensures
        live_before(tasks, a) <= live_before(tasks, b),
        a < b && tasks[a] is Some ==> live_before(tasks, a) < live_before(tasks, b),
    decreases b - a,
{
    if a < b {
        lemma_live_before_grows(tasks, a, b - 1);
    }
}

/// `live_before` counts what `live_tasks` lists: the task of a handle stands
/// in the list of the tasks that exist at the place `live_before` gives.
pub proof fn lemma_live_tasks_by_place(tasks: Seq<Option<Task>>, h: int)
    requires
        0 <= h < tasks.len(),
    ensures
        live_tasks(tasks).len() == live_before(tasks, tasks.len() as int),
        tasks[h] is Some ==> live_before(tasks, h) < live_tasks(tasks).len() && live_tasks(
            tasks,
        )[live_before(tasks, h) as int] == tasks[h]->0,
    decreases tasks.len(),
{
    let shorter = tasks.drop_last();
    let n = tasks.len() - 1;
    lemma_live_tasks_length(shorter);
    lemma_same_start_same_count(tasks, shorter, n);
    if h < n {
        lemma_live_tasks_by_place(shorter, h);
        lemma_same_start_same_count(tasks, shorter, h);
    }
}

/// The list of the tasks that exist is as long as `live_before` counts.
pub proof fn lemma_live_tasks_length(tasks: Seq<Option<Task>>)
    ensures
        live_tasks(tasks).len() == live_before(tasks, tasks.len() as int),
    decreases tasks.len(),
{
    if tasks.len() > 0 {
        let shorter = tasks.drop_last();
        lemma_live_tasks_length(shorter);
        lemma_same_start_same_count(tasks, shorter, tasks.len() - 1);
    }
}

/// `live_before` looks only at the handles below the given one.
proof fn lemma_same_start_same_count(a: Seq<Option<Task>>, b: Seq<Option<Task>>, h: int)
    requires
        0 <= h <= a.len(),
        h <= b.len(),
        forall|i: int| 0 <= i < h ==> a[i] == b[i],
    ensures
        live_before(a, h) == live_before(b, h),
    decreases h,
{
    if h > 0 {
        lemma_same_start_same_count(a, b, h - 1);
    }
}

/// A handle is issued once: the task that is added next gets a handle that
/// no task had, so a handle whose task was removed stays without one.
pub proof fn lemma_new_handle_is_fresh(tasks: Seq<Option<Task>>, task: Task, h: usize)
    requires
        h < tasks.len(),
        tasks[h as int] is None,
    ensures
        !is_live(tasks.push(Some(task)), h),
{
}

} // verus!
