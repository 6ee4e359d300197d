//! The tasks of a project and the relationships between them: which task
//! comes before which, and which task is made of which.
//!
//! Tasks are addressed by handles. A handle is issued when a task is added
//! and is never issued again, also not after the task was removed. The time
//! relationships form a directed graph over the handles that never holds a
//! cycle.

use crate::dag::{
    dag_add_node, dag_clone, dag_edges, dag_find_edge, dag_neighbors, dag_new, dag_node_count,
    dag_remove_edge, dag_update_edge, TaskDag,
};
use crate::edge_list::{
    distinct_pairs, edge_between, edge_labels, edge_pairs, joins, lemma_label_at,
    lemma_neighbors_are_set, lemma_pairs_are_domain, lemma_push_inserts, lemma_swap_remove_removes,
    lemma_update_relabels, position_of,
};
use crate::error::PlanError;
use crate::graph::{
    acyclic, lemma_acyclic_subgraph, lemma_inbound_edges_irrelevant, lemma_insert_keeps_acyclic,
    lemma_outbound_edges_irrelevant, lemma_reaches_monotone, reaches,
};
use crate::plan::{
    are_predecessors, are_successors, handles_live, is_live, lemma_live_before_grows,
    lists_predecessors, lists_successors, live_before, live_tasks, names_tasks,
    predecessors_replaced, relationship_added, relationship_removed, sound, subtasks_of,
    successors_replaced, task_removed, with_predecessors, with_successors, without_handle,
    TasksView,
};
pub use crate::relationship::TimeRelationship;
use crate::task::Task;
use daggy::petgraph::Direction;
use vstd::prelude::*;

verus! {

/// A task together with one of the tasks that it is made of.
#[derive(Debug, Default, Clone, Copy)]
pub struct SubtaskRelationship {
    task: usize,
    subtask: usize,
}

impl View for SubtaskRelationship {
    type V = (usize, usize);

    /// The handle of the task and the handle of its subtask.
    closed spec fn view(&self) -> (usize, usize) {
        (self.task, self.subtask)
    }
}

/// All the tasks of a project, with their time relationships and their
/// subtask relationships.
#[derive(Debug)]
pub struct Tasks {
    /// The task of each handle that was issued; `None` once it was removed.
    slots: Vec<Option<Task>>,
    /// The time relationships, over the handles as nodes.
    dag: TaskDag,
    /// The subtask relationships, in the order in which they were added.
    subtask_relationships: Vec<SubtaskRelationship>,
}

impl View for Tasks {
    type V = TasksView;

    closed spec fn view(&self) -> TasksView {
        TasksView {
            tasks: self.slots@,
            relationships: edge_labels(dag_edges(self.dag)),
            subtasks: self.subtask_relationships@.map_values(|r: SubtaskRelationship| r@),
        }
    }
}

impl Default for Tasks {
    /// An empty `Tasks`.
    fn default() -> (r: Self)
        ensures
            r.wf(),
            r@ == (TasksView {
                tasks: Seq::empty(),
                relationships: Map::empty(),
                subtasks: Seq::empty(),
            }),
    {
        Tasks::new()
    }
}

impl Tasks {
    /// The internal rules: the graph has one node for each handle, no pair
    /// of tasks is joined twice, only tasks that exist are joined, and the
    /// joins form no cycle.
    pub closed spec fn wf(&self) -> bool {
        &&& dag_node_count(self.dag) == self.slots@.len()
        &&& distinct_pairs(dag_edges(self.dag))
        &&& forall|i: int|
            0 <= i < dag_edges(self.dag).len() ==> is_live(
                self.slots@,
                (#[trigger] dag_edges(self.dag)[i]).0,
            ) && is_live(self.slots@, dag_edges(self.dag)[i].1)
        &&& acyclic(edge_pairs(dag_edges(self.dag)))
    }

    /// A well-formed `Tasks` is sound: its relationships join tasks that
    /// exist and hold no cycle.
    pub proof fn lemma_sound(&self)
        requires
            self.wf(),
        ensures
            sound(self@),
    {
        let edges = dag_edges(self.dag);
        lemma_pairs_are_domain(edges);
        assert forall|a: usize, b: usize| #[trigger]
            self@.relationships.contains_key((a, b)) implies is_live(self@.tasks, a) && is_live(
            self@.tasks,
            b,
        ) by {
            let i = position_of(edges, a, b);
            assert(joins(edges[i], a, b));
        }
    }

    /// Constructs an empty `Tasks`.
    pub fn new() -> (r: Self)
        ensures
            r.wf(),
            r@ == (TasksView {
                tasks: Seq::empty(),
                relationships: Map::empty(),
                subtasks: Seq::empty(),
            }),
    {
        let r = Tasks { slots: Vec::new(), dag: dag_new(), subtask_relationships: Vec::new() };
        proof {
            assert(r@.relationships =~= Map::empty());
            assert(r@.subtasks =~= Seq::empty());
            assert(r@.tasks =~= Seq::empty());
        }
        r
    }

    /// Adds a task and returns its handle: the number of handles issued
    /// before.
    pub fn add_task(&mut self, task: Task) -> (handle: usize)
        requires
            old(self).wf(),
        ensures
            final(self).wf(),
            handle == old(self)@.tasks.len(),
            final(self)@ == (TasksView { tasks: old(self)@.tasks.push(Some(task)), ..old(self)@ }),
    {
        self.slots.push(Some(task));
        let handle = dag_add_node(&mut self.dag);
        handle
    }

    /// The same tasks with `task` added.
    pub fn with_task(self, task: Task) -> (r: Self)
        requires
            self.wf(),
        ensures
            r.wf(),
            r@ == (TasksView { tasks: self@.tasks.push(Some(task)), ..self@ }),
    {
        let mut tasks = self;
        tasks.add_task(task);
        tasks
    }

    /// Gets the task with the given handle, or `None` where the handle was
    /// never issued or its task was removed.
    pub fn task(&self, index: usize) -> (r: Option<&Task>)
        ensures
            match r {
                Some(task) => is_live(self@.tasks, index) && self@.tasks[index as int] == Some(*task),
                None => !is_live(self@.tasks, index),
            },
    {
        if index < self.slots.len() {
            match &self.slots[index] {
                Some(task) => Some(task),
                None => None,
            }
        } else {
            None
        }
    }

    /// Gets the task with the given handle for changing it, or `None` where
    /// the handle was never issued or its task was removed.
    pub fn task_mut(&mut self, index: usize) -> (r: Option<&mut Task>)
        requires
            old(self).wf(),
        ensures
            final(self).wf(),
            match r {
                Some(task) => is_live(old(self)@.tasks, index) && old(self)@.tasks[index as int]
                    == Some(*task) && final(self)@ == (TasksView {
                    tasks: old(self)@.tasks.update(index as int, Some(*final(task))),
                    ..old(self)@
                }),
                None => !is_live(old(self)@.tasks, index) && final(self)@ == old(self)@,
            },
    {
        if index < self.slots.len() && self.slots[index].is_some() {
            match &mut self.slots[index] {
                Some(task) => Some(task),
                None => None,
            }
        } else {
            None
        }
    }

    /// The same tasks with each task of `tasks` added, in order.
    pub fn with_tasks(self, tasks: Vec<Task>) -> (r: Self)
        requires
            self.wf(),
        ensures
            r.wf(),
            r@ == (TasksView {
                tasks: self@.tasks + tasks@.map_values(|task: Task| Some(task)),
                ..self@
            }),
    {
        let mut all = self;
        let ghost added = tasks@;
        for task in iter: tasks
            invariant
                all.wf(),
                iter.seq() == added,
                all@ == (TasksView {
                    tasks: self@.tasks + added.subrange(0, iter.index() as int).map_values(
                        |task: Task| Some(task),
                    ),
                    ..self@
                }),
        {
            let ghost before = all@.tasks;
            all.add_task(task);
            proof {
                let k = iter.index() as int;
                assert(before.push(Some(task)) =~= self@.tasks + added.subrange(0, k + 1).map_values(
                    |task: Task| Some(task),
                ));
            }
        }
        proof {
            assert(added.subrange(0, added.len() as int) =~= added);
        }
        all
    }

    /// Removes the task with the given handle and every time relationship
    /// that it takes part in. The handle is not issued again. Fails with
    /// `HandleNotFound` where no such task exists.
    pub fn rm_task(&mut self, i: usize) -> (r: Result<(), PlanError>)
        requires
            old(self).wf(),
        ensures
            final(self).wf(),
            task_removed(old(self)@, final(self)@, i, r),
            r is Err ==> *final(self) == *old(self),
    {
        if i >= self.slots.len() || self.slots[i].is_none() {
            return Err(PlanError::HandleNotFound);
        }
        let ghost before = self@.relationships;
        self.clear_predecessors(i);
        self.clear_successors(i);
        proof {
            assert(self@.relationships =~= without_handle(before, i));
            let edges = dag_edges(self.dag);
            assert forall|k: int| 0 <= k < edges.len() implies (#[trigger] edges[k]).0 != i && edges[k].1
                != i by {
                lemma_label_at(edges, k);
            }
        }
        self.slots[i] = None;
        Ok(())
    }

    /// The tasks that exist, in the order of their handles.
    pub fn tasks(&self) -> (r: Vec<&Task>)
        ensures
            r@.map_values(|task: &Task| *task) == live_tasks(self@.tasks),
    {
        let mut found: Vec<&Task> = Vec::new();
        let mut i: usize = 0;
        while i < self.slots.len()
            invariant
                0 <= i <= self.slots@.len(),
                found@.map_values(|task: &Task| *task) == live_tasks(self.slots@.subrange(0, i as int)),
            decreases self.slots@.len() - i,
        {
            let ghost before = found@;
            proof {
                assert(self.slots@.subrange(0, i + 1).drop_last() == self.slots@.subrange(0, i as int));
            }
            match &self.slots[i] {
                Some(task) => {
                    found.push(task);
                    proof {
                        assert(found@.map_values(|task: &Task| *task) =~= before.map_values(
                            |task: &Task| *task,
                        ).push(*task));
                    }
                },
                None => {},
            }
            i += 1;
        }
        proof {
            assert(self.slots@.subrange(0, i as int) == self.slots@);
        }
        found
    }

    /// The tasks that exist, in the order of their handles, each open to
    /// change: the task of a handle stands at the place `live_before` gives,
    /// and is kept as the caller leaves it.
    pub fn tasks_mut(&mut self) -> (r: Vec<&mut Task>)
        requires
            old(self).wf(),
        ensures
            final(self).wf(),
            final(self)@.tasks.len() == old(self)@.tasks.len(),
            r@.len() == live_before(old(self)@.tasks, old(self)@.tasks.len() as int),
            forall|h: int|
                0 <= h < old(self)@.tasks.len() && (#[trigger] old(self)@.tasks[h]) is Some
                    ==> *r@[live_before(old(self)@.tasks, h) as int] == old(self)@.tasks[h]->0
                    && final(self)@.tasks[h] == Some(
                    *final(r@[live_before(old(self)@.tasks, h) as int]),
                ),
            forall|h: int|
                0 <= h < old(self)@.tasks.len() && (#[trigger] old(self)@.tasks[h]) is None
                    ==> final(self)@.tasks[h] is None,
            final(self)@ == (TasksView { tasks: final(self)@.tasks, ..old(self)@ }),
    {
        lend_all(&mut self.slots)
    }

    /// The number of tasks that exist.
    pub fn count(&self) -> (r: usize)
        ensures
            r == live_tasks(self@.tasks).len(),
    {
        let mut n: usize = 0;
        let mut i: usize = 0;
        while i < self.slots.len()
            invariant
                0 <= i <= self.slots@.len(),
                n == live_tasks(self.slots@.subrange(0, i as int)).len(),
                n <= i,
            decreases self.slots@.len() - i,
        {
            proof {
                assert(self.slots@.subrange(0, i + 1).drop_last() == self.slots@.subrange(0, i as int));
            }
            if self.slots[i].is_some() {
                n += 1;
            }
            i += 1;
        }
        proof {
            assert(self.slots@.subrange(0, i as int) == self.slots@);
        }
        n
    }

    /// Relates two tasks in time: `predecessor_index` comes before
    /// `successor_index`, in the way `kind` says. Where the two are related
    /// in that direction already, the kind is replaced. Fails with
    /// `HandleNotFound` where one of the tasks does not exist, and with
    /// `CycleDetected` where the successor reaches the predecessor already.
    pub fn add_relationship(
        &mut self,
        predecessor_index: usize,
        successor_index: usize,
        kind: TimeRelationship,
    ) -> (r: Result<(), PlanError>)
        requires
            old(self).wf(),
        ensures
            final(self).wf(),
            sound(final(self)@),
            relationship_added(old(self)@, final(self)@, predecessor_index, successor_index, kind, r),
    {
        if !self.is_task(predecessor_index) || !self.is_task(successor_index) {
            return Err(PlanError::HandleNotFound);
        }
        let ghost edges = dag_edges(self.dag);
        proof {
            lemma_pairs_are_domain(edges);
        }
        match dag_update_edge(&mut self.dag, predecessor_index, successor_index, kind) {
            Ok(e) => {
                proof {
                    if edge_between(edges, predecessor_index, successor_index) {
                        lemma_update_relabels(edges, e as int, kind);
                    } else {
                        lemma_push_inserts(edges, predecessor_index, successor_index, kind);
                        lemma_insert_keeps_acyclic(
                            edge_pairs(edges),
                            predecessor_index,
                            successor_index,
                        );
                    }
                    if reaches(edge_pairs(edges), successor_index, predecessor_index) {
                        assert(edge_pairs(edges).contains((predecessor_index, successor_index)));
                    }
                }
                Ok(())
            },
            Err(_) => Err(PlanError::CycleDetected),
        }
    }

    /// Ends the time relationship from `predecessor_index` to
    /// `successor_index`. Fails with `EdgeNotFound` where the two are not
    /// related in that direction.
    pub fn remove_relationship(&mut self, predecessor_index: usize, successor_index: usize) -> (r:
        Result<(), PlanError>)
        requires
            old(self).wf(),
        ensures
            final(self).wf(),
            relationship_removed(old(self)@, final(self)@, predecessor_index, successor_index, r),
            r is Err ==> *final(self) == *old(self),
    {
        let ghost edges = dag_edges(self.dag);
        match dag_find_edge(&self.dag, predecessor_index, successor_index) {
            Some(e) => {
                proof {
                    assert(joins(edges[e as int], predecessor_index, successor_index));
                    lemma_swap_remove_removes(edges, e as int);
                    lemma_acyclic_subgraph(
                        edge_pairs(edges),
                        edge_pairs(edges).remove((predecessor_index, successor_index)),
                    );
                }
                dag_remove_edge(&mut self.dag, e);
                Ok(())
            },
            None => Err(PlanError::EdgeNotFound),
        }
    }

    /// The handles of the successors of a task: each task that the given
    /// one comes before, once, in no particular order. A handle that no
    /// task has gives an empty list.
    pub fn successors_indices(&self, node_index: usize) -> (r: Vec<usize>)
        requires
            self.wf(),
        ensures
            lists_successors(self@.relationships, node_index, r@),
    {
        let r = dag_neighbors(&self.dag, node_index, Direction::Outgoing);
        proof {
            lemma_neighbors_are_set(dag_edges(self.dag), node_index, false, r@);
        }
        r
    }

    /// The handles of the predecessors of a task: each task that comes
    /// before the given one, once, in no particular order. A handle that no
    /// task has gives an empty list.
    pub fn predecessors_indices(&self, node_index: usize) -> (r: Vec<usize>)
        requires
            self.wf(),
        ensures
            lists_predecessors(self@.relationships, node_index, r@),
    {
        let r = dag_neighbors(&self.dag, node_index, Direction::Incoming);
        proof {
            lemma_neighbors_are_set(dag_edges(self.dag), node_index, true, r@);
        }
        r
    }

    /// The successors of a task: each task that the given one comes before,
    /// once, in no particular order.
    pub fn successors(&self, node_index: usize) -> (r: Vec<&Task>)
        requires
            self.wf(),
        ensures
            are_successors(self@, node_index, r@),
    {
        let handles = self.successors_indices(node_index);
        proof {
            self.lemma_sound();
            assert forall|j: int| 0 <= j < handles@.len() implies is_live(
                self@.tasks,
                #[trigger] handles@[j],
            ) by {
                assert(handles@.contains(handles@[j]));
                assert(self@.relationships.contains_key((node_index, handles@[j])));
            }
        }
        self.tasks_at(&handles)
    }

    /// The predecessors of a task: each task that comes before the given
    /// one, once, in no particular order.
    pub fn predecessors(&self, node_index: usize) -> (r: Vec<&Task>)
        requires
            self.wf(),
        ensures
            are_predecessors(self@, node_index, r@),
    {
        let handles = self.predecessors_indices(node_index);
        proof {
            self.lemma_sound();
            assert forall|j: int| 0 <= j < handles@.len() implies is_live(
                self@.tasks,
                #[trigger] handles@[j],
            ) by {
                assert(handles@.contains(handles@[j]));
                assert(self@.relationships.contains_key((handles@[j], node_index)));
            }
        }
        self.tasks_at(&handles)
    }

    /// Makes the predecessors of the task `task_index` exactly the tasks of
    /// `predecessors_indices`, each related by `FinishToStart`, in one step:
    /// either all of it happens or nothing changes. A handle that is listed
    /// twice counts once. Fails with `HandleNotFound` where `task_index` or
    /// a listed handle has no task, and with `CycleDetected` where the task
    /// reaches a listed handle already, as it does itself.
    pub fn update_predecessors(&mut self, task_index: usize, predecessors_indices: &[usize]) -> (r:
        Result<(), PlanError>)
        requires
            old(self).wf(),
        ensures
            final(self).wf(),
            sound(final(self)@),
            predecessors_replaced(old(self)@, final(self)@, task_index, predecessors_indices@, r),
    {
        match self.validate_indices(task_index, predecessors_indices) {
            Ok(()) => {},
            Err(e) => {
                return Err(e);
            },
        }
        let ghost before = self@;
        let ghost g = before.relationships.dom();
        proof {
            lemma_pairs_are_domain(dag_edges(self.dag));
        }
        // Try the new relationships on a copy of the graph: a cycle shows
        // there, and the graph itself is not touched.
        let mut trial = dag_clone(&self.dag);
        let mut i: usize = 0;
        while i < predecessors_indices.len()
            invariant
                0 <= i <= predecessors_indices@.len(),
                self.wf(),
                self@ == before,
                g == before.relationships.dom(),
                handles_live(before.tasks, task_index, predecessors_indices@),
                dag_node_count(trial) == before.tasks.len(),
                distinct_pairs(dag_edges(trial)),
                acyclic(edge_pairs(dag_edges(trial))),
                g.subset_of(edge_pairs(dag_edges(trial))),
                forall|x: usize, y: usize| #[trigger]
                    edge_pairs(dag_edges(trial)).contains((x, y)) ==> g.contains((x, y)) || y
                        == task_index,
                forall|j: int|
                    0 <= j < i ==> !reaches(g, task_index, #[trigger] predecessors_indices@[j]),
            decreases predecessors_indices@.len() - i,
        {
            let p = predecessors_indices[i];
            let ghost edges = dag_edges(trial);
            match dag_update_edge(&mut trial, p, task_index, TimeRelationship::FinishToStart) {
                Ok(e) => {
                    proof {
                        if edge_between(edges, p, task_index) {
                            lemma_update_relabels(edges, e as int, TimeRelationship::FinishToStart);
                            assert(edge_pairs(edges).contains((p, task_index)));
                        } else {
                            lemma_push_inserts(edges, p, task_index, TimeRelationship::FinishToStart);
                            lemma_insert_keeps_acyclic(edge_pairs(edges), p, task_index);
                        }
                        if reaches(g, task_index, p) {
                            lemma_reaches_monotone(g, edge_pairs(edges), task_index, p);
                        }
                    }
                },
                Err(_) => {
                    proof {
                        lemma_inbound_edges_irrelevant(g, edge_pairs(edges), task_index, p);
                    }
                    return Err(PlanError::CycleDetected);
                },
            }
            i += 1;
        }
        // Nothing can fail from here on.
        self.clear_predecessors(task_index);
        let ghost cleared = self@.relationships;
        proof {
            lemma_pairs_are_domain(dag_edges(self.dag));
            assert(cleared =~= with_predecessors(
                before.relationships,
                task_index,
                predecessors_indices@.subrange(0, 0),
            ));
        }
        let mut k: usize = 0;
        while k < predecessors_indices.len()
            invariant
                0 <= k <= predecessors_indices@.len(),
                self.wf(),
                g == before.relationships.dom(),
                handles_live(before.tasks, task_index, predecessors_indices@),
                forall|j: int|
                    0 <= j < predecessors_indices@.len() ==> !reaches(
                        g,
                        task_index,
                        #[trigger] predecessors_indices@[j],
                    ),
                self@ == (TasksView {
                    relationships: with_predecessors(
                        before.relationships,
                        task_index,
                        predecessors_indices@.subrange(0, k as int),
                    ),
                    ..before
                }),
            decreases predecessors_indices@.len() - k,
        {
            let p = predecessors_indices[k];
            let ghost current = self@.relationships;
            proof {
                if reaches(current.dom(), task_index, p) {
                    let kept = g.filter(|q: (usize, usize)| q.1 != task_index);
                    assert forall|x: usize, y: usize| #[trigger]
                        current.dom().contains((x, y)) implies kept.contains((x, y)) || y
                        == task_index by {}
                    lemma_inbound_edges_irrelevant(kept, current.dom(), task_index, p);
                    lemma_reaches_monotone(kept, g, task_index, p);
                }
            }
            match self.add_relationship(p, task_index, TimeRelationship::FinishToStart) {
                Ok(()) => {},
                Err(_) => {
                    // Not reached: the trial has shown that no cycle is closed.
                    return Err(PlanError::InvariantViolation);
                },
            }
            proof {
                let longer = predecessors_indices@.subrange(0, k + 1);
                lemma_prefix_grows(predecessors_indices@, k as int);
                assert(self@.relationships =~= with_predecessors(
                    before.relationships,
                    task_index,
                    longer,
                ));
            }
            k += 1;
        }
        proof {
            assert(predecessors_indices@.subrange(0, k as int) == predecessors_indices@);
        }
        Ok(())
    }

    /// Checks that `task_index` and every handle of `related_indices` have
    /// tasks.
    fn validate_indices(&self, task_index: usize, related_indices: &[usize]) -> (r: Result<
        (),
        PlanError,
    >)
        ensures
            match r {
                Ok(()) => handles_live(self@.tasks, task_index, related_indices@),
                Err(e) => e == PlanError::HandleNotFound && !handles_live(
                    self@.tasks,
                    task_index,
                    related_indices@,
                ),
            },
    {
        let mut i: usize = 0;
        while i < related_indices.len()
            invariant
                0 <= i <= related_indices@.len(),
                forall|j: int| 0 <= j < i ==> is_live(self@.tasks, #[trigger] related_indices@[j]),
            decreases related_indices@.len() - i,
        {
            if !self.is_task(related_indices[i]) {
                return Err(PlanError::HandleNotFound);
            }
            i += 1;
        }
        if !self.is_task(task_index) {
            return Err(PlanError::HandleNotFound);
        }
        Ok(())
    }

    /// Makes the successors of the task `task_index` exactly the tasks of
    /// `successors_indices`, each related by `FinishToStart`, in one step:
    /// either all of it happens or nothing changes. A handle that is listed
    /// twice counts once. Fails with `HandleNotFound` where `task_index` or
    /// a listed handle has no task, and with `CycleDetected` where a listed
    /// handle reaches the task already, as the task does itself.
    pub fn update_successors(&mut self, task_index: usize, successors_indices: &[usize]) -> (r: Result<
        (),
        PlanError,
    >)
        requires
            old(self).wf(),
        ensures
            final(self).wf(),
            sound(final(self)@),
            successors_replaced(old(self)@, final(self)@, task_index, successors_indices@, r),
    {
        match self.validate_indices(task_index, successors_indices) {
            Ok(()) => {},
            Err(e) => {
                return Err(e);
            },
        }
        let ghost before = self@;
        let ghost g = before.relationships.dom();
        proof {
            lemma_pairs_are_domain(dag_edges(self.dag));
        }
        // Try the new relationships on a copy of the graph: a cycle shows
        // there, and the graph itself is not touched.
        let mut trial = dag_clone(&self.dag);
        let mut i: usize = 0;
        while i < successors_indices.len()
            invariant
                0 <= i <= successors_indices@.len(),
                self.wf(),
                self@ == before,
                g == before.relationships.dom(),
                handles_live(before.tasks, task_index, successors_indices@),
                dag_node_count(trial) == before.tasks.len(),
                distinct_pairs(dag_edges(trial)),
                acyclic(edge_pairs(dag_edges(trial))),
                g.subset_of(edge_pairs(dag_edges(trial))),
                forall|x: usize, y: usize| #[trigger]
                    edge_pairs(dag_edges(trial)).contains((x, y)) ==> g.contains((x, y)) || x
                        == task_index,
                forall|j: int|
                    0 <= j < i ==> !reaches(g, #[trigger] successors_indices@[j], task_index),
            decreases successors_indices@.len() - i,
        {
            let s = successors_indices[i];
            let ghost edges = dag_edges(trial);
            match dag_update_edge(&mut trial, task_index, s, TimeRelationship::FinishToStart) {
                Ok(e) => {
                    proof {
                        if edge_between(edges, task_index, s) {
                            lemma_update_relabels(edges, e as int, TimeRelationship::FinishToStart);
                            assert(edge_pairs(edges).contains((task_index, s)));
                        } else {
                            lemma_push_inserts(edges, task_index, s, TimeRelationship::FinishToStart);
                            lemma_insert_keeps_acyclic(edge_pairs(edges), task_index, s);
                        }
                        if reaches(g, s, task_index) {
                            lemma_reaches_monotone(g, edge_pairs(edges), s, task_index);
                        }
                    }
                },
                Err(_) => {
                    proof {
                        lemma_outbound_edges_irrelevant(g, edge_pairs(edges), task_index, s);
                    }
                    return Err(PlanError::CycleDetected);
                },
            }
            i += 1;
        }
        // Nothing can fail from here on.
        self.clear_successors(task_index);
        let ghost cleared = self@.relationships;
        proof {
            lemma_pairs_are_domain(dag_edges(self.dag));
            assert(cleared =~= with_successors(
                before.relationships,
                task_index,
                successors_indices@.subrange(0, 0),
            ));
        }
        let mut k: usize = 0;
        while k < successors_indices.len()
            invariant
                0 <= k <= successors_indices@.len(),
                self.wf(),
                g == before.relationships.dom(),
                handles_live(before.tasks, task_index, successors_indices@),
                forall|j: int|
                    0 <= j < successors_indices@.len() ==> !reaches(
                        g,
                        #[trigger] successors_indices@[j],
                        task_index,
                    ),
                self@ == (TasksView {
                    relationships: with_successors(
                        before.relationships,
                        task_index,
                        successors_indices@.subrange(0, k as int),
                    ),
                    ..before
                }),
            decreases successors_indices@.len() - k,
        {
            let s = successors_indices[k];
            let ghost current = self@.relationships;
            proof {
                if reaches(current.dom(), s, task_index) {
                    let kept = g.filter(|q: (usize, usize)| q.0 != task_index);
                    assert forall|x: usize, y: usize| #[trigger]
                        current.dom().contains((x, y)) implies kept.contains((x, y)) || x
                        == task_index by {}
                    lemma_outbound_edges_irrelevant(kept, current.dom(), task_index, s);
                    lemma_reaches_monotone(kept, g, s, task_index);
                }
            }
            match self.add_relationship(task_index, s, TimeRelationship::FinishToStart) {
                Ok(()) => {},
                Err(_) => {
                    // Not reached: the trial has shown that no cycle is closed.
                    return Err(PlanError::InvariantViolation);
                },
            }
            proof {
                let longer = successors_indices@.subrange(0, k + 1);
                lemma_prefix_grows(successors_indices@, k as int);
                assert(self@.relationships =~= with_successors(
                    before.relationships,
                    task_index,
                    longer,
                ));
            }
            k += 1;
        }
        proof {
            assert(successors_indices@.subrange(0, k as int) == successors_indices@);
        }
        Ok(())
    }

    /// Makes `child_index` a subtask of `parent_index`. Neither handle is
    /// checked, and a pair may be added more than once.
    pub fn add_subtask(&mut self, parent_index: usize, child_index: usize)
        ensures
            final(self).wf() == old(self).wf(),
            final(self)@ == (TasksView {
                subtasks: old(self)@.subtasks.push((parent_index, child_index)),
                ..old(self)@
            }),
    {
        self.subtask_relationships.push(
            SubtaskRelationship { task: parent_index, subtask: child_index },
        );
        proof {
            assert(final(self)@.subtasks =~= old(self)@.subtasks.push((parent_index, child_index)));
        }
    }

    /// The handles of the subtasks of the given task, in the order in which
    /// they were added.
    pub fn subtasks(&self, task_index: usize) -> (r: Vec<usize>)
        ensures
            r@ == subtasks_of(self@.subtasks, task_index),
    {
        let mut found: Vec<usize> = Vec::new();
        let ghost pairs = self@.subtasks;
        let mut i: usize = 0;
        while i < self.subtask_relationships.len()
            invariant
                0 <= i <= self.subtask_relationships@.len(),
                pairs == self@.subtasks,
                pairs.len() == self.subtask_relationships@.len(),
                found@ == subtasks_of(pairs.subrange(0, i as int), task_index),
            decreases self.subtask_relationships@.len() - i,
        {
            proof {
                assert(pairs.subrange(0, i + 1).drop_last() == pairs.subrange(0, i as int));
                assert(pairs[i as int] == self.subtask_relationships@[i as int]@);
            }
            let relationship = self.subtask_relationships[i];
            if relationship.task == task_index {
                found.push(relationship.subtask);
            }
            i += 1;
        }
        proof {
            assert(pairs.subrange(0, i as int) == pairs);
        }
        found
    }

    /// Whether a task with the given handle exists.
    fn is_task(&self, index: usize) -> (r: bool)
        ensures
            r == is_live(self@.tasks, index),
    {
        index < self.slots.len() && self.slots[index].is_some()
    }

    /// The tasks with the given handles, in the same order.
    fn tasks_at(&self, handles: &Vec<usize>) -> (r: Vec<&Task>)
        requires
            forall|j: int| 0 <= j < handles@.len() ==> is_live(self@.tasks, #[trigger] handles@[j]),
        ensures
            names_tasks(self@.tasks, handles@, r@),
    {
        let mut found: Vec<&Task> = Vec::new();
        let mut j: usize = 0;
        while j < handles.len()
            invariant
                0 <= j <= handles@.len(),
                forall|k: int| 0 <= k < handles@.len() ==> is_live(self.slots@, #[trigger] handles@[k]),
                found@.len() == j,
                forall|k: int|
                    0 <= k < j ==> self.slots@[(#[trigger] handles@[k]) as int] == Some(*found@[k]),
            decreases handles@.len() - j,
        {
            match &self.slots[handles[j]] {
                Some(task) => {
                    found.push(task);
                },
                None => {},
            }
            j += 1;
        }
        found
    }

    /// Ends every time relationship that leads to `t`.
    fn clear_predecessors(&mut self, t: usize)
        requires
            old(self).wf(),
        ensures
            final(self).wf(),
            final(self)@ == (TasksView {
                relationships: old(self)@.relationships.remove_keys(
                    Set::new(|p: (usize, usize)| p.1 == t),
                ),
                ..old(self)@
            }),
    {
        let parents = self.predecessors_indices(t);
        let ghost before = self@;
        let mut k: usize = 0;
        proof {
            assert(before.relationships =~= before.relationships.remove_keys(
                Set::new(|p: (usize, usize)| p.1 == t && parents@.subrange(0, 0).contains(p.0)),
            ));
        }
        while k < parents.len()
            invariant
                0 <= k <= parents@.len(),
                self.wf(),
                lists_predecessors(before.relationships, t, parents@),
                self@ == (TasksView {
                    relationships: before.relationships.remove_keys(
                        Set::new(
                            |p: (usize, usize)|
                                p.1 == t && parents@.subrange(0, k as int).contains(p.0),
                        ),
                    ),
                    ..before
                }),
            decreases parents@.len() - k,
        {
            let p = parents[k];
            proof {
                assert(parents@.contains(p));
                assert(!parents@.subrange(0, k as int).contains(p));
            }
            let removed = self.remove_relationship(p, t);
            assert(removed is Ok);
            proof {
                let grown = parents@.subrange(0, k + 1);
                lemma_prefix_grows(parents@, k as int);
                assert(self@.relationships =~= before.relationships.remove_keys(
                    Set::new(|q: (usize, usize)| q.1 == t && grown.contains(q.0)),
                ));
            }
            k += 1;
        }
        proof {
            assert(parents@.subrange(0, k as int) == parents@);
            assert(self@.relationships =~= before.relationships.remove_keys(
                Set::new(|p: (usize, usize)| p.1 == t),
            ));
        }
    }

    /// Ends every time relationship that leads from `t`.
    fn clear_successors(&mut self, t: usize)
        requires
            old(self).wf(),
        ensures
            final(self).wf(),
            final(self)@ == (TasksView {
                relationships: old(self)@.relationships.remove_keys(
                    Set::new(|p: (usize, usize)| p.0 == t),
                ),
                ..old(self)@
            }),
    {
        let children = self.successors_indices(t);
        let ghost before = self@;
        let mut k: usize = 0;
        proof {
            assert(before.relationships =~= before.relationships.remove_keys(
                Set::new(|p: (usize, usize)| p.0 == t && children@.subrange(0, 0).contains(p.1)),
            ));
        }
        while k < children.len()
            invariant
                0 <= k <= children@.len(),
                self.wf(),
                lists_successors(before.relationships, t, children@),
                self@ == (TasksView {
                    relationships: before.relationships.remove_keys(
                        Set::new(
                            |p: (usize, usize)|
                                p.0 == t && children@.subrange(0, k as int).contains(p.1),
                        ),
                    ),
                    ..before
                }),
            decreases children@.len() - k,
        {
            let c = children[k];
            proof {
                assert(children@.contains(c));
                assert(!children@.subrange(0, k as int).contains(c));
            }
            let removed = self.remove_relationship(t, c);
            assert(removed is Ok);
            proof {
                let grown = children@.subrange(0, k + 1);
                lemma_prefix_grows(children@, k as int);
                assert(self@.relationships =~= before.relationships.remove_keys(
                    Set::new(|q: (usize, usize)| q.0 == t && grown.contains(q.1)),
                ));
            }
            k += 1;
        }
        proof {
            assert(children@.subrange(0, k as int) == children@);
            assert(self@.relationships =~= before.relationships.remove_keys(
                Set::new(|p: (usize, usize)| p.0 == t),
            ));
        }
    }
}

/// The first `k + 1` items of a list are its first `k` items and the item at
/// `k`.
proof fn lemma_prefix_grows(s: Seq<usize>, k: int)
    requires
        0 <= k < s.len(),
    ensures
        forall|x: usize| #[trigger]
            s.subrange(0, k + 1).contains(x) <==> (x == s[k] || s.subrange(0, k).contains(x)),
{
    let shorter = s.subrange(0, k);
    let longer = s.subrange(0, k + 1);
    assert forall|x: usize| longer.contains(x) <==> (x == s[k] || shorter.contains(x)) by {
        if longer.contains(x) {
            let j = choose|j: int| 0 <= j < longer.len() && longer[j] == x;
            if j < k {
                assert(shorter[j] == x);
            }
        }
        if x == s[k] {
            assert(longer[k] == x);
        }
        if shorter.contains(x) {
            let j = choose|j: int| 0 <= j < k && shorter[j] == x;
            assert(longer[j] == x);
        }
    }
}

/// Hands out every task of `slots`, in order.
fn lend_all(slots: &mut Vec<Option<Task>>) -> (r: Vec<&mut Task>)
    ensures
        final(slots)@.len() == old(slots)@.len(),
        r@.len() == live_before(old(slots)@, old(slots)@.len() as int),
        forall|h: int|
            0 <= h < old(slots)@.len() && (#[trigger] old(slots)@[h]) is Some ==> *r@[live_before(
                old(slots)@,
                h,
            ) as int] == old(slots)@[h]->0 && final(slots)@[h] == Some(
                *final(r@[live_before(old(slots)@, h) as int]),
            ),
        forall|h: int|
            0 <= h < old(slots)@.len() && (#[trigger] old(slots)@[h]) is None
                ==> final(slots)@[h] is None,
{
    let ghost before = slots@;
    let ghost after = final(slots)@;
    let ghost total = slots@.len() as int;
    let mut found: Vec<&mut Task> = Vec::new();
    let mut rest: &mut [Option<Task>] = slots.as_mut_slice();
    let ghost mut i: int = 0;
    while rest.len() > 0
        invariant
            0 <= i <= total,
            total == before.len(),
            i + rest@.len() == total,
            rest@ == before.subrange(i, total),
            found@.len() == live_before(before, i),
            after.len() == i + final(rest)@.len(),
            forall|h: int| i <= h < after.len() ==> after[h] == final(rest)@[h - i],
            forall|h: int|
                0 <= h < i && (#[trigger] before[h]) is Some ==> *found@[live_before(before, h) as int]
                    == before[h]->0 && after[h] == Some(*final(found@[live_before(before, h) as int])),
            forall|h: int| 0 <= h < i && (#[trigger] before[h]) is None ==> after[h] is None,
        decreases rest@.len(),
    {
        let whole = rest;
        let (head, tail) = whole.split_at_mut(1);
        proof {
            assert(head@[0] == before[i]);
            assert forall|h: int| 0 <= h < i && before[h] is Some implies live_before(before, h)
                < live_before(before, i) by {
                lemma_live_before_grows(before, h, i);
            }
        }
        match head.first_mut() {
            Some(slot) => match slot.as_mut() {
                Some(task) => {
                    found.push(task);
                },
                None => {},
            },
            None => {},
        }
        rest = tail;
        proof {
            i = i + 1;
        }
    }
    found
}

} // verus!
