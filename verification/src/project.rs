//! Projects: a set of activities that turns an idea into reality. A project
//! has a name, tasks with their relationships, resources and stakeholders.

use crate::error::PlanError;
use crate::instant::Instant;
use crate::plan::{
    are_predecessors, are_successors, is_live, lists_predecessors, lists_successors, live_before,
    live_tasks, predecessors_replaced, relationship_added, relationship_removed, sound,
    subtasks_of, successors_replaced, task_removed, TasksView,
};
pub use crate::relationship::TimeRelationship;
use crate::resources::Resource;
use crate::stakeholders::Stakeholder;
use crate::task::Task;
pub use crate::tasks::SubtaskRelationship;
use crate::tasks::Tasks;
use vstd::prelude::*;

verus! {

/// A project with a name, tasks, resources and stakeholders.
#[derive(Debug)]
pub struct Project {
    /// The name of the project.
    name: String,
    /// The description of the project.
    description: Option<String>,
    /// The start date of the project.
    start_date: Option<Instant>,
    /// The tasks of the project and their relationships.
    tasks: Tasks,
    /// The resources of the project.
    resources: Vec<Resource>,
    /// The stakeholders of the project.
    stakeholders: Vec<Stakeholder>,
}

/// What a project holds.
pub struct ProjectView {
    pub name: Seq<char>,
    pub description: Option<Seq<char>>,
    pub start_date: Option<Instant>,
    /// The tasks, their time relationships and their subtask relationships.
    pub plan: TasksView,
    pub resources: Seq<Resource>,
    pub stakeholders: Seq<Stakeholder>,
}

impl View for Project {
    type V = ProjectView;

    closed spec fn view(&self) -> ProjectView {
        ProjectView {
            name: self.name@,
            description: match self.description {
                Some(text) => Some(text@),
                None => None,
            },
            start_date: self.start_date,
            plan: self.tasks@,
            resources: self.resources@,
            stakeholders: self.stakeholders@,
        }
    }
}

impl Project {
    /// The internal rules of the project: those of its tasks.
    pub closed spec fn wf(&self) -> bool {
        self.tasks.wf()
    }

    /// In a well-formed project the time relationships join tasks that
    /// exist and hold no cycle.
    pub proof fn lemma_sound(&self)
        requires
            self.wf(),
        ensures
            sound(self@.plan),
    {
        self.tasks.lemma_sound();
    }

    /// Creates a project with the given name and nothing else.
    pub fn new(name: String) -> (r: Self)
        ensures
            r.wf(),
            r@ == (ProjectView {
                name: name@,
                description: None,
                start_date: None,
                plan: TasksView {
                    tasks: Seq::empty(),
                    relationships: Map::empty(),
                    subtasks: Seq::empty(),
                },
                resources: Seq::empty(),
                stakeholders: Seq::empty(),
            }),
    {
        Project {
            name,
            description: None,
            start_date: None,
            resources: Vec::new(),
            stakeholders: Vec::new(),
            tasks: Tasks::new(),
        }
    }

    /// The name of the project.
    pub fn name(&self) -> (r: &str)
        ensures
            r@ == self@.name,
    {
        self.name.as_str()
    }

    /// The same project with the given description.
    pub fn with_description(self, description: String) -> (r: Self)
        ensures
            r.wf() == self.wf(),
            r@ == (ProjectView { description: Some(description@), ..self@ }),
    {
        let mut project = self;
        project.description = Some(description);
        project
    }

    /// The same project with the given start date.
    pub fn with_start_date(self, start_date: Instant) -> (r: Self)
        ensures
            r.wf() == self.wf(),
            r@ == (ProjectView { start_date: Some(start_date), ..self@ }),
    {
        let mut project = self;
        project.start_date = Some(start_date);
        project
    }

    /// The description of the project, where it has one.
    pub fn description(&self) -> (r: Option<&str>)
        ensures
            r is Some <==> self@.description is Some,
            r matches Some(text) ==> self@.description == Some(text@),
    {
        match &self.description {
            Some(text) => Some(text.as_str()),
            None => None,
        }
    }

    /// The same project with `task` added.
    pub fn with_task(self, task: Task) -> (r: Self)
        requires
            self.wf(),
        ensures
            r.wf(),
            r@ == (ProjectView {
                plan: TasksView { tasks: self@.plan.tasks.push(Some(task)), ..self@.plan },
                ..self@
            }),
    {
        let mut project = self;
        project.add_task(task);
        project
    }

    /// The same project with each task of `tasks` added, in order.
    pub fn with_tasks(self, tasks: Vec<Task>) -> (r: Self)
        requires
            self.wf(),
        ensures
            r.wf(),
            r@ == (ProjectView {
                plan: TasksView {
                    tasks: self@.plan.tasks + tasks@.map_values(|task: Task| Some(task)),
                    ..self@.plan
                },
                ..self@
            }),
    {
        Project {
            name: self.name,
            description: self.description,
            start_date: self.start_date,
            tasks: self.tasks.with_tasks(tasks),
            resources: self.resources,
            stakeholders: self.stakeholders,
        }
    }

    /// Adds a task to the project and returns its handle: the number of
    /// handles issued before.
    pub fn add_task(&mut self, task: Task) -> (handle: usize)
        requires
            old(self).wf(),
        ensures
            final(self).wf(),
            handle == old(self)@.plan.tasks.len(),
            final(self)@ == (ProjectView {
                plan: TasksView { tasks: old(self)@.plan.tasks.push(Some(task)), ..old(self)@.plan },
                ..old(self)@
            }),
    {
        self.tasks.add_task(task)
    }

    /// Removes the task with the given handle and every time relationship
    /// that it takes part in. The handle is not issued again. Fails with
    /// `HandleNotFound` where no such task exists.
    pub fn rm_task(&mut self, i: usize) -> (r: Result<(), PlanError>)
        requires
            old(self).wf(),
        ensures
            final(self).wf(),
            task_removed(old(self)@.plan, final(self)@.plan, i, r),
            final(self)@ == (ProjectView { plan: final(self)@.plan, ..old(self)@ }),
    {
        self.tasks.rm_task(i)
    }

    /// Gets the task with the given handle, or `None` where the handle was
    /// never issued or its task was removed.
    pub fn task(&self, index: usize) -> (r: Option<&Task>)
        ensures
            match r {
                Some(task) => is_live(self@.plan.tasks, index) && self@.plan.tasks[index as int] == Some(
                    *task,
                ),
                None => !is_live(self@.plan.tasks, index),
            },
    {
        self.tasks.task(index)
    }

    /// Gets the task with the given handle for changing it, or `None` where
    /// the handle was never issued or its task was removed.
    pub fn task_mut(&mut self, index: usize) -> (r: Option<&mut Task>)
        requires
            old(self).wf(),
        ensures
            final(self).wf(),
            match r {
                Some(task) => is_live(old(self)@.plan.tasks, index)
                    && old(self)@.plan.tasks[index as int] == Some(*task)
                    && final(self)@ == (ProjectView {
                    plan: TasksView {
                        tasks: old(self)@.plan.tasks.update(index as int, Some(*final(task))),
                        ..old(self)@.plan
                    },
                    ..old(self)@
                }),
                None => !is_live(old(self)@.plan.tasks, index) && final(self)@ == old(self)@,
            },
    {
        self.tasks.task_mut(index)
    }

    /// The tasks of the project that exist, in the order of their handles.
    pub fn tasks(&self) -> (r: Vec<&Task>)
        ensures
            r@.map_values(|task: &Task| *task) == live_tasks(self@.plan.tasks),
    {
        self.tasks.tasks()
    }

    /// The tasks of the project that exist, in the order of their handles,
    /// each open to change: the task of a handle stands at the place
    /// `live_before` gives, and is kept as the caller leaves it.
    pub fn tasks_mut(&mut self) -> (r: Vec<&mut Task>)
        requires
            old(self).wf(),
        ensures
            final(self).wf(),
            final(self)@.plan.tasks.len() == old(self)@.plan.tasks.len(),
            r@.len() == live_before(old(self)@.plan.tasks, old(self)@.plan.tasks.len() as int),
            forall|h: int|
                0 <= h < old(self)@.plan.tasks.len() && (#[trigger] old(self)@.plan.tasks[h]) is Some
                    ==> *r@[live_before(old(self)@.plan.tasks, h) as int]
                    == old(self)@.plan.tasks[h]->0 && final(self)@.plan.tasks[h] == Some(
                    *final(r@[live_before(old(self)@.plan.tasks, h) as int]),
                ),
            forall|h: int|
                0 <= h < old(self)@.plan.tasks.len() && (#[trigger] old(self)@.plan.tasks[h]) is None
                    ==> final(self)@.plan.tasks[h] is None,
            final(self)@ == (ProjectView {
                plan: TasksView { tasks: final(self)@.plan.tasks, ..old(self)@.plan },
                ..old(self)@
            }),
    {
        self.tasks.tasks_mut()
    }

    /// Relates two tasks in time: `predecessor_index` comes before
    /// `successor_index`, in the way `kind` says. Where the two are related
    /// in that direction already, the kind is replaced. Fails with
    /// `HandleNotFound` where one of the tasks does not exist, and with
    /// `CycleDetected` where the successor reaches the predecessor already.
    pub fn add_time_relationship(
        &mut self,
        predecessor_index: usize,
        successor_index: usize,
        kind: TimeRelationship,
    ) -> (r: Result<(), PlanError>)
        requires
            old(self).wf(),
        ensures
            final(self).wf(),
            sound(final(self)@.plan),
            relationship_added(
                old(self)@.plan,
                final(self)@.plan,
                predecessor_index,
                successor_index,
                kind,
                r,
            ),
            final(self)@ == (ProjectView { plan: final(self)@.plan, ..old(self)@ }),
    {
        self.tasks.add_relationship(predecessor_index, successor_index, kind)
    }

    /// Ends the time relationship from `predecessor_index` to
    /// `successor_index`. Fails with `EdgeNotFound` where the two are not
    /// related in that direction.
    pub fn remove_time_relationship(&mut self, predecessor_index: usize, successor_index: usize) -> (r:
        Result<(), PlanError>)
        requires
            old(self).wf(),
        ensures
            final(self).wf(),
            relationship_removed(
                old(self)@.plan,
                final(self)@.plan,
                predecessor_index,
                successor_index,
                r,
            ),
            final(self)@ == (ProjectView { plan: final(self)@.plan, ..old(self)@ }),
    {
        self.tasks.remove_relationship(predecessor_index, successor_index)
    }

    /// The successors of a task: each task that the given one comes before,
    /// once, in no particular order.
    pub fn successors(&self, node_index: usize) -> (r: Vec<&Task>)
        requires
            self.wf(),
        ensures
            are_successors(self@.plan, node_index, r@),
    {
        self.tasks.successors(node_index)
    }

    /// The handles of the successors of a task: each task that the given
    /// one comes before, once, in no particular order. A handle that no
    /// task has gives an empty list.
    pub fn successors_indices(&self, node_index: usize) -> (r: Vec<usize>)
        requires
            self.wf(),
        ensures
            lists_successors(self@.plan.relationships, node_index, r@),
    {
        self.tasks.successors_indices(node_index)
    }

    /// The predecessors of a task: each task that comes before the given
    /// one, once, in no particular order.
    pub fn predecessors(&self, node_index: usize) -> (r: Vec<&Task>)
        requires
            self.wf(),
        ensures
            are_predecessors(self@.plan, node_index, r@),
    {
        self.tasks.predecessors(node_index)
    }

    /// The handles of the predecessors of a task: each task that comes
    /// before the given one, once, in no particular order. A handle that no
    /// task has gives an empty list.
    pub fn predecessors_indices(&self, node_index: usize) -> (r: Vec<usize>)
        requires
            self.wf(),
        ensures
            lists_predecessors(self@.plan.relationships, node_index, r@),
    {
        self.tasks.predecessors_indices(node_index)
    }

    /// Makes the predecessors of the task `task_index` exactly the tasks of
    /// `predecessors_indices`, each related by `FinishToStart`, in one step:
    /// either all of it happens or nothing changes. A handle that is listed
    /// twice counts once. Fails with `HandleNotFound` where `task_index` or
    /// a listed handle has no task, and with `CycleDetected` where the task
    /// reaches a listed handle already, as it does itself.
    pub fn update_predecessors(&mut self, task_index: usize, predecessors_indices: &[usize]) -> (r:
        Result<(), PlanError>)
        requires
            old(self).wf(),
        ensures
            final(self).wf(),
            sound(final(self)@.plan),
            predecessors_replaced(
                old(self)@.plan,
                final(self)@.plan,
                task_index,
                predecessors_indices@,
                r,
            ),
            final(self)@ == (ProjectView { plan: final(self)@.plan, ..old(self)@ }),
    {
        self.tasks.update_predecessors(task_index, predecessors_indices)
    }

    /// Makes the successors of the task `task_index` exactly the tasks of
    /// `successors_indices`, each related by `FinishToStart`, in one step:
    /// either all of it happens or nothing changes. A handle that is listed
    /// twice counts once. Fails with `HandleNotFound` where `task_index` or
    /// a listed handle has no task, and with `CycleDetected` where a listed
    /// handle reaches the task already, as the task does itself.
    pub fn update_successors(&mut self, task_index: usize, successors_indices: &[usize]) -> (r: Result<
        (),
        PlanError,
    >)
        requires
            old(self).wf(),
        ensures
            final(self).wf(),
            sound(final(self)@.plan),
            successors_replaced(old(self)@.plan, final(self)@.plan, task_index, successors_indices@, r),
            final(self)@ == (ProjectView { plan: final(self)@.plan, ..old(self)@ }),
    {
        self.tasks.update_successors(task_index, successors_indices)
    }

    /// Makes `child_index` a subtask of `parent_index`: the parent is
    /// completed when all its subtasks are. Neither handle is checked, and a
    /// pair may be added more than once.
    pub fn add_subtask(&mut self, parent_index: usize, child_index: usize)
        ensures
            final(self).wf() == old(self).wf(),
            final(self)@ == (ProjectView {
                plan: TasksView {
                    subtasks: old(self)@.plan.subtasks.push((parent_index, child_index)),
                    ..old(self)@.plan
                },
                ..old(self)@
            }),
    {
        self.tasks.add_subtask(parent_index, child_index);
    }

    /// The handles of the subtasks of the given task, in the order in which
    /// they were added.
    pub fn subtasks(&self, task_index: usize) -> (r: Vec<usize>)
        ensures
            r@ == subtasks_of(self@.plan.subtasks, task_index),
    {
        self.tasks.subtasks(task_index)
    }

    /// The start date of the project, where it has one.
    pub fn start_date(&self) -> (r: Option<Instant>)
        ensures
            r == self@.start_date,
    {
        self.start_date
    }

    /// Adds a resource to the project, after those it has.
    pub fn add_resource(&mut self, resource: Resource)
        ensures
            final(self).wf() == old(self).wf(),
            final(self)@ == (ProjectView {
                resources: old(self)@.resources.push(resource),
                ..old(self)@
            }),
    {
        self.resources.push(resource);
    }

    /// The resources of the project, in the order in which they were added.
    pub fn resources(&self) -> (r: &[Resource])
        ensures
            r@ == self@.resources,
    {
        self.resources.as_slice()
    }

    /// Adds a stakeholder to the project, after those it has.
    pub fn add_stakeholder(&mut self, stakeholder: Stakeholder)
        ensures
            final(self).wf() == old(self).wf(),
            final(self)@ == (ProjectView {
                stakeholders: old(self)@.stakeholders.push(stakeholder),
                ..old(self)@
            }),
    {
        self.stakeholders.push(stakeholder);
    }

    /// The stakeholders of the project, in the order in which they were
    /// added.
    pub fn stakeholders(&self) -> (r: &[Stakeholder])
        ensures
            r@ == self@.stakeholders,
    {
        self.stakeholders.as_slice()
    }
}

impl Default for Project {
    /// A project with an empty name and nothing else.
    fn default() -> (r: Self)
        ensures
            r.wf(),
            r@ == (ProjectView {
                name: Seq::empty(),
                description: None,
                start_date: None,
                plan: TasksView {
                    tasks: Seq::empty(),
                    relationships: Map::empty(),
                    subtasks: Seq::empty(),
                },
                resources: Seq::empty(),
                stakeholders: Seq::empty(),
            }),
    {
        Project::new(String::new())
    }
}

} // verus!
