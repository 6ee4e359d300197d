//! Tasks: the units of work of a project.

use crate::duration::PositiveDuration;
use crate::error::PlanError;
use crate::instant::Instant;
use crate::resources::Resource;
use crate::schedule::{
    after_set_duration, after_set_finish, after_set_start, consistent, Schedule, ScheduleView,
};
use vstd::prelude::*;

verus! {

/// A unit of work that a person or a group of people can complete. It can be
/// given resources, and a start, a finish and a duration.
#[derive(Debug, Clone, PartialEq, Eq)]
pub struct Task {
    /// The name of the task.
    name: String,
    /// The description of the task.
    description: String,
    /// Whether the task is completed.
    completed: bool,
    /// The start, the finish and the duration of the task.
    schedule: Schedule,
    /// The resources assigned to the task.
    resources: Vec<Resource>,
}

/// What a task holds.
pub struct TaskView {
    pub name: Seq<char>,
    pub description: Seq<char>,
    pub completed: bool,
    pub schedule: ScheduleView,
    pub resources: Seq<Resource>,
}

impl View for Task {
    type V = TaskView;

    closed spec fn view(&self) -> TaskView {
        TaskView {
            name: self.name@,
            description: self.description@,
            completed: self.completed,
            schedule: self.schedule@,
            resources: self.resources@,
        }
    }
}

impl Task {
    /// Creates a task with the given name. It has an empty description, is
    /// not completed, has no resources, and nothing is known of its
    /// schedule.
    pub fn new(name: String) -> (r: Self)
        ensures
            r@ == (TaskView {
                name: name@,
                description: Seq::<char>::empty(),
                completed: false,
                schedule: ScheduleView { start: None, finish: None, duration: None },
                resources: Seq::<Resource>::empty(),
            }),
    {
        Task {
            name,
            description: String::new(),
            completed: false,
            schedule: Schedule::new(),
            resources: Vec::new(),
        }
    }

    /// Sets the start of the task. A known duration then decides the finish.
    /// Without a duration, a known finish that lies before the new start is
    /// pulled up to it, and the duration becomes the time between the two.
    /// Where a derived value would not fit, the task is left as it was and
    /// the call fails with `InvariantViolation`.
    pub fn edit_start(&mut self, start: Instant) -> (r: Result<(), PlanError>)
        ensures
            match r {
                Ok(()) => after_set_start(old(self)@.schedule, start@) matches Some(schedule)
                    && final(self)@ == (TaskView { schedule, ..old(self)@ }),
                Err(e) => e == PlanError::InvariantViolation && after_set_start(
                    old(self)@.schedule,
                    start@,
                ) is None && *final(self) == *old(self),
            },
    {
        self.schedule.set_start(start)
    }

    /// The start of the task, where it is known.
    pub fn start(&self) -> (r: Option<Instant>)
        ensures
            r is Some <==> self@.schedule.start is Some,
            r matches Some(s) ==> self@.schedule.start == Some(s@),
            consistent(self@.schedule),
    {
        self.schedule.start()
    }

    /// Sets the finish of the task. A known start that lies after the new
    /// finish is pushed back to it, and with a known start the duration
    /// becomes the time between the two. Where that duration would not fit,
    /// the task is left as it was and the call fails with
    /// `InvariantViolation`.
    pub fn edit_finish(&mut self, finish: Instant) -> (r: Result<(), PlanError>)
        ensures
            match r {
                Ok(()) => after_set_finish(old(self)@.schedule, finish@) matches Some(schedule)
                    && final(self)@ == (TaskView { schedule, ..old(self)@ }),
                Err(e) => e == PlanError::InvariantViolation && after_set_finish(
                    old(self)@.schedule,
                    finish@,
                ) is None && *final(self) == *old(self),
            },
    {
        self.schedule.set_finish(finish)
    }

    /// The finish of the task, where it is known.
    pub fn finish(&self) -> (r: Option<Instant>)
        ensures
            r is Some <==> self@.schedule.finish is Some,
            r matches Some(f) ==> self@.schedule.finish == Some(f@),
            consistent(self@.schedule),
    {
        self.schedule.finish()
    }

    /// Sets the duration of the task. With a known start the finish becomes
    /// the start plus the duration. Where that finish would not fit, the
    /// task is left as it was and the call fails with `InvariantViolation`.
    pub fn edit_duration(&mut self, duration: PositiveDuration) -> (r: Result<(), PlanError>)
        ensures
            match r {
                Ok(()) => after_set_duration(old(self)@.schedule, duration@) matches Some(schedule)
                    && final(self)@ == (TaskView { schedule, ..old(self)@ }),
                Err(e) => e == PlanError::InvariantViolation && after_set_duration(
                    old(self)@.schedule,
                    duration@,
                ) is None && *final(self) == *old(self),
            },
    {
        self.schedule.set_duration(duration)
    }

    /// The duration of the task, where it is known.
    pub fn duration(&self) -> (r: Option<PositiveDuration>)
        ensures
            r is Some <==> self@.schedule.duration is Some,
            r matches Some(d) ==> self@.schedule.duration == Some(d@),
            consistent(self@.schedule),
    {
        self.schedule.duration()
    }

    /// Adds a resource to the task, after those it has.
    pub fn add_resource(&mut self, resource: Resource)
        ensures
            final(self)@ == (TaskView { resources: old(self)@.resources.push(resource), ..old(self)@ }),
    {
        self.resources.push(resource);
    }

    /// The resources assigned to the task, in the order in which they were
    /// added.
    pub fn resources(&self) -> (r: &[Resource])
        ensures
            r@ == self@.resources,
    {
        self.resources.as_slice()
    }

    /// Replaces the name of the task.
    pub fn edit_name(&mut self, name: String)
        ensures
            final(self)@ == (TaskView { name: name@, ..old(self)@ }),
    {
        self.name = name;
    }

    /// The name of the task.
    pub fn name(&self) -> (r: &str)
        ensures
            r@ == self@.name,
    {
        self.name.as_str()
    }

    /// Replaces the description of the task.
    pub fn edit_description(&mut self, description: String)
        ensures
            final(self)@ == (TaskView { description: description@, ..old(self)@ }),
    {
        self.description = description;
    }

    /// The description of the task.
    pub fn description(&self) -> (r: &str)
        ensures
            r@ == self@.description,
    {
        self.description.as_str()
    }

    /// Whether the task is completed.
    pub fn completed(&self) -> (r: bool)
        ensures
            r == self@.completed,
    {
        self.completed
    }

    /// Marks a task that is not completed as completed, and one that is
    /// completed as not completed.
    pub fn toggle_completed(&mut self)
        ensures
            final(self)@ == (TaskView { completed: !old(self)@.completed, ..old(self)@ }),
    {
        self.completed = !self.completed;
    }
}

impl Default for Task {
    /// A task with an empty name.
    fn default() -> (r: Self)
        ensures
            r@ == (TaskView {
                name: Seq::<char>::empty(),
                description: Seq::<char>::empty(),
                completed: false,
                schedule: ScheduleView { start: None, finish: None, duration: None },
                resources: Seq::<Resource>::empty(),
            }),
    {
        Task::new(String::new())
    }
}

} // verus!
