//! Types and rules for planning a project, after the PMBOK Guide: tasks, the
//! time dependencies between them, and the people and materials a project
//! draws on.
//!
//! The heart of the crate is the graph of time relationships between tasks.
//! It never holds a cycle, and a whole set of predecessors or successors of a
//! task is replaced in one step that either happens or leaves everything as
//! it was. Each task keeps its start, its finish and its duration in step.
//! Both are proved: the contracts of `tasks`, `project` and `schedule` say
//! what each operation does, and `plan`, `graph` and `schedule` hold the laws
//! that follow.

/// The graph of time relationships as `daggy` keeps it, and what is taken on
/// trust of it.
pub mod dag;
/// A duration is the amount of time required to complete a task.
pub mod duration;
/// The list of edges of the graph, read as a map from pairs of tasks to kinds
/// of relationship.
pub mod edge_list;
/// The errors of the planning operations.
pub mod error;
/// Paths, reachability and acyclicity in directed graphs.
pub mod graph;
/// An instant is a point in time.
pub mod instant;
/// A person can be a resource, a team member or a stakeholder.
pub mod person;
/// What a collection of tasks holds, and the laws of its operations.
pub mod plan;
/// A project is a set of activities required to transform ideas into reality.
/// It is composed of tasks, resources and stakeholders.
pub mod project;
/// The kinds of time relationship between two tasks.
pub mod relationship;
/// A resource is a material or a person required in the project to carry out
/// tasks. Resources have a cost.
pub mod resources;
/// The start, the finish and the duration of a task, kept in step.
pub mod schedule;
/// A stakeholder is a person or organization that has an interest in the
/// project.
pub mod stakeholders;
/// A task is a unit of work that needs to be completed to reach the project's
/// objectives. It has a duration, a start, a finish and a status.
pub mod task;
/// Tasks within a project depend on each other: by time relationships (start
/// to finish, finish to start, ...) and by subtask relationships.
pub mod tasks;
