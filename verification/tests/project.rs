//! Tests of `Project`: the usual workflow, and each operation on its tasks.

use chrono::Utc;
use planter_core::error::PlanError;
use planter_core::instant::Instant;
use planter_core::person::Person;
use planter_core::project::{Project, TimeRelationship};
use planter_core::resources::{Consumable, Material, NonConsumable, Resource};
use planter_core::stakeholders::Stakeholder;
use planter_core::task::Task;

fn now() -> Instant {
    let now = Utc::now();
    Instant::from_unix_nanos(
        i128::from(now.timestamp()) * 1_000_000_000 + i128::from(now.timestamp_subsec_nanos()),
    )
}

fn project_with(names: &[&str]) -> Project {
    let tasks: Vec<Task> = names.iter().map(|name| Task::new((*name).to_owned())).collect();
    Project::new("World domination".to_owned()).with_tasks(tasks)
}

fn sorted(mut handles: Vec<usize>) -> Vec<usize> {
    handles.sort();
    handles
}

/// The standard workflow when creating a project involves initializing it with
/// a name, optionally a description, and a start date. The project is kept
/// mutable and the user can add/remove tasks, resources, stakeholders, and
/// other relevant information.
#[test]
fn test_project() {
    // Initialize a project with a name, description, and start date.
    let start_date = now();
    let mut project = Project::new("World domination".to_owned())
        .with_description(
            "My second attempt to conquer the world with a crowbar and a stimpack".to_owned(),
        )
        .with_start_date(start_date);

    // Add tasks to the project.
    project.add_task(Task::new("Find a crowbar".to_owned()));
    project.add_task(Task::new("Find a stimpack".to_owned()));
    project.add_task(Task::new("Open a proprietary software house".to_owned()));
    project.add_task(Task::new("Prey on free software projects".to_owned()));
    project.add_task(Task::new("Profit".to_owned()));
    assert_eq!(project.tasks().len(), 5);

    // Add subtask relatonships to the project.
    project.add_subtask(1, 2);
    project.add_subtask(1, 3);

    assert_eq!(project.subtasks(1).len(), 2);

    // Add time relationships between tasks of the project.
    project
        .add_time_relationship(0, 1, TimeRelationship::StartToFinish)
        .expect("Tasks don't exist or circular dependencies detected");

    project
        .add_time_relationship(0, 4, TimeRelationship::StartToFinish)
        .expect("Tasks don't exist or circular dependencies detected");

    // Add a non consumable material to the project
    project.add_resource(Resource::Material(Material::NonConsumable(NonConsumable::new(
        "Crowbar".to_owned(),
    ))));
    // Add a consumable material to the project
    project.add_resource(Resource::Material(Material::Consumable(Consumable::new(
        "Stimpack".to_owned(),
    ))));

    // Add a personnel resource to the project
    project.add_resource(Resource::Personnel {
        person: Person::new("Sebastiano".to_owned(), "Giordano".to_owned())
            .expect("Failed to parse a name."),
        hourly_rate: None,
    });
    assert_eq!(project.resources().len(), 3);

    // Add stakeholders to the project
    let person =
        Person::new("Margherita".to_owned(), "Hack".to_owned()).expect("Failed to parse a name");
    project.add_stakeholder(Stakeholder::Individual {
        person,
        description: Some("She could try to stop me".to_owned()),
    });
    project.add_stakeholder(Stakeholder::Organization {
        name: "Acme".to_owned(),
        description: Some("They might decide to buy me more stimpacks".to_owned()),
    });
    assert_eq!(project.stakeholders().len(), 2);
}

#[test]
fn new_project_has_name_and_nothing_else() {
    let project = Project::new("World domination".to_owned());
    assert_eq!(project.name(), "World domination");
    assert_eq!(project.description(), None);
    assert_eq!(project.start_date(), None);
    assert_eq!(project.tasks().len(), 0);
    assert!(project.resources().is_empty());
    assert!(project.stakeholders().is_empty());
}

#[test]
fn default_project_is_empty() {
    let project = Project::default();
    assert_eq!(project.name(), "");
    assert_eq!(project.tasks().len(), 0);
}

#[test]
fn with_description_sets_description() {
    let project =
        Project::new("World domination".to_owned()).with_description("This is a project".to_owned());
    assert_eq!(project.description(), Some("This is a project"));
    assert_eq!(project.name(), "World domination");
}

#[test]
fn with_start_date_sets_start_date() {
    let start_date = now();
    let project = Project::new("World domination".to_owned()).with_start_date(start_date);
    assert_eq!(project.start_date(), Some(start_date));
}

#[test]
fn with_task_adds_task_at_handle_zero() {
    let task = Task::new("Become world leader".to_owned());
    let project = Project::new("World domination".to_owned()).with_task(task);
    assert_eq!(project.task(0).unwrap().name(), "Become world leader");
}

#[test]
fn with_tasks_adds_tasks_in_order() {
    let project = project_with(&["Become world leader", "Get rich"]);
    assert_eq!(project.tasks().len(), 2);
    assert_eq!(project.task(0).unwrap().name(), "Become world leader");
    assert_eq!(project.task(1).unwrap().name(), "Get rich");
    assert!(project.task(2).is_none());
}

#[test]
fn add_task_returns_consecutive_handles() {
    let mut project = Project::new("World domination".to_owned());
    assert_eq!(project.tasks().len(), 0);
    assert_eq!(project.add_task(Task::new("Become world leader".to_owned())), 0);
    assert_eq!(project.add_task(Task::new("Get rich".to_owned())), 1);
    assert_eq!(project.tasks().len(), 2);
}

#[test]
fn rm_task_removes_the_task() {
    let mut project = Project::new("World domination".to_owned());
    project.add_task(Task::new("Become world leader".to_owned()));
    assert_eq!(project.tasks().len(), 1);
    assert!(project.rm_task(0).is_ok());
    assert_eq!(project.tasks().len(), 0);
    assert!(project.task(0).is_none());
}

#[test]
fn rm_task_rejects_unknown_and_removed_handles() {
    let mut project = project_with(&["A", "B"]);
    assert_eq!(project.rm_task(2), Err(PlanError::HandleNotFound));
    assert_eq!(project.rm_task(0), Ok(()));
    assert_eq!(project.rm_task(0), Err(PlanError::HandleNotFound));
    assert_eq!(project.tasks().len(), 1);
}

#[test]
fn handles_are_not_reused_after_removal() {
    let mut project = project_with(&["A", "B", "C"]);
    project.rm_task(0).unwrap();
    assert_eq!(project.task(1).unwrap().name(), "B");
    assert_eq!(project.task(2).unwrap().name(), "C");
    assert_eq!(project.add_task(Task::new("D".to_owned())), 3);
    assert!(project.task(0).is_none());
    let names: Vec<&str> = project.tasks().iter().map(|task| task.name()).collect();
    assert_eq!(names, vec!["B", "C", "D"]);
}

#[test]
fn task_mut_changes_the_stored_task() {
    let mut project = Project::new("World domination".to_owned());
    project.add_task(Task::new("Become world leader".to_owned()));
    let task = project.task_mut(0).unwrap();
    assert_eq!(task.name(), "Become world leader");

    task.edit_name("Become world's biggest loser".to_owned());
    assert_eq!(project.task(0).unwrap().name(), "Become world's biggest loser");
    assert!(project.task_mut(1).is_none());
}

#[test]
fn add_time_relationship_makes_a_successor() {
    let mut project = project_with(&["Get rich", "Become world leader"]);
    project.add_time_relationship(0, 1, TimeRelationship::default()).unwrap();

    assert_eq!(project.successors(0)[0].name(), "Become world leader");
    assert_eq!(project.successors_indices(0), vec![1]);
    assert_eq!(project.predecessors_indices(1), vec![0]);
    assert!(project.successors_indices(1).is_empty());
    assert!(project.predecessors_indices(0).is_empty());
}

#[test]
fn add_time_relationship_makes_a_predecessor() {
    let mut project = project_with(&["Get rich", "Become world leader"]);
    project.add_time_relationship(1, 0, TimeRelationship::default()).unwrap();

    assert_eq!(project.predecessors(0)[0].name(), "Become world leader");
    assert_eq!(project.predecessors_indices(0), vec![1]);
}

#[test]
fn add_time_relationship_rejects_unknown_handles() {
    let mut project = project_with(&["A", "B"]);
    assert_eq!(
        project.add_time_relationship(0, 2, TimeRelationship::FinishToStart),
        Err(PlanError::HandleNotFound)
    );
    assert_eq!(
        project.add_time_relationship(2, 0, TimeRelationship::FinishToStart),
        Err(PlanError::HandleNotFound)
    );
    assert!(project.successors_indices(0).is_empty());
}

#[test]
fn add_time_relationship_twice_keeps_one_edge() {
    let mut project = project_with(&["A", "B"]);
    project.add_time_relationship(0, 1, TimeRelationship::FinishToStart).unwrap();
    project.add_time_relationship(0, 1, TimeRelationship::StartToStart).unwrap();
    assert_eq!(project.successors_indices(0), vec![1]);
    project.remove_time_relationship(0, 1).unwrap();
    assert!(project.successors_indices(0).is_empty());
    assert_eq!(project.remove_time_relationship(0, 1), Err(PlanError::EdgeNotFound));
}

#[test]
fn cycle_is_rejected_and_prior_edges_stay() {
    let mut project = project_with(&["A", "B", "C"]);
    assert_eq!(project.add_time_relationship(0, 1, TimeRelationship::FinishToStart), Ok(()));
    assert_eq!(project.add_time_relationship(1, 2, TimeRelationship::FinishToStart), Ok(()));
    assert_eq!(
        project.add_time_relationship(2, 0, TimeRelationship::FinishToStart),
        Err(PlanError::CycleDetected)
    );
    assert_eq!(project.successors_indices(0), vec![1]);
    assert_eq!(project.successors_indices(1), vec![2]);
    assert!(project.successors_indices(2).is_empty());
    assert!(project.predecessors_indices(0).is_empty());
    assert_eq!(project.predecessors_indices(1), vec![0]);
    assert_eq!(project.predecessors_indices(2), vec![1]);
}

#[test]
fn self_relationship_is_a_cycle() {
    let mut project = project_with(&["A"]);
    assert_eq!(
        project.add_time_relationship(0, 0, TimeRelationship::FinishToStart),
        Err(PlanError::CycleDetected)
    );
    assert!(project.successors_indices(0).is_empty());
}

#[test]
fn remove_time_relationship_removes_the_edge() {
    let mut project = project_with(&["Get rich", "Become world leader"]);
    project.add_time_relationship(0, 1, TimeRelationship::default()).unwrap();
    project.remove_time_relationship(0, 1).unwrap();

    assert_eq!(project.successors(0).len(), 0);
}

#[test]
fn remove_time_relationship_rejects_missing_edges() {
    let mut project = project_with(&["A", "B"]);
    assert_eq!(project.remove_time_relationship(0, 1), Err(PlanError::EdgeNotFound));
    project.add_time_relationship(0, 1, TimeRelationship::default()).unwrap();
    assert_eq!(project.remove_time_relationship(1, 0), Err(PlanError::EdgeNotFound));
    assert_eq!(project.remove_time_relationship(7, 9), Err(PlanError::EdgeNotFound));
    assert_eq!(project.successors_indices(0), vec![1]);
}

#[test]
fn removing_one_edge_keeps_the_others() {
    let mut project = project_with(&["A", "B", "C", "D"]);
    project.add_time_relationship(0, 1, TimeRelationship::FinishToStart).unwrap();
    project.add_time_relationship(0, 2, TimeRelationship::FinishToStart).unwrap();
    project.add_time_relationship(2, 3, TimeRelationship::FinishToStart).unwrap();
    project.add_time_relationship(1, 3, TimeRelationship::FinishToStart).unwrap();
    project.remove_time_relationship(0, 1).unwrap();
    assert_eq!(project.successors_indices(0), vec![2]);
    assert_eq!(sorted(project.predecessors_indices(3)), vec![1, 2]);
    assert_eq!(project.successors_indices(2), vec![3]);
    assert_eq!(project.successors_indices(1), vec![3]);
    // With 0 -> 1 gone, 1 -> 0 closes no cycle any more.
    assert_eq!(project.add_time_relationship(1, 0, TimeRelationship::FinishToStart), Ok(()));
    // 3 -> 0 would: 0 -> 2 -> 3.
    assert_eq!(
        project.add_time_relationship(3, 0, TimeRelationship::FinishToStart),
        Err(PlanError::CycleDetected)
    );
}

#[test]
fn update_predecessors_sets_predecessors() {
    let mut project = project_with(&["Become world leader", "Get rich", "Be evil"]);
    project.update_predecessors(2, &[0, 1]).unwrap();
    assert_eq!(project.predecessors(2).len(), 2);
    assert_eq!(sorted(project.predecessors_indices(2)), vec![0, 1]);
}

#[test]
fn update_successors_sets_successors() {
    let mut project = project_with(&["Become world leader", "Get rich", "Be evil"]);
    project.update_successors(0, &[1, 2]).unwrap();
    assert_eq!(project.successors(0).len(), 2);
    assert_eq!(sorted(project.successors_indices(0)), vec![1, 2]);
}

fn chain(n: usize) -> Project {
    let names: Vec<String> = (0..n).map(|i| format!("Task {i}")).collect();
    let refs: Vec<&str> = names.iter().map(|name| name.as_str()).collect();
    let mut project = project_with(&refs);
    for current in 1..n {
        project.update_successors(current - 1, &[current]).unwrap();
    }
    project
}

#[test]
fn update_predecessors_rejects_circular_graphs() {
    let mut project = chain(7);
    let last = project.tasks().len() - 1;
    assert_eq!(project.update_predecessors(0, &[last]), Err(PlanError::CycleDetected));
}

#[test]
fn update_successors_rejects_circular_graphs() {
    let mut project = chain(7);
    let last = project.tasks().len() - 1;
    assert_eq!(project.update_successors(last, &[0]), Err(PlanError::CycleDetected));
}

#[test]
fn update_predecessors_rejects_non_existent_indices() {
    let mut project = project_with(&["A", "B", "C", "D", "E"]);
    let count = project.tasks().len();
    assert_eq!(project.update_predecessors(0, &[count]), Err(PlanError::HandleNotFound));
    assert_eq!(project.update_predecessors(count, &[0]), Err(PlanError::HandleNotFound));
}

#[test]
fn update_successors_rejects_non_existent_indices() {
    let mut project = project_with(&["A", "B", "C", "D", "E"]);
    let count = project.tasks().len();
    assert_eq!(project.update_successors(0, &[count]), Err(PlanError::HandleNotFound));
    assert_eq!(project.update_successors(count, &[0]), Err(PlanError::HandleNotFound));
}

#[test]
fn update_predecessors_removes_them_if_input_is_empty() {
    let mut project = project_with(&["A", "B", "C", "D", "E"]);
    project.update_predecessors(3, &[1]).unwrap();
    project.update_predecessors(3, &[]).unwrap();
    assert_eq!(project.predecessors(3).len(), 0);
}

#[test]
fn update_predecessors_removes_indices_not_present_in_input() {
    let mut project = project_with(&["A", "B", "C", "D", "E"]);
    project.update_predecessors(3, &[1, 4]).unwrap();
    project.update_predecessors(3, &[1]).unwrap();

    let predecessors = project.predecessors(3);
    assert_eq!(predecessors.len(), 1);
    assert_eq!(Some(predecessors[0]), project.task(1));
}

#[test]
fn update_predecessors_works() {
    let mut project = project_with(&["A", "B", "C", "D", "E"]);
    project.update_predecessors(2, &[4]).unwrap();

    let predecessors = project.predecessors(2);
    assert_eq!(predecessors.len(), 1);
    assert_eq!(Some(predecessors[0]), project.task(4));
}

#[test]
fn update_successors_works() {
    let mut project = project_with(&["A", "B", "C", "D", "E"]);
    project.update_successors(2, &[4]).unwrap();

    let successors = project.successors(2);
    assert_eq!(successors.len(), 1);
    assert_eq!(Some(successors[0]), project.task(4));
}

#[test]
fn update_successors_removes_them_if_input_is_empty() {
    let mut project = project_with(&["A", "B", "C", "D", "E"]);
    project.update_successors(3, &[1]).unwrap();
    project.update_successors(3, &[]).unwrap();
    assert_eq!(project.successors(3).len(), 0);
}

#[test]
fn update_successors_removes_indices_not_present_in_input() {
    let mut project = project_with(&["A", "B", "C", "D", "E"]);
    project.update_successors(3, &[1, 4]).unwrap();
    project.update_successors(3, &[1]).unwrap();

    let successors = project.successors(3);
    assert_eq!(successors.len(), 1);
    assert_eq!(Some(successors[0]), project.task(1));
}

#[test]
fn subtasks_are_listed_in_order_of_addition() {
    let mut project = project_with(&["Become world leader", "Get rich", "Be evil"]);
    assert_eq!(project.subtasks(0).len(), 0);
    project.add_subtask(0, 1);
    assert_eq!(project.subtasks(0).len(), 1);
    project.add_subtask(0, 2);
    project.add_subtask(1, 2);
    project.add_subtask(0, 1);
    assert_eq!(project.subtasks(0), vec![1, 2, 1]);
    assert_eq!(project.subtasks(1), vec![2]);
    assert!(project.subtasks(2).is_empty());
}

#[test]
fn subtasks_are_not_checked() {
    let mut project = Project::new("World domination".to_owned());
    project.add_subtask(5, 5);
    assert_eq!(project.subtasks(5), vec![5]);
}

#[test]
fn add_resource_appends() {
    let mut project = Project::new("World domination".to_owned());
    project.add_resource(Resource::Personnel {
        person: Person::new("Sebastiano".to_owned(), "Giordano".to_owned()).unwrap(),
        hourly_rate: None,
    });
    assert_eq!(project.resources().len(), 1);
    project.add_resource(Resource::Material(Material::NonConsumable(NonConsumable::new(
        "Crowbar".to_owned(),
    ))));
    assert_eq!(project.resources().len(), 2);
    assert!(matches!(project.resources()[0], Resource::Personnel { .. }));
    assert!(matches!(project.resources()[1], Resource::Material(_)));
}

#[test]
fn add_stakeholder_appends() {
    let mut project = Project::new("World domination".to_owned());
    let person = Person::new("Margherita".to_owned(), "Hack".to_owned()).unwrap();
    project.add_stakeholder(Stakeholder::Individual { person, description: None });
    assert_eq!(project.stakeholders().len(), 1);
    assert!(matches!(project.stakeholders()[0], Stakeholder::Individual { .. }));
}

#[test]
fn project_tasks_mut_changes_tasks() {
    let mut project = Project::new("World domination".to_owned());
    project.add_task(Task::new("Become world leader".to_owned()));
    assert_eq!(project.tasks_mut().len(), 1);
    for task in project.tasks_mut() {
        task.edit_description("Soon".to_owned());
    }
    assert_eq!(project.tasks().len(), 1);
    assert_eq!(project.task(0).unwrap().description(), "Soon");
}

#[test]
fn plan_errors_have_messages() {
    assert_eq!(PlanError::HandleNotFound.message(), "task handle not found");
    assert_eq!(PlanError::EdgeNotFound.message(), "relationship not found");
    assert_eq!(PlanError::CycleDetected.message(), "the relationship would close a cycle");
    assert_eq!(PlanError::InvariantViolation.message(), "internal invariant violated");
}
