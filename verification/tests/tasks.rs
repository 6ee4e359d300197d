//! Tests of `Tasks`: the store of tasks, the relationship graph and the
//! replacement of whole sets of predecessors or successors.

use planter_core::error::PlanError;
use planter_core::task::Task;
use planter_core::tasks::{Tasks, TimeRelationship};

fn tasks_with(n: usize) -> Tasks {
    let tasks: Vec<Task> = (0..n).map(|i| Task::new(format!("Task {i}"))).collect();
    Tasks::new().with_tasks(tasks)
}

fn sorted(mut handles: Vec<usize>) -> Vec<usize> {
    handles.sort();
    handles
}

/// Every relationship of the first `n` handles, as sorted pairs.
fn edges(tasks: &Tasks, n: usize) -> Vec<(usize, usize)> {
    let mut found = Vec::new();
    for a in 0..n {
        for b in sorted(tasks.successors_indices(a)) {
            found.push((a, b));
        }
    }
    found
}

/// The same relationships read from the side of the successors.
fn edges_by_predecessors(tasks: &Tasks, n: usize) -> Vec<(usize, usize)> {
    let mut found = Vec::new();
    for b in 0..n {
        for a in tasks.predecessors_indices(b) {
            found.push((a, b));
        }
    }
    found.sort();
    found
}

/// Whether some task reaches itself along the relationships.
fn has_cycle(tasks: &Tasks, n: usize) -> bool {
    fn visit(tasks: &Tasks, at: usize, target: usize, seen: &mut Vec<bool>) -> bool {
        for next in tasks.successors_indices(at) {
            if next == target {
                return true;
            }
            if !seen[next] {
                seen[next] = true;
                if visit(tasks, next, target, seen) {
                    return true;
                }
            }
        }
        false
    }
    (0..n).any(|start| visit(tasks, start, start, &mut vec![false; n]))
}

#[test]
fn tasks_new_is_empty() {
    let tasks = Tasks::new();
    assert_eq!(tasks.count(), 0);
    assert!(tasks.tasks().is_empty());
    assert!(tasks.task(0).is_none());
    assert!(tasks.successors_indices(0).is_empty());
    assert!(tasks.predecessors_indices(0).is_empty());
    assert!(tasks.subtasks(0).is_empty());
}

#[test]
fn tasks_default_is_empty() {
    assert_eq!(Tasks::default().count(), 0);
}

#[test]
fn tasks_with_task_adds_a_task() {
    let tasks = Tasks::new().with_task(Task::new("Become world leader".to_owned()));
    assert_eq!(tasks.task(0).unwrap().name(), "Become world leader");
    assert_eq!(tasks.count(), 1);
}

#[test]
fn tasks_with_tasks_adds_all() {
    let task_vec =
        vec![Task::new("Become world leader".to_owned()), Task::new("Get rich".to_owned())];
    let tasks = Tasks::new().with_tasks(task_vec);
    assert_eq!(tasks.tasks().len(), 2);
    assert_eq!(tasks.tasks()[1].name(), "Get rich");
}

#[test]
fn tasks_add_task_counts() {
    let mut tasks = Tasks::new();
    assert_eq!(tasks.tasks().len(), 0);
    assert_eq!(tasks.add_task(Task::new("Become world leader".to_owned())), 0);
    assert_eq!(tasks.tasks().len(), 1);
    assert_eq!(tasks.count(), 1);
}

#[test]
fn tasks_rm_task_removes() {
    let mut tasks = Tasks::new();
    tasks.add_task(Task::new("Become world leader".to_owned()));
    assert_eq!(tasks.tasks().len(), 1);
    assert!(tasks.rm_task(0).is_ok());
    assert_eq!(tasks.tasks().len(), 0);
    assert_eq!(tasks.count(), 0);
}

#[test]
fn tasks_rm_task_unknown_handle() {
    let mut tasks = tasks_with(2);
    assert_eq!(tasks.rm_task(2), Err(PlanError::HandleNotFound));
    assert_eq!(tasks.rm_task(usize::MAX), Err(PlanError::HandleNotFound));
    assert_eq!(tasks.count(), 2);
}

#[test]
fn tasks_task_mut_edits_in_place() {
    let mut tasks = Tasks::new();
    tasks.add_task(Task::new("Become world leader".to_owned()));
    let task = tasks.task_mut(0).unwrap();
    assert_eq!(task.name(), "Become world leader");
    task.edit_name("Become world's biggest loser".to_owned());
    assert_eq!(tasks.task(0).unwrap().name(), "Become world's biggest loser");
}

#[test]
fn tasks_task_mut_of_removed_task_is_none() {
    let mut tasks = tasks_with(2);
    tasks.rm_task(1).unwrap();
    assert!(tasks.task_mut(1).is_none());
    assert!(tasks.task_mut(2).is_none());
    assert!(tasks.task_mut(0).is_some());
}

#[test]
fn tasks_add_relationship_gives_successor() {
    let mut tasks = Tasks::new();
    tasks.add_task(Task::new("Get rich".to_owned()));
    tasks.add_task(Task::new("Become world leader".to_owned()));
    tasks.add_relationship(0, 1, TimeRelationship::default()).unwrap();

    assert_eq!(tasks.successors(0)[0].name(), "Become world leader");
    assert_eq!(tasks.successors_indices(0)[0], 1);
    assert_eq!(tasks.predecessors(1)[0].name(), "Get rich");
    assert_eq!(tasks.predecessors_indices(1)[0], 0);
}

#[test]
fn tasks_remove_relationship_ends_it() {
    let mut tasks = tasks_with(2);
    tasks.add_relationship(0, 1, TimeRelationship::default()).unwrap();
    tasks.remove_relationship(0, 1).unwrap();
    assert_eq!(tasks.successors(0).len(), 0);
    assert_eq!(tasks.remove_relationship(0, 1), Err(PlanError::EdgeNotFound));
}

#[test]
fn tasks_relationship_to_task_added_later() {
    let mut tasks = tasks_with(1);
    assert_eq!(
        tasks.add_relationship(0, 1, TimeRelationship::FinishToStart),
        Err(PlanError::HandleNotFound)
    );
    assert_eq!(tasks.add_task(Task::new("Later".to_owned())), 1);
    assert_eq!(tasks.add_relationship(0, 1, TimeRelationship::FinishToStart), Ok(()));
    assert_eq!(tasks.successors_indices(0), vec![1]);
}

#[test]
fn tasks_concrete_cycle_scenario() {
    let mut tasks = Tasks::new();
    assert_eq!(tasks.add_task(Task::new("A".to_owned())), 0);
    assert_eq!(tasks.add_task(Task::new("B".to_owned())), 1);
    assert_eq!(tasks.add_task(Task::new("C".to_owned())), 2);
    assert_eq!(tasks.add_relationship(0, 1, TimeRelationship::FinishToStart), Ok(()));
    assert_eq!(tasks.add_relationship(1, 2, TimeRelationship::FinishToStart), Ok(()));
    assert_eq!(
        tasks.add_relationship(2, 0, TimeRelationship::FinishToStart),
        Err(PlanError::CycleDetected)
    );
    assert_eq!(edges(&tasks, 3), vec![(0, 1), (1, 2)]);
    assert_eq!(edges_by_predecessors(&tasks, 3), vec![(0, 1), (1, 2)]);
}

#[test]
fn tasks_stay_acyclic_after_every_successful_call() {
    let n = 6;
    let mut tasks = tasks_with(n);
    let calls: Vec<(usize, usize)> = vec![
        (0, 1), (1, 2), (2, 0), (2, 3), (3, 1), (3, 4), (4, 5), (5, 0), (5, 5), (0, 5), (1, 4),
        (4, 1), (2, 4),
    ];
    for (a, b) in calls {
        let before = edges(&tasks, n);
        match tasks.add_relationship(a, b, TimeRelationship::StartToStart) {
            Ok(()) => assert!(edges(&tasks, n).contains(&(a, b))),
            Err(e) => {
                assert_eq!(e, PlanError::CycleDetected);
                assert_eq!(edges(&tasks, n), before);
            }
        }
        assert!(!has_cycle(&tasks, n));
    }
    let lists: Vec<(usize, Vec<usize>)> =
        vec![(0, vec![4, 5]), (3, vec![0]), (2, vec![5, 1]), (5, vec![]), (1, vec![0, 3, 5])];
    for (t, list) in lists {
        let before = edges(&tasks, n);
        if tasks.update_predecessors(t, &list).is_err() {
            assert_eq!(edges(&tasks, n), before);
        }
        assert!(!has_cycle(&tasks, n));
        let before = edges(&tasks, n);
        if tasks.update_successors(t, &list).is_err() {
            assert_eq!(edges(&tasks, n), before);
        }
        assert!(!has_cycle(&tasks, n));
    }
}

#[test]
fn tasks_failed_replace_changes_nothing() {
    let n = 5;
    let mut tasks = tasks_with(n);
    tasks.add_relationship(0, 1, TimeRelationship::StartToStart).unwrap();
    tasks.add_relationship(1, 2, TimeRelationship::FinishToFinish).unwrap();
    tasks.add_relationship(3, 1, TimeRelationship::StartToFinish).unwrap();
    let before = edges(&tasks, n);
    let before_by_predecessors = edges_by_predecessors(&tasks, n);

    // 2 is reached from 1: the second handle of the list closes a cycle.
    assert_eq!(tasks.update_predecessors(1, &[4, 2]), Err(PlanError::CycleDetected));
    assert_eq!(edges(&tasks, n), before);
    assert_eq!(edges_by_predecessors(&tasks, n), before_by_predecessors);

    // The last handle of the list was never issued.
    assert_eq!(tasks.update_predecessors(1, &[4, 0, 5]), Err(PlanError::HandleNotFound));
    assert_eq!(edges(&tasks, n), before);

    assert_eq!(tasks.update_successors(1, &[4, 0]), Err(PlanError::CycleDetected));
    assert_eq!(edges(&tasks, n), before);
    assert_eq!(tasks.update_successors(1, &[9]), Err(PlanError::HandleNotFound));
    assert_eq!(edges(&tasks, n), before);
    assert_eq!(edges_by_predecessors(&tasks, n), before_by_predecessors);
}

#[test]
fn tasks_replace_twice_is_replace_once() {
    let n = 5;
    let mut tasks = tasks_with(n);
    tasks.add_relationship(0, 4, TimeRelationship::StartToStart).unwrap();
    tasks.add_relationship(4, 2, TimeRelationship::StartToStart).unwrap();
    assert_eq!(tasks.update_predecessors(4, &[1, 3]), Ok(()));
    let once = edges(&tasks, n);
    assert_eq!(tasks.update_predecessors(4, &[1, 3]), Ok(()));
    assert_eq!(edges(&tasks, n), once);
    assert_eq!(sorted(tasks.predecessors_indices(4)), vec![1, 3]);

    assert_eq!(tasks.update_successors(4, &[2, 0]), Ok(()));
    let once = edges(&tasks, n);
    assert_eq!(tasks.update_successors(4, &[2, 0]), Ok(()));
    assert_eq!(edges(&tasks, n), once);
}

#[test]
fn tasks_replace_is_exact_and_collapses_duplicates() {
    let n = 6;
    let mut tasks = tasks_with(n);
    tasks.add_relationship(0, 3, TimeRelationship::StartToStart).unwrap();
    tasks.add_relationship(1, 3, TimeRelationship::FinishToFinish).unwrap();
    tasks.add_relationship(3, 5, TimeRelationship::FinishToFinish).unwrap();
    tasks.add_relationship(1, 5, TimeRelationship::FinishToFinish).unwrap();

    assert_eq!(tasks.update_predecessors(3, &[2, 1, 2, 4, 1, 2]), Ok(()));
    assert_eq!(sorted(tasks.predecessors_indices(3)), vec![1, 2, 4]);
    assert_eq!(tasks.predecessors(3).len(), 3);
    // Relationships that do not lead to task 3 stand as they were.
    assert_eq!(edges(&tasks, n), vec![(1, 3), (1, 5), (2, 3), (3, 5), (4, 3)]);

    assert_eq!(tasks.update_successors(1, &[0, 0]), Ok(()));
    assert_eq!(tasks.successors_indices(1), vec![0]);
    assert_eq!(edges(&tasks, n), vec![(1, 0), (2, 3), (3, 5), (4, 3)]);
}

#[test]
fn tasks_replace_with_empty_list_clears() {
    let mut tasks = tasks_with(4);
    tasks.update_predecessors(3, &[0, 1, 2]).unwrap();
    assert_eq!(tasks.update_predecessors(3, &[]), Ok(()));
    assert!(tasks.predecessors_indices(3).is_empty());
    tasks.update_successors(0, &[1, 2, 3]).unwrap();
    assert_eq!(tasks.update_successors(0, &[]), Ok(()));
    assert!(tasks.successors_indices(0).is_empty());
    // A task without relationships can be cleared too.
    assert_eq!(tasks.update_predecessors(1, &[]), Ok(()));
    assert_eq!(edges(&tasks, 4), vec![]);
}

#[test]
fn tasks_replace_with_itself_is_a_cycle() {
    let mut tasks = tasks_with(3);
    tasks.add_relationship(0, 1, TimeRelationship::FinishToStart).unwrap();
    assert_eq!(tasks.update_predecessors(1, &[1]), Err(PlanError::CycleDetected));
    assert_eq!(tasks.update_predecessors(1, &[2, 1]), Err(PlanError::CycleDetected));
    assert_eq!(tasks.update_successors(1, &[1]), Err(PlanError::CycleDetected));
    assert_eq!(edges(&tasks, 3), vec![(0, 1)]);
}

#[test]
fn tasks_replace_keeps_old_predecessor_that_is_listed_again() {
    let mut tasks = tasks_with(4);
    tasks.add_relationship(0, 2, TimeRelationship::StartToStart).unwrap();
    tasks.add_relationship(1, 2, TimeRelationship::StartToStart).unwrap();
    assert_eq!(tasks.update_predecessors(2, &[1, 3]), Ok(()));
    assert_eq!(sorted(tasks.predecessors_indices(2)), vec![1, 3]);
    assert!(tasks.successors_indices(0).is_empty());
}

#[test]
fn tasks_replace_rejects_unknown_and_removed_handles() {
    let mut tasks = tasks_with(4);
    tasks.add_relationship(0, 1, TimeRelationship::StartToStart).unwrap();
    // Never issued.
    assert_eq!(tasks.update_predecessors(1, &[4]), Err(PlanError::HandleNotFound));
    assert_eq!(tasks.predecessors_indices(1), vec![0]);
    // Removed.
    tasks.rm_task(3).unwrap();
    assert_eq!(tasks.update_predecessors(1, &[3]), Err(PlanError::HandleNotFound));
    assert_eq!(tasks.update_predecessors(1, &[2, 3]), Err(PlanError::HandleNotFound));
    assert_eq!(tasks.update_predecessors(3, &[2]), Err(PlanError::HandleNotFound));
    assert_eq!(tasks.predecessors_indices(1), vec![0]);
    assert_eq!(tasks.update_successors(0, &[3]), Err(PlanError::HandleNotFound));
    assert_eq!(tasks.successors_indices(0), vec![1]);
    // A later task does not take the handle over.
    assert_eq!(tasks.add_task(Task::new("Later".to_owned())), 4);
    assert_eq!(tasks.update_predecessors(1, &[3]), Err(PlanError::HandleNotFound));
    assert_eq!(tasks.update_predecessors(1, &[4]), Ok(()));
    assert_eq!(tasks.predecessors_indices(1), vec![4]);
}

#[test]
fn tasks_removal_cascades() {
    let n = 5;
    let mut tasks = tasks_with(n);
    tasks.add_relationship(0, 2, TimeRelationship::StartToStart).unwrap();
    tasks.add_relationship(1, 2, TimeRelationship::StartToStart).unwrap();
    tasks.add_relationship(2, 3, TimeRelationship::StartToStart).unwrap();
    tasks.add_relationship(2, 4, TimeRelationship::StartToStart).unwrap();
    tasks.add_relationship(0, 4, TimeRelationship::StartToStart).unwrap();
    tasks.add_relationship(3, 4, TimeRelationship::StartToStart).unwrap();

    assert_eq!(tasks.rm_task(2), Ok(()));
    for x in 0..n {
        assert!(!tasks.successors_indices(x).contains(&2));
        assert!(!tasks.predecessors_indices(x).contains(&2));
    }
    assert!(tasks.successors_indices(2).is_empty());
    assert!(tasks.predecessors_indices(2).is_empty());
    assert_eq!(edges(&tasks, n), vec![(0, 4), (3, 4)]);
    assert_eq!(edges_by_predecessors(&tasks, n), vec![(0, 4), (3, 4)]);
    assert_eq!(tasks.count(), 4);
    // What the removed task stood between is no longer connected through it.
    assert_eq!(tasks.add_relationship(3, 0, TimeRelationship::StartToStart), Ok(()));
    assert_eq!(
        tasks.add_relationship(2, 0, TimeRelationship::StartToStart),
        Err(PlanError::HandleNotFound)
    );
}

#[test]
fn tasks_subtasks() {
    let task_vec = vec![
        Task::new("Become world leader".to_owned()),
        Task::new("Get rich".to_owned()),
        Task::new("Be evil".to_owned()),
    ];
    let mut tasks = Tasks::new().with_tasks(task_vec);
    tasks.add_subtask(0, 1);
    tasks.add_subtask(0, 2);
    assert_eq!(tasks.subtasks(0).len(), 2);
    assert_eq!(tasks.subtasks(0), vec![1, 2]);
    // Removing a task leaves the subtask pairs as they are.
    tasks.rm_task(1).unwrap();
    assert_eq!(tasks.subtasks(0), vec![1, 2]);
}

#[test]
fn tasks_update_predecessors_counts_two() {
    let mut tasks = tasks_with(3);
    tasks.update_predecessors(2, &[0, 1]).unwrap();
    assert_eq!(tasks.predecessors(2).len(), 2);
}

#[test]
fn tasks_update_successors_counts_two() {
    let mut tasks = tasks_with(3);
    tasks.update_successors(0, &[1, 2]).unwrap();
    assert_eq!(tasks.successors(0).len(), 2);
}

#[test]
fn tasks_long_chain_rejects_closing_edge() {
    let n = 100;
    let mut tasks = tasks_with(n);
    for current in 1..n {
        tasks.update_successors(current - 1, &[current]).unwrap();
    }
    assert_eq!(tasks.update_predecessors(0, &[n - 1]), Err(PlanError::CycleDetected));
    assert_eq!(tasks.update_successors(n - 1, &[0]), Err(PlanError::CycleDetected));
    assert_eq!(tasks.update_successors(n - 1, &[n - 1]), Err(PlanError::CycleDetected));
    assert!(!has_cycle(&tasks, n));
    assert_eq!(edges(&tasks, n).len(), n - 1);
}

#[test]
fn tasks_mut_lends_every_task_that_exists() {
    let mut tasks = tasks_with(4);
    tasks.rm_task(1).unwrap();
    tasks.add_relationship(0, 3, TimeRelationship::FinishToStart).unwrap();
    {
        let mut lent = tasks.tasks_mut();
        assert_eq!(lent.len(), 3);
        assert_eq!(lent[0].name(), "Task 0");
        assert_eq!(lent[1].name(), "Task 2");
        assert_eq!(lent[2].name(), "Task 3");
        lent[1].edit_name("Changed".to_owned());
        for task in lent {
            task.toggle_completed();
        }
    }
    assert_eq!(tasks.task(2).unwrap().name(), "Changed");
    assert_eq!(tasks.task(0).unwrap().name(), "Task 0");
    assert!(tasks.task(1).is_none());
    assert!(tasks.tasks().iter().all(|task| task.completed()));
    assert_eq!(tasks.successors_indices(0), vec![3]);
    assert_eq!(tasks.count(), 3);
}

#[test]
fn tasks_mut_of_empty_is_empty() {
    let mut tasks = Tasks::new();
    assert_eq!(tasks.tasks_mut().len(), 0);
}
