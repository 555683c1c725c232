use rusk::filters::Filter;
use rusk::manager::DependsOnIdentifier;
use rusk::manager::ResolutionError;
use rusk::manager::TaskData;
use rusk::task::Task;
use rusk::task::TaskStatus;

fn task(uuid: u128, status: TaskStatus) -> Task {
    Task {
        uuid,
        status,
        ..Default::default()
    }
}

#[test]
fn test_task_data_get_pending_count() {
    let mut task_data = TaskData::default();
    task_data.set_task(task(1, TaskStatus::Pending));
    task_data.set_task(task(2, TaskStatus::Completed));
    task_data.set_task(task(3, TaskStatus::Pending));

    assert_eq!(task_data.get_pending_count(), 2);
}

#[test]
fn set_task_replaces_by_uuid() {
    let mut data = TaskData::default();
    data.set_task(task(1, TaskStatus::Pending));
    data.set_task(task(1, TaskStatus::Completed));
    assert_eq!(data.task_list().len(), 1);
    assert!(matches!(data.task_list()[0].status, TaskStatus::Completed));
}

#[test]
fn upkeep_assigns_and_clears_ids() {
    let mut data = TaskData::default();
    data.set_task(task(1, TaskStatus::Pending));
    data.set_task(Task {
        uuid: 2,
        status: TaskStatus::Completed,
        id: Some(9),
        ..Default::default()
    });
    data.set_task(task(3, TaskStatus::Pending));
    data.upkeep();

    let tasks = data.task_list();
    assert_eq!(tasks[0].get_id(), Some(1));
    assert_eq!(tasks[1].get_id(), None);
    assert_eq!(tasks[2].get_id(), Some(2));
}

#[test]
fn upkeep_keeps_a_good_assignment() {
    let mut data = TaskData::default();
    data.set_task(Task {
        uuid: 1,
        status: TaskStatus::Pending,
        id: Some(4),
        ..Default::default()
    });
    data.set_task(Task {
        uuid: 2,
        status: TaskStatus::Pending,
        id: Some(2),
        ..Default::default()
    });
    data.upkeep();
    let tasks = data.task_list();
    assert_eq!(tasks[0].get_id(), Some(4));
    assert_eq!(tasks[1].get_id(), Some(2));
}

#[test]
fn upkeep_reuses_a_freed_id() {
    let mut data = TaskData::default();
    data.set_task(Task {
        uuid: 1,
        status: TaskStatus::Pending,
        id: Some(1),
        ..Default::default()
    });
    let mut done = Task {
        uuid: 2,
        status: TaskStatus::Pending,
        id: Some(2),
        ..Default::default()
    };
    done.done();
    data.set_task(done);
    data.set_task(task(3, TaskStatus::Pending));
    data.upkeep();
    let tasks = data.task_list();
    assert_eq!(tasks[0].get_id(), Some(1));
    assert_eq!(tasks[1].get_id(), None);
    // The id that the completed task gave up is the smallest unused one.
    assert_eq!(tasks[2].get_id(), Some(2));
}

#[test]
fn id_resolution() {
    let mut data = TaskData::default();
    data.set_task(task(10, TaskStatus::Pending));
    data.set_task(task(20, TaskStatus::Pending));
    data.upkeep();

    assert_eq!(data.id_to_uuid(1), Some(10));
    assert_eq!(data.id_to_uuid(2), Some(20));
    assert_eq!(data.id_to_uuid(3), None);

    assert_eq!(
        data.resolve_reference(&DependsOnIdentifier::Usize(2)),
        Ok(20)
    );
    assert_eq!(
        data.resolve_reference(&DependsOnIdentifier::Usize(9)),
        Err(ResolutionError::UnknownId(9))
    );
    assert_eq!(
        data.resolve_reference(&DependsOnIdentifier::Uuid(10)),
        Ok(10)
    );
    assert_eq!(
        data.resolve_reference(&DependsOnIdentifier::Uuid(99)),
        Err(ResolutionError::UnknownUuid(99))
    );
}

#[test]
fn dependency_closure_pulls_in_referenced_tasks() {
    let mut data = TaskData::default();
    data.set_task(Task {
        uuid: 1,
        description: "task a".to_string(),
        sub: vec![2],
        ..Default::default()
    });
    data.set_task(Task {
        uuid: 2,
        description: "task b".to_string(),
        ..Default::default()
    });
    data.set_task(Task {
        uuid: 3,
        description: "task c".to_string(),
        ..Default::default()
    });

    // The predicate matches only task a, which depends on task b.
    let f = Filter::Text {
        value: "task a".to_owned(),
    };
    let out = data.select_with_dependencies(&f).unwrap();
    let uuids: Vec<u128> = out.task_list().iter().map(|t| t.get_uuid()).collect();
    assert!(uuids.contains(&1));
    assert!(uuids.contains(&2));
    assert!(!uuids.contains(&3));
}

#[test]
fn dependency_closure_reports_a_stale_reference() {
    let mut data = TaskData::default();
    data.set_task(Task {
        uuid: 1,
        description: "task a".to_string(),
        sub: vec![42],
        ..Default::default()
    });
    let f = Filter::Text {
        value: "task a".to_owned(),
    };
    assert_eq!(
        data.select_with_dependencies(&f),
        Err(ResolutionError::UnknownUuid(42))
    );
}

#[test]
fn filter_keeps_only_matching_tasks() {
    let mut data = TaskData::default();
    data.set_task(task(1, TaskStatus::Pending));
    data.set_task(task(2, TaskStatus::Completed));
    data.set_task(task(3, TaskStatus::Pending));
    let f = Filter::Status {
        status: TaskStatus::Pending,
    };
    let out = data.filter(&f);
    let uuids: Vec<u128> = out.task_list().iter().map(|t| t.get_uuid()).collect();
    assert_eq!(uuids, vec![1, 3]);
}
