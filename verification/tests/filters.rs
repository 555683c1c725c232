use rusk::filters::Filter;
use rusk::filters::new_empty;
use rusk::task::Task;
use rusk::task::TaskStatus;

#[test]
fn test_clone() {
    let mut f = Filter::And {
        children: vec![Filter::Text {
            value: "hey".to_owned(),
        }],
    };
    assert_eq!(&f, &f.clone());

    f = Filter::Or {
        children: vec![Filter::Text {
            value: "hey".to_owned(),
        }],
    };
    assert_eq!(&f, &f.clone());

    f = Filter::Xor {
        children: vec![Filter::Text {
            value: "hey".to_owned(),
        }],
    };
    assert_eq!(&f, &f.clone());

    f = Filter::Root {
        child: Some(Box::new(Filter::Text {
            value: "hey".to_owned(),
        })),
    };
    assert_eq!(&f, &f.clone());

    f = Filter::Root { child: None };
    assert_eq!(&f, &f.clone());

    f = Filter::Status {
        status: TaskStatus::Pending,
    };
    assert_eq!(&f, &f.clone());

    f = Filter::Text {
        value: "Hey".to_owned(),
    };
    assert_eq!(&f, &f.clone());

    f = Filter::Tag {
        present: true,
        tag_name: "main".to_owned(),
    };
    assert_eq!(&f, &f.clone());

    f = Filter::TaskId { id: 42 };
    assert_eq!(&f, &f.clone());

    f = Filter::Uuid {
        value: uuid::Uuid::new_v4().as_u128(),
    };
    assert_eq!(&f, &f.clone());
}

#[test]
fn test_task_matches_status_filter() {
    let task = Task {
        status: TaskStatus::Completed,
        ..Default::default()
    };

    let completed_filter = Filter::Status {
        status: TaskStatus::Completed,
    };

    let pending_filter = Filter::Status {
        status: TaskStatus::Pending,
    };

    let deleted_filter = Filter::Status {
        status: TaskStatus::Deleted,
    };

    let other_filter = Filter::Text {
        value: "random_stuff".to_owned(),
    };

    assert!(completed_filter.validate_task(&task));
    assert!(!pending_filter.validate_task(&task));
    assert!(!deleted_filter.validate_task(&task));
    assert!(!other_filter.validate_task(&task));

    let task = Task {
        status: TaskStatus::Pending,
        ..Default::default()
    };

    assert!(!completed_filter.validate_task(&task));
    assert!(pending_filter.validate_task(&task));
    assert!(!deleted_filter.validate_task(&task));
    assert!(!other_filter.validate_task(&task));

    let task = Task {
        status: TaskStatus::Deleted,
        ..Default::default()
    };

    assert!(!completed_filter.validate_task(&task));
    assert!(!pending_filter.validate_task(&task));
    assert!(deleted_filter.validate_task(&task));
    assert!(!other_filter.validate_task(&task));
}

#[test]
fn test_validate_task() {
    let mut t = Task {
        description: "this is a task".to_string(),
        id: Some(1),
        ..Default::default()
    };

    let f_or = Filter::Or {
        children: vec![
            Filter::Text {
                value: "task".to_owned(),
            },
            Filter::Text {
                value: "hello".to_owned(),
            },
        ],
    };
    assert!(f_or.validate_task(&t));

    let mut f_and = Filter::And { children: vec![] };
    assert!(f_and.validate_task(&t));

    let f_text = Filter::Text {
        value: "hello".to_owned(),
    };
    assert!(!f_text.validate_task(&t));

    f_and = Filter::And {
        children: vec![
            Filter::Text {
                value: "task".to_owned(),
            },
            Filter::Text {
                value: "hello".to_owned(),
            },
        ],
    };
    assert!(!f_and.validate_task(&t));

    let f_root = new_empty();
    assert!(f_root.validate_task(&t));

    let f_xor = Filter::Xor {
        children: vec![
            Filter::Text {
                value: "task".to_owned(),
            },
            Filter::Text {
                value: "hello".to_owned(),
            },
        ],
    };
    assert!(f_xor.validate_task(&t));

    t.description = "hello task!".to_string();
    assert!(!f_xor.validate_task(&t));

    f_and = Filter::And {
        children: vec![
            Filter::Text {
                value: "task".to_owned(),
            },
            Filter::TaskId { id: 1 },
        ],
    };
    assert!(f_and.validate_task(&t));

    f_and = Filter::And {
        children: vec![
            Filter::Text {
                value: "task".to_owned(),
            },
            Filter::TaskId { id: 2 },
        ],
    };
    assert!(!f_and.validate_task(&t));

    let f_uuid = Filter::Uuid {
        value: t.get_uuid(),
    };
    assert!(f_uuid.validate_task(&t));

    t.description = "this is a task".to_string();

    let f_xor = Filter::Xor {
        children: vec![
            Filter::Text {
                value: "this".to_owned(),
            },
            Filter::And {
                children: vec![
                    Filter::Text {
                        value: "task".to_owned(),
                    },
                    Filter::TaskId { id: 2 },
                ],
            },
        ],
    };
    assert!(f_xor.validate_task(&t));

    t.description = "This is a task".to_string();
    assert!(f_xor.validate_task(&t));

    t.delete();
    let f_id = Filter::TaskId { id: 0 };
    assert!(!f_id.validate_task(&t));

    t.done();
    assert!(!f_id.validate_task(&t));
}

#[test]
fn empty_combinators() {
    let t = Task::default();
    assert!(Filter::And { children: vec![] }.validate_task(&t));
    assert!(!Filter::Or { children: vec![] }.validate_task(&t));
    assert!(!Filter::Xor { children: vec![] }.validate_task(&t));
}

#[test]
fn xor_parity_concrete() {
    // Two matching children: even, no match.
    let t = Task {
        description: "alpha beta".to_string(),
        ..Default::default()
    };
    let two_true = Filter::Xor {
        children: vec![
            Filter::Text {
                value: "alpha".to_owned(),
            },
            Filter::Text {
                value: "beta".to_owned(),
            },
        ],
    };
    assert!(!two_true.validate_task(&t));

    // One matching and one failing child: odd, match.
    let one_true = Filter::Xor {
        children: vec![
            Filter::Text {
                value: "alpha".to_owned(),
            },
            Filter::Text {
                value: "missing".to_owned(),
            },
        ],
    };
    assert!(one_true.validate_task(&t));

    // Three matching children: odd, match.
    let three_true = Filter::Xor {
        children: vec![
            Filter::Text {
                value: "alpha".to_owned(),
            },
            Filter::Text {
                value: "beta".to_owned(),
            },
            Filter::Text {
                value: "a b".to_owned(),
            },
        ],
    };
    assert!(three_true.validate_task(&t));
}

#[test]
fn text_filter_is_case_insensitive() {
    let t = Task {
        description: "Hello World".to_string(),
        ..Default::default()
    };
    let f = Filter::Text {
        value: "hello".to_owned(),
    };
    assert!(f.validate_task(&t));
    let g = Filter::Text {
        value: "WORLD".to_owned(),
    };
    assert!(g.validate_task(&t));
    let h = Filter::Text {
        value: "absent".to_owned(),
    };
    assert!(!h.validate_task(&t));
}

#[test]
fn task_id_filter_ignores_finished_tasks() {
    let mut t = Task {
        id: Some(7),
        ..Default::default()
    };
    let f = Filter::TaskId { id: 7 };
    assert!(f.validate_task(&t));
    t.done();
    assert!(!f.validate_task(&t));

    let mut t2 = Task {
        id: Some(7),
        uuid: 5,
        ..Default::default()
    };
    assert!(f.validate_task(&t2));
    t2.delete();
    assert!(!f.validate_task(&t2));
}

#[test]
fn tag_filter_checks_presence() {
    let t = Task {
        tags: vec!["main".to_owned(), "urgent".to_owned()],
        ..Default::default()
    };
    assert!(Filter::Tag {
        tag_name: "main".to_owned(),
        present: true
    }
    .validate_task(&t));
    assert!(!Filter::Tag {
        tag_name: "main".to_owned(),
        present: false
    }
    .validate_task(&t));
    assert!(Filter::Tag {
        tag_name: "other".to_owned(),
        present: false
    }
    .validate_task(&t));
}

#[test]
fn cloned_filter_validates_alike() {
    let t = Task {
        description: "some words".to_string(),
        ..Default::default()
    };
    let f = Filter::Or {
        children: vec![
            Filter::Text {
                value: "words".to_owned(),
            },
            Filter::TaskId { id: 3 },
        ],
    };
    let c = f.clone();
    assert_eq!(f.validate_task(&t), c.validate_task(&t));
}
