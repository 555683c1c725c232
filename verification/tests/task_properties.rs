use rusk::lexer::Lexer;
use rusk::parse::ParseError;
use rusk::task::Project;
use rusk::task::TaskProperties;
use rusk::task::TaskStatus;
use rusk::task_prop_parser::TaskPropertyParser;

fn from_string(value: &str) -> TaskProperties {
    let lexer = Lexer::new(value.to_owned());
    let mut parser = TaskPropertyParser::new(lexer);
    parser.parse_task_properties().unwrap()
}

#[test]
fn test_task_properties_parser() {
    let mut tp = from_string("a new task summary");
    assert_eq!(
        tp,
        TaskProperties {
            summary: Some("a new task summary".to_owned()),
            tags_remove: None,
            tags_add: None,
            status: None,
            annotation: None,
            project: None,
        }
    );
    tp.set_annotation("foo".to_owned());
    assert_eq!(
        tp,
        TaskProperties {
            summary: Some("a new task summary".to_owned()),
            tags_remove: None,
            tags_add: None,
            status: None,
            annotation: Some("foo".to_owned()),
            project: None,
        }
    );

    let tp = from_string("a new task summ(ary status:completed");
    assert_eq!(
        tp,
        TaskProperties {
            summary: Some("a new task summ(ary".to_owned()),
            tags_remove: None,
            tags_add: None,
            status: Some(TaskStatus::Completed),
            annotation: None,
            project: None,
        }
    );

    let tp = from_string("a new task summ(\tary status:  pending project: p.a.b.c");
    assert_eq!(
        tp,
        TaskProperties {
            summary: Some("a new task summ(\tary".to_owned()),
            tags_remove: None,
            tags_add: None,
            status: Some(TaskStatus::Pending),
            annotation: None,
            project: Some(Project {
                name: "p.a.b.c".to_string()
            }),
        }
    );

    let tp = from_string("a new task -main summary +foo proj: proj.a.b.c");
    assert_eq!(
        tp,
        TaskProperties {
            summary: Some("a new task summary".to_owned()),
            tags_remove: Some(vec!["main".to_owned()]),
            tags_add: Some(vec!["foo".to_owned()]),
            status: None,
            annotation: None,
            project: Some(Project {
                name: "proj.a.b.c".to_string()
            }),
        }
    );

    let tp = from_string("");
    assert_eq!(tp, TaskProperties::default());
}

#[test]
fn property_parser_rejects_unknown_status() {
    let lexer = Lexer::new("status:later".to_owned());
    let mut parser = TaskPropertyParser::new(lexer);
    assert_eq!(
        parser.parse_task_properties(),
        Err(ParseError::UnknownStatus)
    );
}

#[test]
fn property_parser_rejects_dangling_status() {
    let lexer = Lexer::new("some words status:".to_owned());
    let mut parser = TaskPropertyParser::new(lexer);
    assert_eq!(parser.parse_task_properties(), Err(ParseError::ExpectedTerm));
}

#[test]
fn property_parser_deduplicates_tags() {
    let tp = from_string("+foo +bar +foo -foo -foo");
    assert_eq!(tp.tags_add, Some(vec!["foo".to_owned(), "bar".to_owned()]));
    assert_eq!(tp.tags_remove, Some(vec!["foo".to_owned()]));
    assert_eq!(tp.summary, None);
}

#[test]
fn property_parser_reads_status_case_insensitively() {
    let tp = from_string("status:Completed");
    assert_eq!(tp.status, Some(TaskStatus::Completed));
    let tp = from_string("status:DELETED");
    assert_eq!(tp.status, Some(TaskStatus::Deleted));
}
