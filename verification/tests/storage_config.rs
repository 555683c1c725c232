use rusk::actions::ExportTaskAction;
use rusk::actions::InfoTaskAction;
use rusk::config::Config;
use rusk::config::ReportConfig;
use rusk::config::config_file_candidates;
use rusk::storage::ActionUndo;
use rusk::storage::data_file_decision;
use rusk::storage::splice_undos;
use rusk::storage::take_last_undos;

fn undo(name: &str) -> ActionUndo {
    ActionUndo {
        action_type: name.to_owned(),
        tasks: vec![],
    }
}

fn names(v: &[ActionUndo]) -> Vec<String> {
    v.iter().map(|u| u.action_type.clone()).collect()
}

#[test]
fn take_last_undos_windows_the_log() {
    let undos = vec![undo("a"), undo("b"), undo("c")];
    assert_eq!(names(&take_last_undos(undos, 2)), vec!["b", "c"]);
    let undos = vec![undo("a"), undo("b")];
    assert_eq!(names(&take_last_undos(undos, 5)), vec!["a", "b"]);
}

#[test]
fn splice_undos_replaces_the_tail() {
    let existing = vec![undo("a"), undo("b"), undo("c")];
    let updated = vec![undo("x"), undo("y")];
    assert_eq!(names(&splice_undos(existing, 1, updated)), vec!["a", "b", "x", "y"]);

    let existing = vec![undo("a")];
    let updated = vec![undo("x")];
    assert_eq!(names(&splice_undos(existing, 3, updated)), vec!["x"]);
}

#[test]
fn data_file_decision_prefers_the_data_home() {
    assert_eq!(
        data_file_decision(
            Some("/data".to_owned()),
            Some("/home/u".to_owned()),
            "rusk-data.json",
            false,
            false,
            false,
            false,
        ),
        Some("/data/rusk/rusk-data.json".to_owned())
    );
    // When only an existing file will do, a missing candidate is skipped.
    assert_eq!(
        data_file_decision(
            Some("/data".to_owned()),
            Some("/home/u".to_owned()),
            "rusk-data.json",
            true,
            false,
            true,
            false,
        ),
        Some("/home/u/.local/share/rusk/rusk-data.json".to_owned())
    );
    assert_eq!(
        data_file_decision(None, None, "rusk-data.json", true, false, false, true),
        Some("rusk-data.json".to_owned())
    );
    assert_eq!(
        data_file_decision(None, None, "rusk-data.json", true, false, false, false),
        None
    );
    assert_eq!(
        data_file_decision(None, None, "rusk-logged-tasks.json", false, false, false, false),
        Some("rusk-logged-tasks.json".to_owned())
    );
}

#[test]
fn config_candidates_are_tried_in_order() {
    let c = config_file_candidates("/home/u", Some("/cfg"));
    assert_eq!(
        c,
        vec![
            "rusk.toml".to_owned(),
            "/cfg/rusk/config.toml".to_owned(),
            "/home/u/.config/rusk/config.toml".to_owned(),
            "/home/u/.rusk.toml".to_owned(),
        ]
    );
    let c = config_file_candidates("/home/u", None);
    assert_eq!(c[1], "/home/u/.config/rusk/config.toml".to_owned());
}

#[test]
fn default_report_config_values() {
    let r = ReportConfig::default();
    assert!(r.default);
    assert_eq!(r.filters, vec!["status:pending".to_owned()]);
    assert_eq!(
        r.columns,
        vec!["id", "uuid", "date_created", "summary", "tags"]
            .iter()
            .map(|s| s.to_string())
            .collect::<Vec<String>>()
    );
    assert_eq!(
        r.column_names,
        vec!["ID", "UUID", "Date Created", "Summary", "Tags"]
            .iter()
            .map(|s| s.to_string())
            .collect::<Vec<String>>()
    );
}

#[test]
fn config_picks_the_last_default_report() {
    let mut second = ReportConfig::default();
    second.default = false;
    let reports = vec![
        ("main".to_owned(), ReportConfig::default()),
        ("quiet".to_owned(), second),
        ("all".to_owned(), ReportConfig::default()),
    ];
    let config = Config::from_reports(reports);
    assert_eq!(config.default_report, "all".to_owned());
    assert!(config.get_report("quiet").is_some());
    assert!(!config.get_report("quiet").unwrap().default);
    assert!(config.get_report("missing").is_none());
}

#[test]
fn command_descriptions() {
    assert_eq!(
        InfoTaskAction::get_command_description(),
        "Show a list of tasks".to_owned()
    );
    assert_eq!(
        ExportTaskAction::get_command_description(),
        "Print the tasks as JSON format.\nThis is useful for scripting access to Rusk.\nBoth <filters> and <arguments> are treated as filter\n".to_owned()
    );
}
