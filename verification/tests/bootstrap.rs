use axumate::commands::new::{create_new_project, Action, COMMANDS};
use axumate::commands::templates::new_templates::main_template;

fn run_args(action: Action) -> (Vec<String>, bool) {
    match action {
        Action::Run { args, in_project } => (args, in_project),
        _ => panic!("a command was expected"),
    }
}

fn strings(v: &[&str]) -> Vec<String> {
    v.iter().map(|s| s.to_string()).collect()
}

#[test]
fn the_project_is_made_first() {
    for ok in [true, false] {
        let (args, in_project) = run_args(create_new_project("shop".to_string(), 0, ok));
        assert_eq!(args, strings(&["new", "shop"]));
        assert!(!in_project);
    }
}

#[test]
fn then_each_dependency_is_added() {
    let wanted: [&[&str]; 4] = [
        &["add", "axum"],
        &["add", "tokio@1", "--features", "full"],
        &["add", "once_cell"],
        &["add", "serde", "--features", "derive"],
    ];
    assert_eq!(COMMANDS, 5);
    for k in 1..COMMANDS {
        let (args, in_project) = run_args(create_new_project("shop".to_string(), k, true));
        assert_eq!(args, strings(wanted[k - 1]));
        assert!(in_project);
    }
}

#[test]
fn the_composition_root_is_written_last() {
    match create_new_project("shop".to_string(), 5, true) {
        Action::Write { path, content } => {
            assert_eq!(path, "shop/src/main.rs");
            assert_eq!(content, main_template("shop"));
        }
        _ => panic!("a write was expected"),
    }
    assert!(matches!(create_new_project("shop".to_string(), 6, true), Action::Finish));
    assert!(matches!(create_new_project("shop".to_string(), 6, false), Action::Finish));
    assert!(matches!(create_new_project("shop".to_string(), 60, true), Action::Finish));
}

#[test]
fn a_failed_command_ends_it() {
    let wanted = [
        "Failed to create new Cargo project",
        "Failed to add dependency: axum",
        "Failed to add dependency: tokio@1 --features full",
        "Failed to add dependency: once_cell",
        "Failed to add dependency: serde --features derive",
    ];
    for done in 1..=5 {
        match create_new_project("shop".to_string(), done, false) {
            Action::Abort { message } => assert_eq!(message, wanted[done - 1]),
            _ => panic!("an abort was expected"),
        }
    }
}

#[test]
fn nothing_is_written_before_every_command_has_run() {
    for done in 0..5 {
        for ok in [true, false] {
            let action = create_new_project("shop".to_string(), done, ok);
            assert!(!matches!(action, Action::Write { .. }));
        }
    }
}
