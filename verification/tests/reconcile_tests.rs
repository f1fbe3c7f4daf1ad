use pacdef::backend::{Backend, BackendError, BackendKind};
use pacdef::collect::{get_missing_packages, get_unmanaged_packages};
use pacdef::group::{Declaration, Group};
use pacdef::session::{
    outcome_after_execution, step_after_collection, step_after_confirmation, Action, RunOutcome,
    Step,
};
use pacdef::todo::ToDoPerBackend;

fn names(v: &[&str]) -> Vec<String> {
    v.iter().map(|s| s.to_string()).collect()
}

fn group(name: &str, section: &str, packages: &[&str]) -> Group {
    Group {
        name: name.to_string(),
        entries: packages
            .iter()
            .map(|p| Declaration { section: section.to_string(), package: p.to_string() })
            .collect(),
    }
}

fn loaded(kind: BackendKind, groups: &Vec<Group>) -> Backend {
    let mut b = Backend::new(kind);
    b.load(groups);
    b
}

#[test]
fn nothing_to_do_judgement() {
    let groups = vec![group("base", "pkg", &["vim"])];
    let mut todo = ToDoPerBackend::new();
    assert!(todo.is_empty());
    assert!(todo.nothing_to_do_for_all_backends());
    todo.push((loaded(BackendKind::Pkg, &groups), names(&[])));
    assert!(!todo.is_empty());
    assert!(todo.nothing_to_do_for_all_backends());
    todo.push((loaded(BackendKind::Lang, &groups), names(&["vim"])));
    assert!(!todo.nothing_to_do_for_all_backends());
}

#[test]
fn summary_skips_empty_entries() {
    let groups = vec![group("base", "pkg", &["vim"])];
    let mut todo = ToDoPerBackend::new();
    todo.push((loaded(BackendKind::Pkg, &groups), names(&["vim"])));
    todo.push((loaded(BackendKind::Lang, &groups), names(&[])));
    assert!(!todo.nothing_to_do_for_all_backends());
    let summary = todo.render_summary();
    assert_eq!(summary.len(), 1);
    assert_eq!(summary[0].kind, BackendKind::Pkg);
    assert_eq!(summary[0].section, "pkg");
    assert_eq!(summary[0].packages, names(&["vim"]));
}

#[test]
fn collection_covers_all_backends() {
    let groups = vec![group("base", "pkg", &["vim", "git"]), group("dev", "lang", &["serde"])];
    let outcomes = vec![Ok(names(&["git"])), Ok(names(&[]))];
    let r = get_missing_packages(&groups, &outcomes);
    assert!(r.warnings.is_empty());
    assert_eq!(r.todo.entries.len(), 2);
    assert_eq!(r.todo.entries[0].0.kind, BackendKind::Pkg);
    assert_eq!(r.todo.entries[0].1, names(&["vim"]));
    assert_eq!(r.todo.entries[1].0.kind, BackendKind::Lang);
    assert_eq!(r.todo.entries[1].1, names(&["serde"]));
}

#[test]
fn one_failing_backend_is_isolated() {
    let groups = vec![group("base", "pkg", &["vim"]), group("dev", "lang", &["serde"])];
    let outcomes = vec![Err(BackendError::QueryFailure), Ok(names(&[]))];
    let r = get_missing_packages(&groups, &outcomes);
    assert_eq!(r.todo.entries.len(), 1);
    assert_eq!(r.todo.entries[0].0.kind, BackendKind::Lang);
    assert_eq!(r.todo.entries[0].1, names(&["serde"]));
    assert_eq!(r.warnings.len(), 1);
    assert_eq!(r.warnings[0].kind, BackendKind::Pkg);
    assert_eq!(r.warnings[0].section, "pkg");
    assert_eq!(r.warnings[0].error, BackendError::QueryFailure);
}

#[test]
fn failing_backend_isolated_in_unmanaged_pass() {
    let groups = vec![group("base", "pkg", &["vim"]), group("dev", "lang", &["serde"])];
    let outcomes = vec![Ok(names(&["zsh", "vim"])), Err(BackendError::Unavailable)];
    let r = get_unmanaged_packages(&groups, &outcomes);
    assert_eq!(r.todo.entries.len(), 1);
    assert_eq!(r.todo.entries[0].0.kind, BackendKind::Pkg);
    assert_eq!(r.todo.entries[0].1, names(&["zsh"]));
    assert_eq!(r.warnings.len(), 1);
    assert_eq!(r.warnings[0].kind, BackendKind::Lang);
    assert_eq!(r.warnings[0].section, "lang");
    assert_eq!(r.warnings[0].error, BackendError::Unavailable);
}

#[test]
fn collection_is_repeatable() {
    let groups = vec![group("base", "pkg", &["vim"]), group("dev", "lang", &["serde"])];
    let outcomes = vec![Ok(names(&["git"])), Ok(names(&["serde", "tokio"]))];
    let a = get_unmanaged_packages(&groups, &outcomes);
    let b = get_unmanaged_packages(&groups, &outcomes);
    assert_eq!(a.todo.entries.len(), b.todo.entries.len());
    for (x, y) in a.todo.entries.iter().zip(b.todo.entries.iter()) {
        assert_eq!(x.0.kind, y.0.kind);
        assert_eq!(x.0.declared, y.0.declared);
        assert_eq!(x.1, y.1);
    }
}

#[test]
fn two_backend_scenario() {
    let groups = vec![group("base", "pkg", &["vim"]), group("dev", "lang", &[])];
    let outcomes = vec![Ok(names(&[])), Ok(names(&[]))];
    let r = get_missing_packages(&groups, &outcomes);
    assert!(!r.todo.nothing_to_do_for_all_backends());
    let summary = r.todo.render_summary();
    assert_eq!(summary.len(), 1);
    assert_eq!(summary[0].section, "pkg");
    assert_eq!(summary[0].packages, names(&["vim"]));
}

#[test]
fn empty_run_stops_without_confirmation() {
    let groups: Vec<Group> = Vec::new();
    let outcomes = vec![Ok(names(&[])), Ok(names(&[]))];
    let r = get_missing_packages(&groups, &outcomes);
    assert!(r.todo.nothing_to_do_for_all_backends());
    assert_eq!(step_after_collection(&r.todo), Step::Stop(RunOutcome::NothingToDo));
    assert_eq!(r.todo.render_summary().len(), 0);
}

#[test]
fn declined_confirmation_dispatches_nothing() {
    let groups = vec![group("base", "pkg", &["vim"])];
    let outcomes = vec![Ok(names(&[])), Ok(names(&[]))];
    let before = get_missing_packages(&groups, &outcomes);
    assert_eq!(step_after_collection(&before.todo), Step::AskConfirmation);
    assert_eq!(step_after_confirmation(false), Step::Stop(RunOutcome::Declined));
    // Nothing was executed, so the same queries still give the same result.
    let after = get_missing_packages(&groups, &outcomes);
    assert_eq!(before.todo.entries.len(), after.todo.entries.len());
    for (x, y) in before.todo.entries.iter().zip(after.todo.entries.iter()) {
        assert_eq!(x.1, y.1);
    }
}

#[test]
fn confirmed_run_executes_and_reports() {
    assert_eq!(step_after_confirmation(true), Step::Execute);
    assert_eq!(outcome_after_execution(&Ok(())), RunOutcome::Completed);
    assert_eq!(outcome_after_execution(&Err(BackendError::ActionFailure)), RunOutcome::Failed);
}

#[test]
fn action_names_map_to_actions() {
    assert_eq!(Action::from_name("clean"), Some(Action::Clean));
    assert_eq!(Action::from_name("edit"), Some(Action::Edit));
    assert_eq!(Action::from_name("groups"), Some(Action::Groups));
    assert_eq!(Action::from_name("sync"), Some(Action::Sync));
    assert_eq!(Action::from_name("unmanaged"), Some(Action::Unmanaged));
    assert_eq!(Action::from_name("version"), Some(Action::Version));
    assert_eq!(Action::from_name("install"), None);
    assert_eq!(Action::from_name(""), None);
}
