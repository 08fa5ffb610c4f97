use create_woragis_api::composer::{Overlay, ScaffoldRequest};
use create_woragis_api::error::ScaffoldError;
use create_woragis_api::guard::check_destination;
use create_woragis_api::materializer::{CopyStep, Materializer};
use create_woragis_api::memfs::MemFs;
use create_woragis_api::orchestrator::{Action, Event, Phase, Scaffolder};
use create_woragis_api::path::TreePath;

fn started(name: &str, template: &str, ci: bool, infra: bool) -> Scaffolder {
    let mut machine = Scaffolder::new(ScaffoldRequest::new(name, template, ci, infra));
    assert_eq!(machine.phase(), Phase::Idle);
    assert!(matches!(machine.step(Event::Start), Action::Resolve(_)));
    assert_eq!(machine.phase(), Phase::Resolving);
    machine
}

fn guarded(name: &str, template: &str, ci: bool, infra: bool) -> Scaffolder {
    let mut machine = started(name, template, ci, infra);
    let action = machine.step(Event::Resolved { base: true, ci: true, infra: true });
    assert!(matches!(action, Action::CheckDestination(_)));
    assert_eq!(machine.phase(), Phase::Guarding);
    machine
}

#[test]
fn the_guard_lets_an_absent_destination_pass() {
    assert!(check_destination(false).is_ok());
    assert!(matches!(check_destination(true), Err(ScaffoldError::AlreadyExists)));
}

#[test]
fn an_idle_orchestrator_waits_for_the_start() {
    let mut machine = Scaffolder::new(ScaffoldRequest::new("myapp", "rest", false, false));
    assert!(matches!(machine.step(Event::Materialized), Action::Standby));
    assert!(matches!(machine.step(Event::Destination { exists: false }), Action::Standby));
    assert_eq!(machine.phase(), Phase::Idle);
    match machine.step(Event::Start) {
        Action::Resolve(sources) => {
            assert_eq!(sources.base_path.components, vec!["templates".to_string(), "rest".to_string()]);
            assert!(sources.ci_overlay_path.is_none());
            assert!(sources.infra_overlay_path.is_none());
        },
        other => panic!("unexpected action {:?}", other),
    }
}

#[test]
fn a_plain_scaffold_walks_through_every_phase() {
    let mut machine = guarded("myapp", "rest", false, false);
    match machine.step(Event::Destination { exists: false }) {
        Action::Materialize(task) => {
            assert_eq!(task.source_dir.components, vec!["templates".to_string(), "rest".to_string()]);
            assert_eq!(task.dest_dir.components, vec!["myapp".to_string()]);
        },
        other => panic!("unexpected action {:?}", other),
    }
    assert_eq!(machine.phase(), Phase::CopyingBase);
    match machine.step(Event::Materialized) {
        Action::Finish(result) => {
            assert_eq!(result.project_root.components, vec!["myapp".to_string()]);
            assert!(result.applied_overlays.is_empty());
        },
        other => panic!("unexpected action {:?}", other),
    }
    assert_eq!(machine.phase(), Phase::Done);
    assert!(matches!(machine.step(Event::Materialized), Action::Finish(_)));
    assert!(matches!(machine.step(Event::Start), Action::Finish(_)));
    assert_eq!(machine.phase(), Phase::Done);
}

#[test]
fn overlays_follow_the_base_ci_first() {
    let mut machine = guarded("svc", "grpc", false, true);
    assert!(matches!(machine.step(Event::Destination { exists: false }), Action::Materialize(_)));
    assert_eq!(machine.phase(), Phase::CopyingBase);
    match machine.step(Event::Materialized) {
        Action::Materialize(task) => {
            assert_eq!(task.source_dir.components, vec!["extras".to_string(), ".github".to_string()]);
            assert_eq!(task.dest_dir.components, vec!["svc".to_string(), ".github".to_string()]);
        },
        other => panic!("unexpected action {:?}", other),
    }
    assert_eq!(machine.phase(), Phase::CopyingOverlays);
    match machine.step(Event::Materialized) {
        Action::Materialize(task) => {
            assert_eq!(task.source_dir.components, vec!["extras".to_string(), "terraform".to_string()]);
            assert_eq!(task.dest_dir.components, vec!["svc".to_string(), "terraform".to_string()]);
        },
        other => panic!("unexpected action {:?}", other),
    }
    assert_eq!(machine.phase(), Phase::CopyingOverlays);
    match machine.step(Event::Materialized) {
        Action::Finish(result) => {
            assert_eq!(result.applied_overlays, vec![Overlay::Ci, Overlay::Infra])
        },
        other => panic!("unexpected action {:?}", other),
    }
    assert_eq!(machine.phase(), Phase::Done);
}

#[test]
fn an_existing_destination_ends_the_scaffold() {
    let mut machine = guarded("myapp", "rest", true, true);
    let action = machine.step(Event::Destination { exists: true });
    assert!(matches!(action, Action::Fail(ScaffoldError::AlreadyExists)));
    assert_eq!(machine.phase(), Phase::Failed);
    for event in [Event::Materialized, Event::Start, Event::Destination { exists: false }] {
        assert!(matches!(machine.step(event), Action::Fail(ScaffoldError::AlreadyExists)));
        assert_eq!(machine.phase(), Phase::Failed);
    }
}

#[test]
fn a_missing_base_is_an_unknown_template() {
    let mut machine = started("myapp", "nonexistent", true, true);
    let action = machine.step(Event::Resolved { base: false, ci: false, infra: false });
    assert!(matches!(action, Action::Fail(ScaffoldError::TemplateNotFound)));
    assert_eq!(machine.phase(), Phase::Failed);
}

#[test]
fn a_missing_overlay_is_a_missing_source() {
    let mut machine = started("myapp", "rest", true, false);
    let action = machine.step(Event::Resolved { base: true, ci: false, infra: true });
    assert!(matches!(action, Action::Fail(ScaffoldError::SourceNotFound)));

    let mut machine = started("myapp", "rest", false, true);
    let action = machine.step(Event::Resolved { base: true, ci: true, infra: false });
    assert!(matches!(action, Action::Fail(ScaffoldError::SourceNotFound)));

    let mut machine = started("myapp", "rest", false, false);
    let action = machine.step(Event::Resolved { base: true, ci: false, infra: false });
    assert!(matches!(action, Action::CheckDestination(_)));
}

#[test]
fn a_failure_is_passed_on_unchanged() {
    let mut machine = guarded("myapp", "rest", true, false);
    assert!(matches!(machine.step(Event::Destination { exists: false }), Action::Materialize(_)));
    let failure = Event::Failure(ScaffoldError::IoFailure("disk full".to_string()));
    match machine.step(failure) {
        Action::Fail(ScaffoldError::IoFailure(cause)) => assert_eq!(cause, "disk full"),
        other => panic!("unexpected action {:?}", other),
    }
    assert_eq!(machine.phase(), Phase::Failed);
    match machine.step(Event::Materialized) {
        Action::Fail(ScaffoldError::IoFailure(cause)) => assert_eq!(cause, "disk full"),
        other => panic!("unexpected action {:?}", other),
    }

    let mut machine = guarded("myapp", "rest", false, false);
    assert!(matches!(machine.step(Event::Destination { exists: false }), Action::Materialize(_)));
    let action = machine.step(Event::Failure(ScaffoldError::SourceNotFound));
    assert!(matches!(action, Action::Fail(ScaffoldError::SourceNotFound)));

    let mut machine = started("myapp", "rest", false, false);
    let failure = Event::Failure(ScaffoldError::IoFailure("permission denied".to_string()));
    assert!(matches!(machine.step(failure), Action::Fail(ScaffoldError::IoFailure(_))));
}

#[test]
fn an_event_that_answers_nothing_ends_the_scaffold() {
    let mut machine = started("myapp", "rest", false, false);
    match machine.step(Event::Materialized) {
        Action::Fail(ScaffoldError::IoFailure(cause)) => assert_eq!(cause, "unexpected event"),
        other => panic!("unexpected action {:?}", other),
    }
    let mut machine = guarded("myapp", "rest", false, false);
    assert!(matches!(machine.step(Event::Start), Action::Fail(ScaffoldError::IoFailure(_))));
    let mut machine = guarded("myapp", "rest", false, false);
    assert!(matches!(machine.step(Event::Destination { exists: false }), Action::Materialize(_)));
    let action = machine.step(Event::Resolved { base: true, ci: true, infra: true });
    assert!(matches!(action, Action::Fail(ScaffoldError::IoFailure(_))));
    assert_eq!(machine.phase(), Phase::Failed);
}

#[test]
fn errors_are_held_anew_by_duplicate() {
    let e = ScaffoldError::IoFailure("cause".to_string());
    match e.duplicate() {
        ScaffoldError::IoFailure(cause) => assert_eq!(cause, "cause"),
        other => panic!("unexpected error {:?}", other),
    }
    assert!(matches!(ScaffoldError::AlreadyExists.duplicate(), ScaffoldError::AlreadyExists));
    assert!(matches!(ScaffoldError::TemplateNotFound.duplicate(), ScaffoldError::TemplateNotFound));
    assert!(matches!(ScaffoldError::SourceNotFound.duplicate(), ScaffoldError::SourceNotFound));
    assert_eq!(ScaffoldError::TemplateNotFound.exit_code(), 1);
    assert_eq!(ScaffoldError::SourceNotFound.exit_code(), 1);
    assert_eq!(e.exit_code(), 1);
}

/// Drives orchestrator and work-list by hand, as a caller does against a
/// real file system.
#[test]
fn driven_step_by_step_the_scaffold_is_the_same() {
    let mut fs = MemFs::new();
    let mut at = TreePath::single("templates").join("rest");
    fs.create_dir_all(&at.join("src")).unwrap();
    fs.write_file(&at.join("Cargo.toml"), b"[package]".to_vec()).unwrap();
    fs.write_file(&at.join("src").join("main.rs"), b"fn main() {}".to_vec()).unwrap();
    at = TreePath::single("extras").join(".github");
    fs.create_dir_all(&at).unwrap();
    fs.write_file(&at.join("ci.yml"), b"on: push".to_vec()).unwrap();

    let mut machine = Scaffolder::new(ScaffoldRequest::new("myapp", "rest", true, false));
    let mut action = machine.step(Event::Start);
    let mut writes_before_guard = 0;
    let mut guard_passed = false;
    let result = loop {
        let event = match action {
            Action::Standby => Event::Start,
            Action::Resolve(sources) => Event::Resolved {
                base: fs.is_dir(&sources.base_path),
                ci: sources.ci_overlay_path.as_ref().map_or(false, |p| fs.is_dir(p)),
                infra: sources.infra_overlay_path.as_ref().map_or(false, |p| fs.is_dir(p)),
            },
            Action::CheckDestination(path) => {
                guard_passed = !fs.contains(&path);
                Event::Destination { exists: fs.contains(&path) }
            },
            Action::Materialize(task) => {
                if !guard_passed {
                    writes_before_guard += 1;
                }
                let mut work = Materializer::new(&task);
                loop {
                    match work.next() {
                        CopyStep::EnterDirectory { source, dest } => {
                            let entries = fs.read_dir(&source).unwrap();
                            fs.create_dir_all(&dest).unwrap();
                            work.expand(&source, &dest, &entries);
                        },
                        CopyStep::CopyFile { source, dest } => {
                            fs.create_dir_all(&dest.parent()).unwrap();
                            fs.copy_file(&source, &dest).unwrap();
                        },
                        CopyStep::Finished => break,
                    }
                }
                Event::Materialized
            },
            Action::Finish(result) => break result,
            Action::Fail(error) => panic!("unexpected failure {:?}", error),
        };
        action = machine.step(event);
    };
    assert_eq!(writes_before_guard, 0);
    assert_eq!(result.applied_overlays, vec![Overlay::Ci]);
    let root = TreePath::single("myapp");
    assert_eq!(fs.read_file(&root.join("Cargo.toml")), Some(b"[package]".to_vec()));
    assert_eq!(fs.read_file(&root.join("src").join("main.rs")), Some(b"fn main() {}".to_vec()));
    assert_eq!(fs.read_file(&root.join(".github").join("ci.yml")), Some(b"on: push".to_vec()));
}
