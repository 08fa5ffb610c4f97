use create_woragis_api::composer::{compose, Overlay, ScaffoldRequest};
use create_woragis_api::path::TreePath;

#[test]
fn infra_alone_brings_ci() {
    let e = compose(false, true);
    assert!(e.ci);
    assert!(e.infra);
}

#[test]
fn nothing_asked_nothing_taken() {
    let e = compose(false, false);
    assert!(!e.ci);
    assert!(!e.infra);
}

#[test]
fn ci_alone_stays_alone() {
    let e = compose(true, false);
    assert!(e.ci);
    assert!(!e.infra);
}

#[test]
fn both_asked_both_taken() {
    let e = compose(true, true);
    assert!(e.ci);
    assert!(e.infra);
}

#[test]
fn request_keeps_the_literal_flags() {
    let r = ScaffoldRequest::new("svc", "grpc", false, true);
    assert_eq!(r.project_name, "svc");
    assert_eq!(r.template_id, "grpc");
    assert!(!r.with_ci);
    assert!(r.with_infra);
    let e = r.effective_overlays();
    assert!(e.ci && e.infra);
    let copy = r.duplicate();
    assert_eq!(copy.project_name, "svc");
    assert_eq!(copy.template_id, "grpc");
    assert!(!copy.with_ci && copy.with_infra);
}

#[test]
fn project_root_is_the_project_name() {
    let r = ScaffoldRequest::new("myapp", "rest", false, false);
    assert_eq!(r.project_root().components, vec!["myapp".to_string()]);
}

#[test]
fn sources_follow_the_layout() {
    let plain = ScaffoldRequest::new("myapp", "rest", false, false).sources();
    assert_eq!(plain.base_path.components, vec!["templates".to_string(), "rest".to_string()]);
    assert!(plain.ci_overlay_path.is_none());
    assert!(plain.infra_overlay_path.is_none());
    assert!(plain.overlays().is_empty());

    let ci = ScaffoldRequest::new("myapp", "ai-rest", true, false).sources();
    assert_eq!(ci.base_path.components, vec!["templates".to_string(), "ai-rest".to_string()]);
    assert_eq!(
        ci.ci_overlay_path.as_ref().unwrap().components,
        vec!["extras".to_string(), ".github".to_string()]
    );
    assert!(ci.infra_overlay_path.is_none());
    assert_eq!(ci.overlays(), vec![Overlay::Ci]);

    let infra = ScaffoldRequest::new("myapp", "rest", false, true).sources();
    assert_eq!(
        infra.ci_overlay_path.as_ref().unwrap().components,
        vec!["extras".to_string(), ".github".to_string()]
    );
    assert_eq!(
        infra.infra_overlay_path.as_ref().unwrap().components,
        vec!["extras".to_string(), "terraform".to_string()]
    );
    assert_eq!(infra.overlays(), vec![Overlay::Ci, Overlay::Infra]);
    let copy = infra.duplicate();
    assert_eq!(copy.overlays(), vec![Overlay::Ci, Overlay::Infra]);
    assert_eq!(copy.base_path.components, infra.base_path.components);
}

#[test]
fn tasks_come_in_order_base_ci_infra() {
    let root = TreePath::single("svc");
    let tasks = ScaffoldRequest::new("svc", "grpc", true, true).sources().tasks(&root);
    assert_eq!(tasks.len(), 3);
    assert_eq!(tasks[0].source_dir.components, vec!["templates".to_string(), "grpc".to_string()]);
    assert_eq!(tasks[0].dest_dir.components, vec!["svc".to_string()]);
    assert_eq!(tasks[1].source_dir.components, vec!["extras".to_string(), ".github".to_string()]);
    assert_eq!(tasks[1].dest_dir.components, vec!["svc".to_string(), ".github".to_string()]);
    assert_eq!(tasks[2].source_dir.components, vec!["extras".to_string(), "terraform".to_string()]);
    assert_eq!(tasks[2].dest_dir.components, vec!["svc".to_string(), "terraform".to_string()]);
    let copy = tasks[2].duplicate();
    assert_eq!(copy.source_dir.components, tasks[2].source_dir.components);
    assert_eq!(copy.dest_dir.components, tasks[2].dest_dir.components);

    let plain = ScaffoldRequest::new("svc", "grpc", false, false).sources().tasks(&root);
    assert_eq!(plain.len(), 1);
    let ci = ScaffoldRequest::new("svc", "grpc", true, false).sources().tasks(&root);
    assert_eq!(ci.len(), 2);
    assert_eq!(ci[1].dest_dir.components, vec!["svc".to_string(), ".github".to_string()]);
}
