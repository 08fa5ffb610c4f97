use create_woragis_api::composer::{Overlay, ScaffoldRequest};
use create_woragis_api::engine::scaffold_in;
use create_woragis_api::error::ScaffoldError;
use create_woragis_api::memfs::MemFs;
use create_woragis_api::path::TreePath;

fn p(parts: &[&str]) -> TreePath {
    let mut path = TreePath::root();
    for part in parts {
        path = path.join(part);
    }
    path
}

fn put(fs: &mut MemFs, file: &[&str], bytes: &[u8]) {
    fs.create_dir_all(&p(file).parent()).unwrap();
    fs.write_file(&p(file), bytes.to_vec()).unwrap();
}

fn names(fs: &MemFs, dir: &[&str]) -> Vec<String> {
    let mut out: Vec<String> = Vec::new();
    for e in fs.read_dir(&p(dir)).unwrap() {
        out.push(e.name);
    }
    out.sort();
    out
}

fn bytes(fs: &MemFs, file: &[&str]) -> Vec<u8> {
    fs.read_file(&p(file)).unwrap()
}

/// Every path below `dir`, relative to it, with the bytes of each file.
fn tree(fs: &MemFs, dir: &TreePath) -> Vec<(Vec<String>, Option<Vec<u8>>)> {
    let mut out: Vec<(Vec<String>, Option<Vec<u8>>)> = Vec::new();
    let mut todo: Vec<TreePath> = vec![dir.duplicate()];
    while let Some(d) = todo.pop() {
        for e in fs.read_dir(&d).unwrap() {
            let child = d.join(&e.name);
            let rel: Vec<String> = child.components[dir.len()..].to_vec();
            if e.is_dir {
                out.push((rel, None));
                todo.push(child);
            } else {
                out.push((rel, Some(fs.read_file(&child).unwrap())));
            }
        }
    }
    out.sort();
    out
}

fn world() -> MemFs {
    let mut fs = MemFs::new();
    put(&mut fs, &["templates", "rest", "Cargo.toml"], b"[package]\nname = \"rest\"\n");
    put(&mut fs, &["templates", "rest", "src", "main.rs"], b"fn main() {}\n");
    put(&mut fs, &["templates", "rest", "src", "routes", "auth.rs"], &[0, 159, 146, 150, 255]);
    put(&mut fs, &["templates", "rest", "README.md"], b"");
    fs.create_dir_all(&p(&["templates", "rest", "migrations"])).unwrap();
    put(&mut fs, &["templates", "grpc", "build.rs"], b"fn main() { tonic_build(); }\n");
    put(&mut fs, &["templates", "grpc", "proto", "service.proto"], b"syntax = \"proto3\";\n");
    put(&mut fs, &["extras", ".github", "workflows", "ci.yml"], b"on: push\n");
    put(&mut fs, &["extras", "terraform", "main.tf"], b"terraform {}\n");
    put(&mut fs, &["extras", "terraform", "modules", "db", "main.tf"], b"resource {}\n");
    fs
}

#[test]
fn plain_scaffold() {
    let mut fs = world();
    let before = tree(&fs, &TreePath::root());
    let made = scaffold_in(&mut fs, &ScaffoldRequest::new("myapp", "rest", false, false)).unwrap();
    assert_eq!(made.project_root.components, vec!["myapp".to_string()]);
    assert!(made.applied_overlays.is_empty());
    assert_eq!(tree(&fs, &p(&["myapp"])), tree(&fs, &p(&["templates", "rest"])));
    assert_eq!(names(&fs, &["myapp"]), vec!["Cargo.toml", "README.md", "migrations", "src"]);
    assert_eq!(bytes(&fs, &["myapp", "Cargo.toml"]), b"[package]\nname = \"rest\"\n".to_vec());
    assert_eq!(bytes(&fs, &["myapp", "src", "routes", "auth.rs"]), vec![0, 159, 146, 150, 255]);
    assert_eq!(bytes(&fs, &["myapp", "README.md"]), Vec::<u8>::new());
    assert!(fs.is_dir(&p(&["myapp", "migrations"])));
    assert!(!fs.contains(&p(&["myapp", ".github"])));
    assert!(!fs.contains(&p(&["myapp", "terraform"])));
    assert_eq!(tree(&fs, &p(&["templates"])), {
        let mut fresh = world();
        fresh.create_dir_all(&TreePath::root()).unwrap();
        tree(&fresh, &p(&["templates"]))
    });
    let after = tree(&fs, &TreePath::root());
    assert_eq!(after.len(), before.len() + 1 + tree(&fs, &p(&["templates", "rest"])).len());
}

#[test]
fn conflict() {
    let mut fs = world();
    fs.create_dir_all(&p(&["myapp"])).unwrap();
    let before = tree(&fs, &TreePath::root());
    let refused = scaffold_in(&mut fs, &ScaffoldRequest::new("myapp", "rest", false, false));
    let error = refused.unwrap_err();
    assert!(matches!(error, ScaffoldError::AlreadyExists));
    assert_eq!(error.exit_code(), 1);
    assert!(names(&fs, &["myapp"]).is_empty());
    assert_eq!(tree(&fs, &TreePath::root()), before);
}

#[test]
fn conflict_with_a_file_at_the_destination() {
    let mut fs = world();
    put(&mut fs, &["myapp"], b"not a directory");
    let before = tree(&fs, &TreePath::root());
    let refused = scaffold_in(&mut fs, &ScaffoldRequest::new("myapp", "rest", true, true));
    assert!(matches!(refused, Err(ScaffoldError::AlreadyExists)));
    assert_eq!(bytes(&fs, &["myapp"]), b"not a directory".to_vec());
    assert_eq!(tree(&fs, &TreePath::root()), before);
}

#[test]
fn existing_content_is_left_byte_for_byte() {
    let mut fs = world();
    put(&mut fs, &["myapp", "src", "main.rs"], b"my own work");
    put(&mut fs, &["myapp", "notes.txt"], &[1, 2, 3]);
    let before = tree(&fs, &TreePath::root());
    for (ci, infra) in [(false, false), (true, false), (false, true), (true, true)] {
        let refused = scaffold_in(&mut fs, &ScaffoldRequest::new("myapp", "rest", ci, infra));
        assert!(matches!(refused, Err(ScaffoldError::AlreadyExists)));
        assert_eq!(tree(&fs, &TreePath::root()), before);
    }
    assert_eq!(bytes(&fs, &["myapp", "src", "main.rs"]), b"my own work".to_vec());
}

#[test]
fn infra_implies_ci() {
    let mut fs = world();
    let made = scaffold_in(&mut fs, &ScaffoldRequest::new("svc", "grpc", false, true)).unwrap();
    assert_eq!(made.project_root.components, vec!["svc".to_string()]);
    assert_eq!(made.applied_overlays, vec![Overlay::Ci, Overlay::Infra]);
    assert_eq!(names(&fs, &["svc"]), vec![".github", "build.rs", "proto", "terraform"]);
    assert_eq!(bytes(&fs, &["svc", "build.rs"]), b"fn main() { tonic_build(); }\n".to_vec());
    assert_eq!(bytes(&fs, &["svc", "proto", "service.proto"]), b"syntax = \"proto3\";\n".to_vec());
    assert_eq!(tree(&fs, &p(&["svc", ".github"])), tree(&fs, &p(&["extras", ".github"])));
    assert_eq!(tree(&fs, &p(&["svc", "terraform"])), tree(&fs, &p(&["extras", "terraform"])));
    assert_eq!(bytes(&fs, &["svc", ".github", "workflows", "ci.yml"]), b"on: push\n".to_vec());
    assert_eq!(
        bytes(&fs, &["svc", "terraform", "modules", "db", "main.tf"]),
        b"resource {}\n".to_vec()
    );
}

#[test]
fn ci_alone() {
    let mut fs = world();
    let made = scaffold_in(&mut fs, &ScaffoldRequest::new("svc", "rest", true, false)).unwrap();
    assert_eq!(made.applied_overlays, vec![Overlay::Ci]);
    assert_eq!(tree(&fs, &p(&["svc", ".github"])), tree(&fs, &p(&["extras", ".github"])));
    assert!(!fs.contains(&p(&["svc", "terraform"])));
}

#[test]
fn both_flags_give_the_same_as_infra_alone() {
    let mut one = world();
    let mut two = world();
    let a = scaffold_in(&mut one, &ScaffoldRequest::new("svc", "rest", false, true)).unwrap();
    let b = scaffold_in(&mut two, &ScaffoldRequest::new("svc", "rest", true, true)).unwrap();
    assert_eq!(a.applied_overlays, b.applied_overlays);
    assert!(a.applied_overlays.contains(&Overlay::Ci));
    assert_eq!(tree(&one, &TreePath::root()), tree(&two, &TreePath::root()));
}

#[test]
fn unknown_template() {
    let mut fs = world();
    let before = tree(&fs, &TreePath::root());
    let refused = scaffold_in(&mut fs, &ScaffoldRequest::new("myapp", "nonexistent", false, false));
    let error = refused.unwrap_err();
    assert!(matches!(error, ScaffoldError::TemplateNotFound));
    assert_eq!(error.exit_code(), 1);
    assert!(!fs.contains(&p(&["myapp"])));
    assert_eq!(tree(&fs, &TreePath::root()), before);
}

#[test]
fn unknown_template_comes_before_an_existing_destination() {
    let mut fs = world();
    fs.create_dir_all(&p(&["myapp"])).unwrap();
    let before = tree(&fs, &TreePath::root());
    let refused = scaffold_in(&mut fs, &ScaffoldRequest::new("myapp", "nonexistent", true, true));
    assert!(matches!(refused, Err(ScaffoldError::TemplateNotFound)));
    assert_eq!(tree(&fs, &TreePath::root()), before);
}

#[test]
fn a_template_that_is_a_file_is_no_template() {
    let mut fs = world();
    put(&mut fs, &["templates", "flat"], b"not a tree");
    let refused = scaffold_in(&mut fs, &ScaffoldRequest::new("myapp", "flat", false, false));
    assert!(matches!(refused, Err(ScaffoldError::TemplateNotFound)));
    assert!(!fs.contains(&p(&["myapp"])));
}

#[test]
fn a_missing_overlay_is_found_out_before_anything_is_written() {
    let mut fs = MemFs::new();
    put(&mut fs, &["templates", "rest", "Cargo.toml"], b"x");
    put(&mut fs, &["extras", ".github", "ci.yml"], b"y");
    let before = tree(&fs, &TreePath::root());
    let refused = scaffold_in(&mut fs, &ScaffoldRequest::new("myapp", "rest", false, true));
    assert!(matches!(refused, Err(ScaffoldError::SourceNotFound)));
    assert!(!fs.contains(&p(&["myapp"])));
    assert_eq!(tree(&fs, &TreePath::root()), before);
    let made = scaffold_in(&mut fs, &ScaffoldRequest::new("myapp", "rest", true, false));
    assert!(made.is_ok());
}

#[test]
fn a_project_named_like_the_templates_directory_is_refused() {
    let mut fs = world();
    let before = tree(&fs, &TreePath::root());
    let refused = scaffold_in(&mut fs, &ScaffoldRequest::new("templates", "rest", false, false));
    assert!(matches!(refused, Err(ScaffoldError::AlreadyExists)));
    assert_eq!(tree(&fs, &TreePath::root()), before);
}

#[test]
fn an_overlay_fills_in_beside_what_the_template_brings() {
    let mut fs = world();
    put(&mut fs, &["templates", "rest", ".github", "CODEOWNERS"], b"* @me\n");
    put(&mut fs, &["templates", "rest", ".github", "workflows", "ci.yml"], b"from the template\n");
    let made = scaffold_in(&mut fs, &ScaffoldRequest::new("myapp", "rest", true, false)).unwrap();
    assert_eq!(made.applied_overlays, vec![Overlay::Ci]);
    assert_eq!(names(&fs, &["myapp", ".github"]), vec!["CODEOWNERS", "workflows"]);
    assert_eq!(bytes(&fs, &["myapp", ".github", "CODEOWNERS"]), b"* @me\n".to_vec());
    assert_eq!(bytes(&fs, &["myapp", ".github", "workflows", "ci.yml"]), b"on: push\n".to_vec());
}

#[test]
fn an_overlay_that_meets_a_file_of_the_template_fails_and_leaves_the_base() {
    let mut fs = world();
    put(&mut fs, &["templates", "rest", "terraform"], b"a file, not a directory");
    let before_templates = tree(&fs, &p(&["templates"]));
    let refused = scaffold_in(&mut fs, &ScaffoldRequest::new("myapp", "rest", false, true));
    assert!(matches!(refused, Err(ScaffoldError::IoFailure(_))));
    assert_eq!(bytes(&fs, &["myapp", "Cargo.toml"]), b"[package]\nname = \"rest\"\n".to_vec());
    assert_eq!(tree(&fs, &p(&["myapp", ".github"])), tree(&fs, &p(&["extras", ".github"])));
    assert_eq!(bytes(&fs, &["myapp", "terraform"]), b"a file, not a directory".to_vec());
    assert_eq!(tree(&fs, &p(&["templates"])), before_templates);
}

#[test]
fn nothing_outside_the_project_changes() {
    let mut fs = world();
    put(&mut fs, &["other", "notes.txt"], b"keep");
    let templates = tree(&fs, &p(&["templates"]));
    let extras = tree(&fs, &p(&["extras"]));
    scaffold_in(&mut fs, &ScaffoldRequest::new("svc", "rest", true, true)).unwrap();
    assert_eq!(names(&fs, &[]), vec!["extras", "other", "svc", "templates"]);
    assert_eq!(tree(&fs, &p(&["templates"])), templates);
    assert_eq!(tree(&fs, &p(&["extras"])), extras);
    assert_eq!(bytes(&fs, &["other", "notes.txt"]), b"keep".to_vec());
}

#[test]
fn the_base_copy_keeps_out_of_the_overlay_directories() {
    let mut with = world();
    let mut without = world();
    scaffold_in(&mut with, &ScaffoldRequest::new("svc", "rest", true, true)).unwrap();
    scaffold_in(&mut without, &ScaffoldRequest::new("svc", "rest", false, false)).unwrap();
    assert!(!without.contains(&p(&["svc", ".github"])));
    assert!(!without.contains(&p(&["svc", "terraform"])));
    let mut rest: Vec<(Vec<String>, Option<Vec<u8>>)> = Vec::new();
    for entry in tree(&with, &p(&["svc"])) {
        if entry.0[0] != ".github" && entry.0[0] != "terraform" {
            rest.push(entry);
        }
    }
    assert_eq!(rest, tree(&without, &p(&["svc"])));
}

#[test]
fn an_empty_template_gives_an_empty_project() {
    let mut fs = MemFs::new();
    fs.create_dir_all(&p(&["templates", "bare"])).unwrap();
    let made = scaffold_in(&mut fs, &ScaffoldRequest::new("myapp", "bare", false, false)).unwrap();
    assert!(made.applied_overlays.is_empty());
    assert!(fs.is_dir(&p(&["myapp"])));
    assert!(names(&fs, &["myapp"]).is_empty());
}

#[test]
fn a_deep_template_is_copied_whole() {
    let mut fs = MemFs::new();
    let mut dir = p(&["templates", "deep"]);
    for level in 0..200 {
        dir = dir.join(&format!("d{}", level));
    }
    fs.create_dir_all(&dir).unwrap();
    fs.write_file(&dir.join("leaf"), vec![42]).unwrap();
    scaffold_in(&mut fs, &ScaffoldRequest::new("myapp", "deep", false, false)).unwrap();
    let mut copy = p(&["myapp"]);
    for level in 0..200 {
        copy = copy.join(&format!("d{}", level));
    }
    assert_eq!(fs.read_file(&copy.join("leaf")), Some(vec![42]));
    assert_eq!(tree(&fs, &p(&["myapp"])).len(), 201);
}
