use processfox_core::error::CoreError;
use processfox_core::paths::{lexically_normalize, FsPath, PathComponent};
use processfox_core::sandbox::{
    ensure_in_agent_folder, ensure_inside_sandbox, in_folder_target, resolve_for_preview, FsReply,
    FsRequest, SandboxStep,
};

fn path(s: &str) -> FsPath {
    let mut components = Vec::new();
    if s.starts_with('/') {
        components.push(PathComponent::RootDir);
    }
    for part in s.split('/') {
        match part {
            "" => {}
            "." => components.push(PathComponent::CurDir),
            ".." => components.push(PathComponent::ParentDir),
            name => components.push(PathComponent::Normal(name.as_bytes().to_vec())),
        }
    }
    FsPath { components }
}

fn text(p: &FsPath) -> String {
    let mut out = String::new();
    for c in &p.components {
        match c {
            PathComponent::RootDir => out.push('/'),
            PathComponent::CurDir => out.push_str("./"),
            PathComponent::ParentDir => out.push_str("../"),
            PathComponent::Normal(n) => {
                out.push_str(&String::from_utf8_lossy(n));
                out.push('/');
            }
        }
    }
    if out.len() > 1 {
        out.pop();
    }
    out
}

/// A tiny in-memory filesystem: the directories that exist, and symlinks
/// from one directory to another.
struct FakeFs {
    dirs: Vec<String>,
    links: Vec<(String, String)>,
}

impl FakeFs {
    fn resolve(&self, p: &str) -> String {
        for (from, to) in &self.links {
            if p == from {
                return to.clone();
            }
            if let Some(rest) = p.strip_prefix(&format!("{from}/")) {
                return format!("{to}/{rest}");
            }
        }
        p.to_string()
    }
    fn present(&self, p: &str) -> bool {
        let r = self.resolve(p);
        self.dirs.iter().any(|d| d == &r)
    }
    fn canonical(&self, p: &FsPath) -> Result<FsPath, String> {
        let t = text(&lexically_normalize(p));
        if self.present(&t) {
            Ok(path(&self.resolve(&t)))
        } else {
            Err(format!("{t}: not found"))
        }
    }
    fn check(&self, root: &str, requested: &str) -> Result<FsPath, CoreError> {
        let target = in_folder_target(&path(root), &path(requested));
        ensure_in_agent_folder(self.canonical(&target), self.canonical(&path(root)))
    }
    fn preview(&self, root: &str, requested: &str) -> Option<FsPath> {
        let target = in_folder_target(&path(root), &path(requested));
        resolve_for_preview(self.canonical(&target), self.canonical(&path(root)))
    }
    fn run(&mut self, root: &str, requested: &str) -> Result<FsPath, CoreError> {
        let (mut check, mut step) =
            ensure_inside_sandbox(&path(root), path(requested), requested.to_string());
        loop {
            let reply = match step {
                SandboxStep::Done(r) => return r,
                SandboxStep::Io(FsRequest::Canonicalize(p)) => {
                    let t = text(&p);
                    if self.present(&t) {
                        FsReply::Canonical(Ok(path(&self.resolve(&t))))
                    } else {
                        FsReply::Canonical(Err(format!("{t}: not found")))
                    }
                }
                SandboxStep::Io(FsRequest::Exists(p)) => FsReply::Exists(self.present(&text(&p))),
                SandboxStep::Io(FsRequest::CreateDirAll(p)) => {
                    let t = self.resolve(&text(&p));
                    let mut acc = String::new();
                    for part in t.split('/').filter(|s| !s.is_empty()) {
                        acc.push('/');
                        acc.push_str(part);
                        if !self.dirs.contains(&acc) {
                            self.dirs.push(acc.clone());
                        }
                    }
                    FsReply::Created(Ok(()))
                }
            };
            assert!(check.accepts(&reply));
            let (next_check, next_step) = check.resume(reply);
            check = next_check;
            step = next_step;
        }
    }
}

fn fs() -> FakeFs {
    FakeFs {
        dirs: vec![
            "/".into(),
            "/tmp".into(),
            "/tmp/root".into(),
            "/tmp/root/notes.md".into(),
            "/tmp/outside".into(),
            "/tmp/outside/secret.txt".into(),
            "/tmp/outside_target".into(),
            "/tmp/sibling".into(),
            "/tmp/sibling/leak.txt".into(),
        ],
        links: vec![
            ("/tmp/root/escape-link".into(), "/tmp/outside".into()),
            ("/tmp/root/link-out".into(), "/tmp/outside".into()),
        ],
    }
}

#[test]
fn relative_path_inside_resolves() {
    let resolved = fs().check("/tmp/root", "notes.md").unwrap();
    assert_eq!(text(&resolved), "/tmp/root/notes.md");
}

#[test]
fn absolute_path_outside_is_rejected() {
    let err = fs().check("/tmp/root", "/tmp/outside_target").unwrap_err();
    assert_eq!(err, CoreError::PathOutsideAgentFolder);
}

#[test]
fn parent_traversal_is_rejected() {
    let err = fs().check("/tmp/root", "../sibling/leak.txt").unwrap_err();
    assert_eq!(err, CoreError::PathOutsideAgentFolder);
}

#[test]
fn symlink_escape_is_rejected() {
    let err = fs().check("/tmp/root", "link-out/secret.txt").unwrap_err();
    assert_eq!(err, CoreError::PathOutsideAgentFolder);
}

#[test]
fn nonexistent_path_fails_cleanly() {
    let err = fs().check("/tmp/root", "does-not-exist").unwrap_err();
    assert!(matches!(err, CoreError::PathInvalid(_)));
}

#[test]
fn preview_resolve_returns_some_for_existing_inside_file() {
    assert!(fs().preview("/tmp/root", "notes.md").is_some());
}

#[test]
fn preview_resolve_returns_none_for_missing_file() {
    assert!(fs().preview("/tmp/root", "does-not-exist.md").is_none());
}

#[test]
fn preview_resolve_returns_none_for_outside_absolute_path() {
    assert!(fs().preview("/tmp/root", "/tmp/outside_target").is_none());
}

#[test]
fn inside_sandbox_creates_missing_nested_dirs() {
    let mut f = fs();
    let resolved = f.run("/tmp/root", "reports/2026/april.docx").unwrap();
    assert_eq!(text(&resolved), "/tmp/root/reports/2026/april.docx");
    let parent = resolved.parent().unwrap();
    assert!(f.present(&text(&parent)));
    assert!(resolved.starts_with(&path("/tmp/root")));
}

#[test]
fn inside_sandbox_rejects_absolute_outside_without_mkdir() {
    let mut f = fs();
    let err = f.run("/tmp/root", "/tmp/elsewhere/evil.docx").unwrap_err();
    assert_eq!(err, CoreError::PathOutsideAgentFolder);
    assert!(!f.present("/tmp/elsewhere"));
}

#[test]
fn inside_sandbox_rejects_parent_traversal_without_mkdir() {
    let mut f = fs();
    let err = f.run("/tmp/root", "../leak/evil.docx").unwrap_err();
    assert_eq!(err, CoreError::PathOutsideAgentFolder);
    assert!(!f.present("/tmp/leak"));
}

#[test]
fn inside_sandbox_rejects_existing_symlink_escape() {
    let mut f = fs();
    let err = f.run("/tmp/root", "escape-link/evil.docx").unwrap_err();
    assert_eq!(err, CoreError::PathOutsideAgentFolder);
    assert!(!f.present("/tmp/outside/evil.docx"));
}

#[test]
fn inside_sandbox_reports_missing_root() {
    let mut f = fs();
    let err = f.run("/tmp/nowhere", "a.docx").unwrap_err();
    assert_eq!(err, CoreError::PathInvalid("/tmp/nowhere: not found".to_string()));
}

#[test]
fn folder_check_accepts_inside_and_refuses_outside() {
    let root = path("/tmp/root");
    let inside = ensure_in_agent_folder(Ok(path("/tmp/root/notes.md")), Ok(path("/tmp/root")));
    assert_eq!(text(&inside.unwrap()), "/tmp/root/notes.md");
    let outside = ensure_in_agent_folder(Ok(path("/tmp/outside/secret")), Ok(root.duplicate()));
    assert_eq!(outside.unwrap_err(), CoreError::PathOutsideAgentFolder);
    let missing = ensure_in_agent_folder(Err("gone".to_string()), Ok(root));
    assert_eq!(missing.unwrap_err(), CoreError::PathInvalid("gone".to_string()));
}

#[test]
fn folder_check_target_joins_relative_paths() {
    let t = in_folder_target(&path("/tmp/root"), &path("sub/notes.md"));
    assert_eq!(text(&t), "/tmp/root/sub/notes.md");
    let t = in_folder_target(&path("/tmp/root"), &path("/etc/passwd"));
    assert_eq!(text(&t), "/etc/passwd");
}

#[test]
fn preview_resolution_is_none_on_any_failure() {
    assert!(resolve_for_preview(Ok(path("/tmp/root/a.md")), Ok(path("/tmp/root"))).is_some());
    assert!(resolve_for_preview(Err("missing".into()), Ok(path("/tmp/root"))).is_none());
    assert!(resolve_for_preview(Ok(path("/tmp/outside/a")), Ok(path("/tmp/root"))).is_none());
}

#[test]
fn normalization_folds_dots() {
    assert_eq!(text(&lexically_normalize(&path("/a/./b/../c"))), "/a/c");
    assert_eq!(text(&lexically_normalize(&path("/../x"))), "/x");
    assert_eq!(text(&lexically_normalize(&path("a/../../b"))), "b");
}
