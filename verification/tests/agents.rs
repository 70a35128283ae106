use processfox_core::agent::{
    is_record_file, prune_broken_attachments, resolve_attachment, sort_by_creation, Agent,
    AgentAttachments, AgentDraft, AgentRepo, AgentUpdate, AttachmentKind, DelegationProfile,
    ModelRef,
};
use processfox_core::error::CoreError;
use processfox_core::paths::{FsPath, PathComponent};

fn s(v: &str) -> String {
    v.to_string()
}

fn path(t: &str) -> FsPath {
    let mut components = vec![PathComponent::RootDir];
    for part in t.split('/').filter(|p| !p.is_empty()) {
        components.push(PathComponent::Normal(part.as_bytes().to_vec()));
    }
    FsPath { components }
}

fn draft() -> AgentDraft {
    AgentDraft {
        name: s("Buchhaltung"),
        icon: None,
        folder: Some(path("/home/u/buch")),
        system_prompt: None,
        model: Some(ModelRef::Local { id: s("qwen") }),
        skills: vec![s("document-from-template"), s("folder-search")],
        hitl_disabled: false,
        delegation_profile: None,
    }
}

fn empty_update() -> AgentUpdate {
    AgentUpdate {
        name: None,
        icon: None,
        folder: None,
        system_prompt: None,
        model: None,
        skills: None,
        hitl_disabled: None,
        delegation_profile: None,
    }
}

fn agent_at(id: &str, created: &str) -> Agent {
    Agent::from_draft_at(draft(), s(id), s(created))
}

#[test]
fn draft_becomes_agent_with_defaults() {
    let a = agent_at("id-1", "2026-01-01T00:00:00+00:00");
    assert_eq!(a.id, "id-1");
    assert_eq!(a.name, "Buchhaltung");
    assert_eq!(a.icon, "🦊");
    assert_eq!(a.system_prompt, "");
    assert_eq!(a.skills, vec![s("document-from-template"), s("folder-search")]);
    assert!(a.skill_settings.is_empty());
    assert!(a.attachments.is_empty());
    assert_eq!(a.created_at, "2026-01-01T00:00:00+00:00");
    assert_eq!(a.updated_at, a.created_at);
}

#[test]
fn fresh_agents_get_distinct_random_ids() {
    let a = Agent::from_draft(draft());
    let b = Agent::from_draft(draft());
    assert_eq!(a.id.len(), 36);
    assert_ne!(a.id, b.id);
    assert_eq!(a.created_at, a.updated_at);
    assert!(!a.created_at.is_empty());
}

#[test]
fn update_replaces_given_fields_only() {
    let mut a = agent_at("id-1", "t0");
    let mut u = empty_update();
    u.name = Some(s("Neu"));
    u.hitl_disabled = Some(true);
    u.delegation_profile = Some(DelegationProfile {
        enabled: true,
        system_prompt_override: None,
        model_override: None,
    });
    a.apply_update_at(u, s("t1"));
    assert_eq!(a.name, "Neu");
    assert_eq!(a.icon, "🦊");
    assert!(a.hitl_disabled);
    assert!(a.delegation_profile.as_ref().unwrap().enabled);
    assert_eq!(a.created_at, "t0");
    assert_eq!(a.updated_at, "t1");
}

#[test]
fn removing_the_template_skill_clears_the_attachment() {
    let mut a = agent_at("id-1", "t0");
    a.set_attachment_at(AttachmentKind::Template, Some(path("/home/u/buch/vorlage.docx")), s("t1"));
    assert!(a.attachment(AttachmentKind::Template).is_some());

    let mut keep = empty_update();
    keep.skills = Some(vec![s("document-from-template")]);
    a.apply_update_at(keep, s("t2"));
    assert!(a.attachment(AttachmentKind::Template).is_some());

    let mut drop = empty_update();
    drop.skills = Some(vec![s("folder-search")]);
    a.apply_update_at(drop, s("t3"));
    assert!(a.attachment(AttachmentKind::Template).is_none());
    assert_eq!(a.skills, vec![s("folder-search")]);
}

#[test]
fn template_slot_belongs_to_its_skill() {
    assert_eq!(AttachmentKind::Template.required_skill(), "document-from-template");
    let empty = AgentAttachments { template_path: None };
    assert!(empty.is_empty());
}

#[test]
fn agents_sort_by_creation_time_stably() {
    let agents = vec![
        agent_at("c", "2026-03-01"),
        agent_at("a", "2026-01-01"),
        agent_at("b1", "2026-02-01"),
        agent_at("b2", "2026-02-01"),
    ];
    let ids: Vec<String> = sort_by_creation(agents).into_iter().map(|a| a.id).collect();
    assert_eq!(ids, vec![s("a"), s("b1"), s("b2"), s("c")]);
}

#[test]
fn only_json_files_hold_records() {
    assert!(is_record_file(&b"abc.json".to_vec()));
    assert!(is_record_file(&b"a.b.json".to_vec()));
    assert!(!is_record_file(&b"abc.json.tmp".to_vec()));
    assert!(!is_record_file(&b".json".to_vec()));
    assert!(!is_record_file(&b"json".to_vec()));
    assert!(!is_record_file(&b"abc.JSON".to_vec()));
}

#[test]
fn repository_lookups() {
    let repo = AgentRepo::new(path("/data/agents"));
    assert_eq!(AgentRepo::file_name_for("x1"), "x1.json");
    match repo.get("x1", None) {
        Err(e) => assert_eq!(e, CoreError::AgentNotFound(s("x1"))),
        Ok(_) => panic!("missing record must fail"),
    }
    let found = repo.get("x1", Some(Ok(agent_at("x1", "t")))).ok().unwrap();
    assert_eq!(found.id, "x1");
    assert_eq!(repo.ensure_exists("x2", false), Err(CoreError::AgentNotFound(s("x2"))));
    assert_eq!(repo.ensure_exists("x2", true), Ok(()));
}

#[test]
fn broken_template_attachment_is_pruned() {
    let mut a = agent_at("id", "t0");
    a.attachments.template_path = Some(path("/home/u/buch/vorlage.docx"));
    let kept = prune_broken_attachments(
        &mut a,
        Ok(path("/home/u/buch/vorlage.docx")),
        Ok(path("/home/u/buch")),
    );
    assert!(!kept);
    assert!(a.attachments.template_path.is_some());
    let changed = prune_broken_attachments(&mut a, Err(s("gone")), Ok(path("/home/u/buch")));
    assert!(changed);
    assert!(a.attachments.template_path.is_none());
    assert!(!prune_broken_attachments(&mut a, Err(s("gone")), Ok(path("/home/u/buch"))));
}

#[test]
fn attachment_paths_are_checked_against_the_folder() {
    let folder = path("/home/u/buch");
    assert!(matches!(resolve_attachment(Some(&folder), None), Ok(None)));
    let ok = resolve_attachment(
        Some(&folder),
        Some((Ok(path("/home/u/buch/v.docx")), Ok(path("/home/u/buch")))),
    );
    assert!(matches!(ok, Ok(Some(_))));
    let outside = resolve_attachment(
        Some(&folder),
        Some((Ok(path("/etc/v.docx")), Ok(path("/home/u/buch")))),
    );
    assert_eq!(outside.err(), Some(CoreError::PathOutsideAgentFolder));
    let no_folder = resolve_attachment(None, Some((Ok(path("/a")), Ok(path("/")))));
    assert_eq!(no_folder.err(), Some(CoreError::PathInvalid(s("agent has no folder"))));
}
