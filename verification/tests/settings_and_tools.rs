use processfox_core::error::CoreError;
use processfox_core::license::{app_info, Edition};
use processfox_core::previews::{preview_target, require_file, PreviewError};
use processfox_core::paths::{FsPath, PathComponent};
use processfox_core::providers::{custom_openai_base_url, CortecsProvider};
use processfox_core::read_skill::{ReadSkillTool, SkillEntry};
use processfox_core::text::push_decimal;
use processfox_core::tool::{mtime_suffix_text, ToolOutput};

fn path(t: &str) -> FsPath {
    let mut components = vec![PathComponent::RootDir];
    for part in t.split('/').filter(|p| !p.is_empty()) {
        components.push(PathComponent::Normal(part.as_bytes().to_vec()));
    }
    FsPath { components }
}

#[test]
fn editions_and_licenses() {
    assert_eq!(Edition::current(false), Edition::Community);
    assert_eq!(Edition::current(true), Edition::Store);
    assert_eq!(Edition::Community.name(), "Community");
    assert_eq!(Edition::Store.license_spdx(), "LicenseRef-ProcessFox-Store");
    let info = app_info("0.1.0", false);
    assert_eq!(info.version, "0.1.0");
    assert_eq!(info.edition_name, "Community");
    assert_eq!(info.license_spdx, "GPL-3.0-or-later");
}

#[test]
fn cortecs_endpoint_is_fixed() {
    let p = CortecsProvider::new();
    assert_eq!(p.id(), "cortecs");
    assert_eq!(p.endpoint.base_url, "https://api.cortecs.ai/v1");
    assert!(p.endpoint.include_usage);
    assert!(p.supports_tools());
}

#[test]
fn custom_endpoint_must_be_configured() {
    let msg = "Kein OpenAI-kompatibler Endpunkt konfiguriert. Bitte zuerst die Basis-URL im Einstellungen-Dialog eintragen.";
    assert_eq!(custom_openai_base_url(&None), Err(CoreError::Llm(msg.to_string())));
    assert_eq!(custom_openai_base_url(&Some("  ".to_string())), Err(CoreError::Llm(msg.to_string())));
    assert_eq!(
        custom_openai_base_url(&Some("http://localhost:11434/v1".to_string())),
        Ok("http://localhost:11434/v1".to_string())
    );
}

fn skills() -> ReadSkillTool {
    ReadSkillTool::new(vec![
        SkillEntry { id: "folder-search".into(), name: "Ordnersuche".into(), body: "Suche so.".into() },
        SkillEntry { id: "empty".into(), name: "Leer".into(), body: " \n ".into() },
    ])
}

#[test]
fn skills_are_read_by_id() {
    let t = skills();
    assert_eq!(t.name(), "read_skill");
    let out: ToolOutput = t.read("folder-search").ok().unwrap();
    assert_eq!(out.content, "Suche so.");
    assert!(out.ui_hint.is_none());
    let out = t.read("empty").ok().unwrap();
    assert_eq!(
        out.content,
        "Skill `Leer` has no body — the description in the system prompt is all there is."
    );
    assert_eq!(
        t.read("nope").err(),
        Some(CoreError::Llm(
            "Unknown skill id `nope`. Valid ids are listed under \"Available skills\" in the system prompt."
                .to_string()
        ))
    );
}

#[test]
fn previews_need_a_folder_and_a_file() {
    assert!(matches!(
        preview_target(None, Ok(path("/a/b")), Ok(path("/a"))),
        Err(PreviewError::NoFolder)
    ));
    let folder = path("/a");
    let t = preview_target(Some(&folder), Ok(path("/a/b.docx")), Ok(path("/a"))).ok().unwrap();
    assert!(t.equals(&path("/a/b.docx")));
    assert!(matches!(
        preview_target(Some(&folder), Ok(path("/x/b.docx")), Ok(path("/a"))),
        Err(PreviewError::Core(CoreError::PathOutsideAgentFolder))
    ));
    assert!(matches!(require_file(path("/a/b"), false), Err(PreviewError::NotAFile)));
    assert_eq!(
        PreviewError::NotAFile.code_and_message(),
        Some(("not_a_file", "Der angefragte Pfad ist keine Datei."))
    );
    assert!(require_file(path("/a/b"), true).is_ok());
}

#[test]
fn decimal_notation() {
    let mut s = String::from("n=");
    push_decimal(&mut s, 0);
    s.push(' ');
    push_decimal(&mut s, 1042);
    s.push(' ');
    push_decimal(&mut s, u64::MAX);
    assert_eq!(s, "n=0 1042 18446744073709551615");
}

#[test]
fn modification_suffix_is_utc_with_seconds() {
    assert_eq!(mtime_suffix_text(None), "");
    assert_eq!(mtime_suffix_text(Some((0, 0))), ", modified 1970-01-01T00:00:00Z");
    assert_eq!(mtime_suffix_text(Some((1_777_717_860, 999))), ", modified 2026-05-02T10:31:00Z");
    assert_eq!(mtime_suffix_text(Some((i64::MAX, 0))), "");
    assert_eq!(mtime_suffix_text(Some((0, 2_000_000_000))), "");
}
