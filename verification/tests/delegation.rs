use processfox_core::agent::{Agent, AgentDraft, DelegationProfile, ModelRef};
use processfox_core::delegation::{
    default_worker_system_prompt, request_system_prompt, worker_request, DelegationRunner,
    ResolvedProfile, TokenUsage, WorkerDefaults, WorkerEvent, WorkerReply,
};
use processfox_core::error::CoreError;

fn s(v: &str) -> String {
    v.to_string()
}

fn agent(model: Option<ModelRef>, profile: Option<DelegationProfile>) -> Agent {
    Agent::from_draft_at(
        AgentDraft {
            name: s("A"),
            icon: None,
            folder: None,
            system_prompt: Some(s("Sei hilfreich.")),
            model,
            skills: vec![],
            hitl_disabled: false,
            delegation_profile: profile,
        },
        s("id"),
        s("t"),
    )
}

fn enabled(prompt: Option<&str>, model: Option<ModelRef>) -> Option<DelegationProfile> {
    Some(DelegationProfile {
        enabled: true,
        system_prompt_override: prompt.map(s),
        model_override: model,
    })
}

fn runner(provider: Option<&str>) -> DelegationRunner {
    DelegationRunner::new(Ok(WorkerDefaults {
        default_provider: provider.map(s),
        default_models: vec![(s("cortecs"), s("llama-3")), (s("local"), s("qwen"))],
    }))
}

fn triple(p: ResolvedProfile) -> (String, String, String) {
    (p.provider_id, p.model_id, p.system_prompt)
}

#[test]
fn worker_needs_an_enabled_profile() {
    let msg = || CoreError::Llm(s("Hintergrund-Worker für diesen Agenten ist nicht aktiviert."));
    assert_eq!(runner(None).resolve_for(&agent(None, None)).err(), Some(msg()));
    let off = Some(DelegationProfile { enabled: false, system_prompt_override: None, model_override: None });
    assert_eq!(runner(None).resolve_for(&agent(None, off)).err(), Some(msg()));
}

#[test]
fn override_model_and_trimmed_prompt_win() {
    let a = agent(
        Some(ModelRef::Local { id: s("qwen") }),
        enabled(Some("  Nur ein Satz.  "), Some(ModelRef::Cloud { provider: s("cortecs"), id: s("mixtral") })),
    );
    let r = runner(None).resolve_for(&a).ok().unwrap();
    assert_eq!(triple(r), (s("cortecs"), s("mixtral"), s("Nur ein Satz.")));
}

#[test]
fn agent_model_and_default_prompt_apply_otherwise() {
    let a = agent(Some(ModelRef::Local { id: s("qwen") }), enabled(Some("   "), None));
    let r = runner(None).resolve_for(&a).ok().unwrap();
    assert_eq!(triple(r), (s("local"), s("qwen"), s(default_worker_system_prompt())));
    assert!(default_worker_system_prompt().starts_with("Du bist ein Hintergrund-Worker"));
}

#[test]
fn settings_defaults_are_the_last_resort() {
    let a = agent(None, enabled(None, None));
    let r = runner(Some("cortecs")).resolve_for(&a).ok().unwrap();
    assert_eq!(r.provider_id, "cortecs");
    assert_eq!(r.model_id, "llama-3");
    assert_eq!(
        runner(None).resolve_for(&a).err(),
        Some(CoreError::Llm(s("Kein Default-Provider in den Einstellungen gesetzt.")))
    );
    assert_eq!(
        runner(Some("openai")).resolve_for(&a).err(),
        Some(CoreError::Llm(s("Kein Default-Modell für Provider openai hinterlegt.")))
    );
    let broken = DelegationRunner::new(Err(CoreError::Io(s("settings unreadable"))));
    assert_eq!(broken.resolve_for(&a).err(), Some(CoreError::Io(s("settings unreadable"))));
}

#[test]
fn blank_system_prompt_is_not_sent() {
    let p = ResolvedProfile { provider_id: s("p"), model_id: s("m"), system_prompt: s(" \n") };
    assert_eq!(request_system_prompt(&p), None);
    let p = ResolvedProfile { provider_id: s("p"), model_id: s("m"), system_prompt: s("x") };
    assert_eq!(request_system_prompt(&p), Some(s("x")));
}

#[test]
fn worker_reply_collects_text_and_failures() {
    let mut r = WorkerReply::new();
    r.absorb(WorkerEvent::TextDelta(s("Hal")));
    r.absorb(WorkerEvent::ReasoningDelta);
    r.absorb(WorkerEvent::TextDelta(s("lo")));
    let u1 = TokenUsage { input_tokens: 1, output_tokens: 2, cached_input_tokens: 0, cache_creation_input_tokens: 0 };
    let u2 = TokenUsage { input_tokens: 10, output_tokens: 20, cached_input_tokens: 3, cache_creation_input_tokens: 4 };
    r.absorb(WorkerEvent::Usage(u1));
    r.absorb(WorkerEvent::Usage(u2));
    r.absorb(WorkerEvent::ToolCall);
    r.absorb(WorkerEvent::Finish);
    assert_eq!(r.finish(false), Ok((s("Hallo"), Some(u2))));

    let mut r = WorkerReply::new();
    r.absorb(WorkerEvent::TextDelta(s("x")));
    r.absorb(WorkerEvent::Error { code: s("429"), message: s("busy") });
    assert_eq!(r.finish(false), Err(CoreError::Llm(s("429: busy"))));

    let mut r = WorkerReply::new();
    r.absorb(WorkerEvent::TextDelta(s("x")));
    r.absorb(WorkerEvent::Error { code: s("500"), message: s("down") });
    assert_eq!(r.finish(true), Err(CoreError::Cancelled));

    let r = WorkerReply::new();
    assert_eq!(r.finish(false), Ok((s(""), None)));
}

#[test]
fn default_models_are_set_and_cleared_per_provider() {
    let mut d = WorkerDefaults::new(None);
    assert_eq!(d.default_provider, None);
    assert!(d.default_models.is_empty());
    d.set_default_model(s("openai"), Some(s("gpt")));
    d.set_default_model(s("cortecs"), Some(s("llama")));
    d.set_default_model(s("openai"), Some(s("gpt-mini")));
    assert_eq!(
        d.default_models,
        vec![(s("cortecs"), s("llama")), (s("openai"), s("gpt-mini"))]
    );
    d.set_default_model(s("cortecs"), None);
    d.set_default_model(s("local"), None);
    assert_eq!(d.default_models, vec![(s("openai"), s("gpt-mini"))]);
    d.set_default_provider(Some(s("openai")));
    let a = agent(None, enabled(None, None));
    let r = DelegationRunner::new(Ok(d)).resolve_for(&a).ok().unwrap();
    assert_eq!(r.model_id, "gpt-mini");
}

#[test]
fn worker_request_is_one_plain_turn() {
    let p = ResolvedProfile { provider_id: s("p"), model_id: s("m"), system_prompt: s("kurz") };
    let r = worker_request(&p, s("Fasse zusammen"));
    assert_eq!(r.model_id, "m");
    assert_eq!(r.system_prompt, Some(s("kurz")));
    assert_eq!(r.user_prompt, "Fasse zusammen");
    assert!(r.tools.is_empty());
    assert_eq!(r.max_tokens, 1024);
    assert!(!r.temperature_set);
}

#[test]
fn default_provider_without_model_fails() {
    let a = agent(None, enabled(None, None));
    let mut d = WorkerDefaults::new(Some(s("openai")));
    d.set_default_model(s("cortecs"), Some(s("llama")));
    assert_eq!(
        DelegationRunner::new(Ok(d)).resolve_for(&a).err(),
        Some(CoreError::Llm(s("Kein Default-Modell für Provider openai hinterlegt.")))
    );
}

#[test]
fn usage_adds_up_per_counter() {
    let mut total = TokenUsage::none();
    assert_eq!(total, TokenUsage { input_tokens: 0, output_tokens: 0, cached_input_tokens: 0, cache_creation_input_tokens: 0 });
    total.accumulate(&TokenUsage { input_tokens: 10, output_tokens: 3, cached_input_tokens: 2, cache_creation_input_tokens: 1 });
    total.accumulate(&TokenUsage { input_tokens: 5, output_tokens: 4, cached_input_tokens: 0, cache_creation_input_tokens: u64::MAX });
    assert_eq!(
        total,
        TokenUsage { input_tokens: 15, output_tokens: 7, cached_input_tokens: 2, cache_creation_input_tokens: u64::MAX }
    );
}
