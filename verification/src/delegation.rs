//! The background worker of an agent: which provider, model and system
//! prompt it runs with, and how its streamed reply becomes one answer.
//!
//! The worker settings come from the agent's delegation profile, falling
//! back to the agent's own model and finally to the application defaults.
use vstd::prelude::*;

use crate::agent::{Agent, ModelRef};
use crate::error::{llm_error, CoreError};
use crate::keyed::{
    find_key, key_insert, key_lookup, key_remove, keys_ascending, lemma_key_insert,
    lemma_key_lookup_at, lemma_key_lookup_exact, lemma_key_remove,
    pair_keys, table_keys,
};
use crate::text::{copy_string, owned, str_chars, string_from_chars, trim_chars, trim_spec};

verus! {

broadcast use vstd::string::group_string_axioms;

/// The system prompt of a worker whose profile sets none: one terse,
/// unadorned result per item, in the language of the task.
pub open spec fn default_worker_prompt() -> Seq<char> {
    "Du bist ein Hintergrund-Worker für Bulk-Aufgaben. Antworte mit *genau einem* Ergebnis. Keine Optionen, keine Alternativenliste, keine Aufzählungen, keine Markdown-Formatierung, kein Vorwort, keine Erklärung, kein „Hier ist …\". Liefere nur das angefragte Ergebnis als reinen Text. Antworte in derselben Sprache wie die Aufgabe."@
}

/// The system prompt of a worker whose profile sets none.
pub fn default_worker_system_prompt() -> (s: &'static str)
    ensures
        s@ == default_worker_prompt(),
{
    "Du bist ein Hintergrund-Worker für Bulk-Aufgaben. Antworte mit *genau einem* Ergebnis. Keine Optionen, keine Alternativenliste, keine Aufzählungen, keine Markdown-Formatierung, kein Vorwort, keine Erklärung, kein „Hier ist …\". Liefere nur das angefragte Ergebnis als reinen Text. Antworte in derselben Sprache wie die Aufgabe."
}

/// The most tokens a worker may answer with.
pub const DEFAULT_MAX_TOKENS: u32 = 1024;

/// The provider, model and system prompt a worker runs with.
pub struct ResolvedProfile {
    pub provider_id: String,
    pub model_id: String,
    pub system_prompt: String,
}

/// The application defaults a worker falls back to.
pub struct WorkerDefaults {
    pub default_provider: Option<String>,
    /// Default model by provider id, in ascending provider order.
    pub default_models: Vec<(String, String)>,
}

impl WorkerDefaults {
    /// Provider ids strictly ascend along the table, so each provider has at
    /// most one default model and a lookup finds it.
    pub open spec fn wf(&self) -> bool {
        keys_ascending(pair_keys(model_table(self.default_models@)))
    }

    /// Defaults with the given provider and no default models yet.
    pub fn new(default_provider: Option<String>) -> (r: WorkerDefaults)
        ensures
            r.wf(),
            r.default_provider == default_provider,
            r.default_models@.len() == 0,
    {
        let r = WorkerDefaults { default_provider, default_models: Vec::new() };
        assert(pair_keys(model_table(r.default_models@)) =~= Seq::<Seq<char>>::empty());
        r
    }

    /// Set the default provider, or clear it.
    pub fn set_default_provider(&mut self, provider: Option<String>)
        ensures
            final(self).default_provider == provider,
            final(self).default_models == old(self).default_models,
    {
        self.default_provider = provider;
    }

    /// Set the default model of `provider`, or clear it.
    pub fn set_default_model(&mut self, provider: String, model: Option<String>)
        requires
            old(self).wf(),
        ensures
            final(self).wf(),
            final(self).default_provider == old(self).default_provider,
            model_table(final(self).default_models@) == match model {
                Some(m) => key_insert(model_table(old(self).default_models@), provider@, m@),
                None => key_remove(model_table(old(self).default_models@), provider@),
            },
    {
        let ghost t = model_table(self.default_models@);
        let (p, found) = find_key(&self.default_models, &str_chars(provider.as_str()));
        proof {
            assert(table_keys(self.default_models@) =~= pair_keys(t));
        }
        match model {
            Some(m) => {
                let ghost mv = m@;
                let ghost pv = provider@;
                proof {
                    lemma_default_model_read_back(t, pv, Some(mv), pv);
                }
                if found {
                    self.default_models.set(p, (provider, m));
                    assert(model_table(self.default_models@) =~= t.update(p as int, (pv, mv)));
                } else {
                    self.default_models.insert(p, (provider, m));
                    assert(model_table(self.default_models@) =~= t.insert(p as int, (pv, mv)));
                }
            },
            None => {
                proof {
                    lemma_default_model_read_back(t, provider@, None, provider@);
                }
                if found {
                    self.default_models.remove(p);
                    assert(model_table(self.default_models@) =~= t.remove(p as int));
                }
            },
        }
    }
}

/// What a default model setting gives back: after setting a provider's
/// model, that provider's default is the model (or none once cleared), and
/// every other provider keeps its default.
pub proof fn lemma_default_model_read_back(
    t: Seq<(Seq<char>, Seq<char>)>,
    provider: Seq<char>,
    model: Option<Seq<char>>,
    other: Seq<char>,
)
    requires
        keys_ascending(pair_keys(t)),
    ensures
        ({
            let after = match model {
                Some(m) => key_insert(t, provider, m),
                None => key_remove(t, provider),
            };
            &&& keys_ascending(pair_keys(after))
            &&& key_lookup(after, provider) == model
            &&& other != provider ==> key_lookup(after, other) == key_lookup(t, other)
        }),
{
    match model {
        Some(m) => lemma_key_insert(t, provider, m),
        None => lemma_key_remove(t, provider),
    }
}

/// The texts of a provider → model table.
pub open spec fn model_table(t: Seq<(String, String)>) -> Seq<(Seq<char>, Seq<char>)> {
    t.map_values(|e: (String, String)| (e.0@, e.1@))
}

/// Resolves and runs background workers.
pub struct DelegationRunner {
    /// The application settings, or why they could not be loaded.
    pub settings: Result<WorkerDefaults, CoreError>,
}

/// The message for an agent without an enabled worker.
pub open spec fn not_enabled_msg() -> Seq<char> {
    "Hintergrund-Worker für diesen Agenten ist nicht aktiviert."@
}

/// The message when no default provider is set.
pub open spec fn no_provider_msg() -> Seq<char> {
    "Kein Default-Provider in den Einstellungen gesetzt."@
}

/// The message when a provider has no default model.
pub open spec fn no_model_msg(provider: Seq<char>) -> Seq<char> {
    "Kein Default-Modell für Provider "@ + provider + " hinterlegt."@
}

/// The worker prompt: the trimmed override when it is not blank, else the
/// default prompt.
pub open spec fn worker_prompt(o: Option<String>) -> Seq<char> {
    match o {
        Some(s) => if trim_spec(s@).len() > 0 {
            trim_spec(s@)
        } else {
            default_worker_prompt()
        },
        None => default_worker_prompt(),
    }
}

/// The model a worker runs: the profile's override, else the agent's model.
pub open spec fn worker_model(p: Option<ModelRef>, agent_model: Option<ModelRef>) -> Option<
    ModelRef,
> {
    match p {
        Some(m) => Some(m),
        None => agent_model,
    }
}

/// `r` is the profile `(provider, model, prompt)`.
pub open spec fn resolved_as(
    r: Result<ResolvedProfile, CoreError>,
    provider: Seq<char>,
    model: Seq<char>,
    prompt: Seq<char>,
) -> bool {
    &&& r is Ok
    &&& r->Ok_0.provider_id@ == provider
    &&& r->Ok_0.model_id@ == model
    &&& r->Ok_0.system_prompt@ == prompt
}

/// What resolving the worker of `agent` gives, given the settings.
pub open spec fn resolution(
    agent: Agent,
    settings: Result<WorkerDefaults, CoreError>,
    r: Result<ResolvedProfile, CoreError>,
) -> bool {
    match agent.delegation_profile {
        None => r is Err && llm_error(r->Err_0, not_enabled_msg()),
        Some(p) => if !p.enabled {
            r is Err && llm_error(r->Err_0, not_enabled_msg())
        } else {
            let prompt = worker_prompt(p.system_prompt_override);
            match worker_model(p.model_override, agent.model) {
                Some(ModelRef::Local { id }) => resolved_as(r, "local"@, id@, prompt),
                Some(ModelRef::Cloud { provider, id }) => resolved_as(r, provider@, id@, prompt),
                None => match settings {
                    Err(e) => r == Err::<ResolvedProfile, CoreError>(e),
                    Ok(s) => match s.default_provider {
                        None => r is Err && llm_error(r->Err_0, no_provider_msg()),
                        Some(pv) => match key_lookup(model_table(s.default_models@), pv@) {
                            None => r is Err && llm_error(r->Err_0, no_model_msg(pv@)),
                            Some(m) => resolved_as(r, pv@, m, prompt),
                        },
                    },
                },
            }
        },
    }
}

/// With no model set by the profile or the agent, an enabled worker runs
/// the default provider with the model that the defaults hold for it: the
/// resolution succeeds exactly when the table has an entry for that
/// provider, and then names that entry's model.
pub proof fn lemma_default_resolution(
    agent: Agent,
    s: WorkerDefaults,
    pv: String,
    r: Result<ResolvedProfile, CoreError>,
)
    requires
        s.wf(),
        s.default_provider == Some(pv),
        agent.delegation_profile matches Some(p) && p.enabled && worker_model(
            p.model_override,
            agent.model,
        ) is None,
        resolution(agent, Ok(s), r),
    ensures
        r is Ok <==> exists|i: int|
            0 <= i < s.default_models.len() && #[trigger] s.default_models@[i].0@ == pv@,
        forall|i: int|
            0 <= i < s.default_models.len() && #[trigger] s.default_models@[i].0@ == pv@
                ==> resolved_as(
                r,
                pv@,
                s.default_models@[i].1@,
                worker_prompt(agent.delegation_profile->Some_0.system_prompt_override),
            ),
{
    let t = model_table(s.default_models@);
    lemma_key_lookup_exact(t, pv@);
    if exists|i: int| 0 <= i < t.len() && #[trigger] t[i].0 == pv@ {
        let i = choose|i: int| 0 <= i < t.len() && #[trigger] t[i].0 == pv@;
        assert(s.default_models@[i].0@ == pv@);
    }
    assert forall|i: int|
        0 <= i < s.default_models.len() && #[trigger] s.default_models@[i].0@ == pv@ implies resolved_as(
        r,
        pv@,
        s.default_models@[i].1@,
        worker_prompt(agent.delegation_profile->Some_0.system_prompt_override),
    ) by {
        assert(t[i].0 == pv@);
        lemma_key_lookup_at(t, pv@, i);
    }
}

fn worker_prompt_text(o: &Option<String>) -> (s: String)
    ensures
        s@ == worker_prompt(*o),
{
    match o {
        Some(s) => {
            let t = trim_chars(&str_chars(s.as_str()));
            if t.len() > 0 {
                string_from_chars(&t)
            } else {
                owned(default_worker_system_prompt())
            }
        },
        None => owned(default_worker_system_prompt()),
    }
}

fn copy_model(m: &ModelRef) -> (r: ModelRef)
    ensures
        r == *m,
{
    match m {
        ModelRef::Local { id } => ModelRef::Local { id: copy_string(id) },
        ModelRef::Cloud { provider, id } => ModelRef::Cloud {
            provider: copy_string(provider),
            id: copy_string(id),
        },
    }
}

impl DelegationRunner {
    /// A runner over the given settings.
    pub fn new(settings: Result<WorkerDefaults, CoreError>) -> (r: DelegationRunner)
        ensures
            r.settings == settings,
    {
        DelegationRunner { settings }
    }

    /// The provider, model and system prompt of `agent`'s worker. Fails when
    /// the agent has no enabled worker, or when no model is set by the
    /// profile or the agent and the settings name no default provider or no
    /// default model for it (or could not be loaded).
    pub fn resolve_for(&self, agent: &Agent) -> (r: Result<ResolvedProfile, CoreError>)
        requires
            self.settings matches Ok(s) ==> s.wf(),
        ensures
            resolution(*agent, self.settings, r),
    {
        let profile = match &agent.delegation_profile {
            Some(p) => p,
            None => {
                return Err(CoreError::Llm(owned("Hintergrund-Worker für diesen Agenten ist nicht aktiviert.")));
            },
        };
        if !profile.enabled {
            return Err(CoreError::Llm(owned("Hintergrund-Worker für diesen Agenten ist nicht aktiviert.")));
        }
        let system_prompt = worker_prompt_text(&profile.system_prompt_override);
        let model = match &profile.model_override {
            Some(m) => Some(copy_model(m)),
            None => match &agent.model {
                Some(m) => Some(copy_model(m)),
                None => None,
            },
        };
        match model {
            Some(ModelRef::Local { id }) => Ok(ResolvedProfile {
                provider_id: owned("local"),
                model_id: id,
                system_prompt,
            }),
            Some(ModelRef::Cloud { provider, id }) => Ok(ResolvedProfile {
                provider_id: provider,
                model_id: id,
                system_prompt,
            }),
            None => match &self.settings {
                Err(e) => Err(e.duplicate()),
                Ok(s) => match &s.default_provider {
                    None => Err(CoreError::Llm(owned("Kein Default-Provider in den Einstellungen gesetzt."))),
                    Some(pv) => {
                        let (p, found) = find_key(&s.default_models, &str_chars(pv.as_str()));
                        proof {
                            assert(table_keys(s.default_models@) =~= crate::keyed::pair_keys(
                                model_table(s.default_models@),
                            ));
                        }
                        if found {
                            Ok(ResolvedProfile {
                                provider_id: copy_string(pv),
                                model_id: copy_string(&s.default_models[p].1),
                                system_prompt,
                            })
                        } else {
                            let mut m = owned("Kein Default-Modell für Provider ");
                            m.push_str(pv.as_str());
                            m.push_str(" hinterlegt.");
                            Err(CoreError::Llm(m))
                        }
                    },
                },
            },
        }
    }
}

/// Tokens a provider reports for one request.
#[derive(Debug, Clone, Copy, PartialEq, Eq, Structural)]
pub struct TokenUsage {
    pub input_tokens: u64,
    pub output_tokens: u64,
    pub cached_input_tokens: u64,
    pub cache_creation_input_tokens: u64,
}

/// `a + b`, or `u64::MAX` where the sum does not fit.
pub open spec fn saturated_sum(a: u64, b: u64) -> u64 {
    if a + b > u64::MAX {
        u64::MAX
    } else {
        (a + b) as u64
    }
}

impl TokenUsage {
    /// No tokens.
    pub fn none() -> (r: TokenUsage)
        ensures
            r == (TokenUsage {
                input_tokens: 0,
                output_tokens: 0,
                cached_input_tokens: 0,
                cache_creation_input_tokens: 0,
            }),
    {
        TokenUsage { input_tokens: 0, output_tokens: 0, cached_input_tokens: 0, cache_creation_input_tokens: 0 }
    }

    /// Add another request's tokens, counter by counter (a counter stops at
    /// `u64::MAX`).
    pub fn accumulate(&mut self, other: &TokenUsage)
        ensures
            final(self).input_tokens == saturated_sum(old(self).input_tokens, other.input_tokens),
            final(self).output_tokens == saturated_sum(old(self).output_tokens, other.output_tokens),
            final(self).cached_input_tokens == saturated_sum(
                old(self).cached_input_tokens,
                other.cached_input_tokens,
            ),
            final(self).cache_creation_input_tokens == saturated_sum(
                old(self).cache_creation_input_tokens,
                other.cache_creation_input_tokens,
            ),
    {
        self.input_tokens = self.input_tokens.saturating_add(other.input_tokens);
        self.output_tokens = self.output_tokens.saturating_add(other.output_tokens);
        self.cached_input_tokens = self.cached_input_tokens.saturating_add(other.cached_input_tokens);
        self.cache_creation_input_tokens = self.cache_creation_input_tokens.saturating_add(
            other.cache_creation_input_tokens,
        );
    }
}

/// One event of a worker's streamed reply.
pub enum WorkerEvent {
    /// A piece of the answer text.
    TextDelta(String),
    /// Reasoning output; a worker has nowhere to show it.
    ReasoningDelta,
    /// A tool call; workers run without tools, so it is ignored.
    ToolCall,
    /// Token usage as reported by the provider.
    Usage(TokenUsage),
    /// The provider finished (also when it hit the token limit).
    Finish,
    /// The provider failed.
    Error { code: String, message: String },
}

/// An event as plain values: text, usage, a failure, or an event without
/// effect on the answer.
pub enum WorkerEventView {
    Text(Seq<char>),
    Usage(TokenUsage),
    Failure(Seq<char>, Seq<char>),
    Ignored,
}

/// The plain values of an event.
pub open spec fn event_view(e: WorkerEvent) -> WorkerEventView {
    match e {
        WorkerEvent::TextDelta(t) => WorkerEventView::Text(t@),
        WorkerEvent::Usage(u) => WorkerEventView::Usage(u),
        WorkerEvent::Error { code, message } => WorkerEventView::Failure(code@, message@),
        _ => WorkerEventView::Ignored,
    }
}

/// The reply of a worker, as far as it has streamed.
pub struct WorkerReply {
    /// The answer text so far.
    pub text: String,
    /// The last usage reported.
    pub usage: Option<TokenUsage>,
    /// The last failure reported, as code and message.
    pub failure: Option<(String, String)>,
}

/// A reply as plain values: text, last usage, last failure.
pub type ReplyView = (Seq<char>, Option<TokenUsage>, Option<(Seq<char>, Seq<char>)>);

/// The plain values of a reply.
pub open spec fn reply_view(r: WorkerReply) -> ReplyView {
    (
        r.text@,
        r.usage,
        match r.failure {
            Some((c, m)) => Some((c@, m@)),
            None => None,
        },
    )
}

/// One event taken into a reply: text is appended, usage and failure
/// replace earlier ones, the rest changes nothing.
pub open spec fn absorbed(r: ReplyView, e: WorkerEventView) -> ReplyView {
    match e {
        WorkerEventView::Text(t) => (r.0 + t, r.1, r.2),
        WorkerEventView::Usage(u) => (r.0, Some(u), r.2),
        WorkerEventView::Failure(c, m) => (r.0, r.1, Some((c, m))),
        WorkerEventView::Ignored => r,
    }
}

/// The reply after a whole stream of events, event by event from nothing.
pub open spec fn absorbed_all(events: Seq<WorkerEventView>) -> ReplyView
    decreases events.len(),
{
    if events.len() == 0 {
        (Seq::empty(), None, None)
    } else {
        absorbed(absorbed_all(events.drop_last()), events.last())
    }
}

/// The text of all text events, in order.
pub open spec fn streamed_text(events: Seq<WorkerEventView>) -> Seq<char>
    decreases events.len(),
{
    if events.len() == 0 {
        Seq::empty()
    } else {
        streamed_text(events.drop_last()) + match events.last() {
            WorkerEventView::Text(t) => t,
            _ => Seq::empty(),
        }
    }
}

/// The last usage reported in the events.
pub open spec fn last_usage(events: Seq<WorkerEventView>) -> Option<TokenUsage>
    decreases events.len(),
{
    if events.len() == 0 {
        None
    } else {
        match events.last() {
            WorkerEventView::Usage(u) => Some(u),
            _ => last_usage(events.drop_last()),
        }
    }
}

/// The last failure reported in the events.
pub open spec fn last_failure(events: Seq<WorkerEventView>) -> Option<(Seq<char>, Seq<char>)>
    decreases events.len(),
{
    if events.len() == 0 {
        None
    } else {
        match events.last() {
            WorkerEventView::Failure(c, m) => Some((c, m)),
            _ => last_failure(events.drop_last()),
        }
    }
}

/// Over a whole stream, the reply holds the concatenated text, the last
/// usage and the last failure; reasoning, tool calls and the finish event
/// change nothing.
pub proof fn lemma_stream_reply(events: Seq<WorkerEventView>)
    ensures
        absorbed_all(events) == (streamed_text(events), last_usage(events), last_failure(events)),
    decreases events.len(),
{
    if events.len() > 0 {
        lemma_stream_reply(events.drop_last());
        if events.last() is Ignored || events.last() is Usage || events.last() is Failure {
            assert(streamed_text(events) =~= streamed_text(events.drop_last()));
        }
    }
}

/// The outcome of a worker run, given the events it streamed and whether
/// the run was cancelled by the time the stream ended: cancellation first,
/// else the last failure as `"{code}: {message}"`, else the text and the
/// last usage.
pub open spec fn stream_outcome(
    r: Result<(String, Option<TokenUsage>), CoreError>,
    events: Seq<WorkerEventView>,
    cancelled: bool,
) -> bool {
    if cancelled {
        r == Err::<(String, Option<TokenUsage>), CoreError>(CoreError::Cancelled)
    } else {
        match last_failure(events) {
            Some((c, m)) => r is Err && llm_error(r->Err_0, failure_msg(c, m)),
            None => r is Ok && r->Ok_0.0@ == streamed_text(events) && r->Ok_0.1 == last_usage(
                events,
            ),
        }
    }
}

/// A run's outcome follows from the stream alone: feeding the events one by
/// one into a fresh reply and finishing gives `stream_outcome`.
pub proof fn lemma_stream_outcome(
    events: Seq<WorkerEventView>,
    reply: ReplyView,
    cancelled: bool,
    r: Result<(String, Option<TokenUsage>), CoreError>,
)
    requires
        reply == absorbed_all(events),
        finished(reply, cancelled, r),
    ensures
        stream_outcome(r, events, cancelled),
{
    lemma_stream_reply(events);
}

/// What finishing a reply gives.
pub open spec fn finished(
    reply: ReplyView,
    cancelled: bool,
    r: Result<(String, Option<TokenUsage>), CoreError>,
) -> bool {
    if cancelled {
        r == Err::<(String, Option<TokenUsage>), CoreError>(CoreError::Cancelled)
    } else {
        match reply.2 {
            Some((c, m)) => r is Err && llm_error(r->Err_0, failure_msg(c, m)),
            None => r is Ok && r->Ok_0.0@ == reply.0 && r->Ok_0.1 == reply.1,
        }
    }
}

/// The request handed to a provider for one worker item: the worker's model
/// and system prompt, the prompt as the single user turn, no tools, at most
/// `DEFAULT_MAX_TOKENS` tokens, and no temperature (the provider's default).
pub struct WorkerRequest {
    pub model_id: String,
    pub system_prompt: Option<String>,
    /// The one user turn.
    pub user_prompt: String,
    /// Names of the tools offered; a worker is offered none.
    pub tools: Vec<String>,
    pub max_tokens: u32,
    /// A temperature is set; a worker leaves it to the provider.
    pub temperature_set: bool,
}

/// The request for one worker item.
pub fn worker_request(resolved: &ResolvedProfile, prompt: String) -> (r: WorkerRequest)
    ensures
        r.model_id@ == resolved.model_id@,
        match r.system_prompt {
            None => trim_spec(resolved.system_prompt@).len() == 0,
            Some(p) => trim_spec(resolved.system_prompt@).len() > 0 && p@ == resolved.system_prompt@,
        },
        r.user_prompt == prompt,
        r.tools@.len() == 0,
        r.max_tokens == DEFAULT_MAX_TOKENS,
        !r.temperature_set,
{
    WorkerRequest {
        model_id: copy_string(&resolved.model_id),
        system_prompt: request_system_prompt(resolved),
        user_prompt: prompt,
        tools: Vec::new(),
        max_tokens: DEFAULT_MAX_TOKENS,
        temperature_set: false,
    }
}

/// The system prompt handed to the provider: none when it is blank.
pub fn request_system_prompt(resolved: &ResolvedProfile) -> (r: Option<String>)
    ensures
        match r {
            None => trim_spec(resolved.system_prompt@).len() == 0,
            Some(p) => trim_spec(resolved.system_prompt@).len() > 0 && p@ == resolved.system_prompt@,
        },
{
    if trim_chars(&str_chars(resolved.system_prompt.as_str())).len() == 0 {
        None
    } else {
        Some(copy_string(&resolved.system_prompt))
    }
}

/// The failure message of a worker: `"{code}: {message}"`.
pub open spec fn failure_msg(code: Seq<char>, message: Seq<char>) -> Seq<char> {
    code + ": "@ + message
}

impl WorkerReply {
    /// Nothing received yet.
    pub fn new() -> (r: WorkerReply)
        ensures
            reply_view(r) == absorbed_all(Seq::empty()),
    {
        WorkerReply { text: String::new(), usage: None, failure: None }
    }

    /// Take one event into account: text is appended, usage and a failure
    /// replace earlier ones, everything else is ignored.
    pub fn absorb(&mut self, event: WorkerEvent)
        ensures
            reply_view(*final(self)) == absorbed(reply_view(*old(self)), event_view(event)),
    {
        match event {
            WorkerEvent::TextDelta(t) => self.text.push_str(t.as_str()),
            WorkerEvent::Usage(u) => self.usage = Some(u),
            WorkerEvent::Error { code, message } => self.failure = Some((code, message)),
            _ => {},
        }
    }

    /// The answer once the stream has ended: the run was cancelled, else
    /// the provider failed, else the text received with the last usage.
    pub fn finish(self, cancelled: bool) -> (r: Result<(String, Option<TokenUsage>), CoreError>)
        ensures
            finished(reply_view(self), cancelled, r),
    {
        if cancelled {
            return Err(CoreError::Cancelled);
        }
        match self.failure {
            Some((code, message)) => {
                let mut m = code;
                m.push_str(": ");
                m.push_str(message.as_str());
                Err(CoreError::Llm(m))
            },
            None => Ok((self.text, self.usage)),
        }
    }
}

} // verus!
