//! Agent records: what an agent is, how a draft becomes an agent, how an
//! update changes one, and its attachment slots.
use vstd::prelude::*;

use crate::error::{path_error, CoreError};
use crate::keyed::{lemma_text_lt_total, lemma_text_lt_transitive};
use crate::paths::FsPath;
use crate::sandbox::{ensure_in_agent_folder, in_folder_outcome, path_result_view};
use crate::text::{chars_lt, copy_string, owned, str_chars, str_equal, text_lt};

verus! {

broadcast use vstd::string::group_string_axioms;

/// The model an agent talks to.
pub enum ModelRef {
    Local { id: String },
    Cloud { provider: String, id: String },
}

/// Per-skill settings of an agent.
pub struct SkillSetting {
    pub hitl: Option<bool>,
}

/// Files the user attached to an agent once, kept across messages.
pub struct AgentAttachments {
    pub template_path: Option<FsPath>,
}

impl AgentAttachments {
    /// No slot is filled.
    pub fn is_empty(&self) -> (b: bool)
        ensures
            b == (self.template_path is None),
    {
        self.template_path.is_none()
    }
}

/// The background-worker settings of an agent.
pub struct DelegationProfile {
    pub enabled: bool,
    pub system_prompt_override: Option<String>,
    pub model_override: Option<ModelRef>,
}

/// The attachment slots an agent has.
#[derive(Debug, Clone, Copy, PartialEq, Eq, Structural)]
pub enum AttachmentKind {
    Template,
}

/// The skill that gives an attachment slot its meaning.
pub open spec fn required_skill_spec(kind: AttachmentKind) -> Seq<char> {
    match kind {
        AttachmentKind::Template => "document-from-template"@,
    }
}

impl AttachmentKind {
    /// The skill this slot belongs to; when the agent loses that skill the
    /// slot is cleared.
    pub fn required_skill(self) -> (s: &'static str)
        ensures
            s@ == required_skill_spec(self),
    {
        match self {
            AttachmentKind::Template => "document-from-template",
        }
    }
}

/// An agent.
pub struct Agent {
    pub id: String,
    pub name: String,
    pub icon: String,
    pub folder: Option<FsPath>,
    pub system_prompt: String,
    pub model: Option<ModelRef>,
    pub skills: Vec<String>,
    /// Settings by skill id, in ascending id order.
    pub skill_settings: Vec<(String, SkillSetting)>,
    /// Write tools run without asking the user first.
    pub hitl_disabled: bool,
    pub attachments: AgentAttachments,
    pub delegation_profile: Option<DelegationProfile>,
    pub created_at: String,
    pub updated_at: String,
}

/// What the user fills in to create an agent.
pub struct AgentDraft {
    pub name: String,
    pub icon: Option<String>,
    pub folder: Option<FsPath>,
    pub system_prompt: Option<String>,
    pub model: Option<ModelRef>,
    pub skills: Vec<String>,
    pub hitl_disabled: bool,
    pub delegation_profile: Option<DelegationProfile>,
}

/// A change to an agent; every field is optional.
pub struct AgentUpdate {
    pub name: Option<String>,
    pub icon: Option<String>,
    pub folder: Option<FsPath>,
    pub system_prompt: Option<String>,
    pub model: Option<ModelRef>,
    pub skills: Option<Vec<String>>,
    pub hitl_disabled: Option<bool>,
    pub delegation_profile: Option<DelegationProfile>,
}

/// The icon of an agent created without one.
pub open spec fn default_icon() -> Seq<char> {
    "🦊"@
}

/// The texts of a list of strings.
pub open spec fn texts(v: Seq<String>) -> Seq<Seq<char>> {
    v.map_values(|s: String| s@)
}

/// `value` if present, else `current`.
pub open spec fn or_keep<T>(value: Option<T>, current: T) -> T {
    match value {
        Some(v) => v,
        None => current,
    }
}

/// `Some(value)` if present, else `current`.
pub open spec fn or_keep_some<T>(value: Option<T>, current: Option<T>) -> Option<T> {
    match value {
        Some(v) => Some(v),
        None => current,
    }
}

/// The agent a draft becomes, given its id and the creation time.
pub open spec fn drafted(a: Agent, draft: AgentDraft, id: Seq<char>, now: Seq<char>) -> bool {
    &&& a.id@ == id
    &&& a.name == draft.name
    &&& a.icon@ == match draft.icon {
        Some(i) => i@,
        None => default_icon(),
    }
    &&& a.folder == draft.folder
    &&& a.system_prompt@ == match draft.system_prompt {
        Some(p) => p@,
        None => Seq::<char>::empty(),
    }
    &&& a.model == draft.model
    &&& a.skills == draft.skills
    &&& a.skill_settings@.len() == 0
    &&& a.hitl_disabled == draft.hitl_disabled
    &&& a.attachments.template_path is None
    &&& a.delegation_profile == draft.delegation_profile
    &&& a.created_at@ == now
    &&& a.updated_at@ == now
}

/// The agent after `update` at time `now`: each given field replaces the
/// old one; new skills without the template skill clear the template
/// attachment; the update time is `now`; nothing else changes.
pub open spec fn updated(new: Agent, old: Agent, update: AgentUpdate, now: Seq<char>) -> bool {
    &&& new.id == old.id
    &&& new.name == or_keep(update.name, old.name)
    &&& new.icon == or_keep(update.icon, old.icon)
    &&& new.folder == or_keep_some(update.folder, old.folder)
    &&& new.system_prompt == or_keep(update.system_prompt, old.system_prompt)
    &&& new.model == or_keep_some(update.model, old.model)
    &&& new.skills == or_keep(update.skills, old.skills)
    &&& new.skill_settings == old.skill_settings
    &&& new.hitl_disabled == or_keep(update.hitl_disabled, old.hitl_disabled)
    &&& new.attachments.template_path == match update.skills {
        Some(s) => if texts(s@).contains(required_skill_spec(AttachmentKind::Template)) {
            old.attachments.template_path
        } else {
            None
        },
        None => old.attachments.template_path,
    }
    &&& new.delegation_profile == or_keep_some(update.delegation_profile, old.delegation_profile)
    &&& new.created_at == old.created_at
    &&& new.updated_at@ == now
}

/// An update whose skills lack the template skill leaves the agent without
/// a template attachment; an update that leaves the skills alone keeps the
/// attachment.
pub proof fn lemma_skill_removal_clears_template(
    new: Agent,
    old: Agent,
    update: AgentUpdate,
    now: Seq<char>,
)
    requires
        updated(new, old, update, now),
    ensures
        (update.skills matches Some(s) && !texts(s@).contains(
            required_skill_spec(AttachmentKind::Template),
        )) ==> new.attachments.template_path is None,
        update.skills is None ==> new.attachments.template_path == old.attachments.template_path,
{
}

/// Whether `list` holds the text `wanted`.
fn contains_text(list: &Vec<String>, wanted: &str) -> (b: bool)
    ensures
        b == texts(list@).contains(wanted@),
{
    let mut i: usize = 0;
    while i < list.len()
        invariant
            i <= list.len(),
            forall|j: int| 0 <= j < i ==> list@[j]@ != wanted@,
        decreases list.len() - i,
    {
        if str_equal(list[i].as_str(), wanted) {
            assert(texts(list@)[i as int] == wanted@);
            return true;
        }
        i = i + 1;
    }
    proof {
        if texts(list@).contains(wanted@) {
            let j = choose|j: int| 0 <= j < texts(list@).len() && texts(list@)[j] == wanted@;
            assert(list@[j]@ == wanted@);
        }
    }
    false
}

/// A fresh random agent id (`Uuid::new_v4`, hyphenated lower-case hex).
#[verifier::external_body]
fn new_agent_id() -> (id: String)
    ensures
        id@.len() == 36,
{
    uuid::Uuid::new_v4().to_string()
}

/// The current time as RFC 3339 text (`Utc::now().to_rfc3339()`).
#[verifier::external_body]
fn now_rfc3339() -> String {
    chrono::Utc::now().to_rfc3339()
}

impl Agent {
    /// The agent a draft becomes, with the given id and creation time.
    pub fn from_draft_at(draft: AgentDraft, id: String, now: String) -> (a: Agent)
        ensures
            drafted(a, draft, id@, now@),
    {
        let icon = match draft.icon {
            Some(i) => i,
            None => owned("🦊"),
        };
        let system_prompt = match draft.system_prompt {
            Some(p) => p,
            None => String::new(),
        };
        let created_at = copy_string(&now);
        Agent {
            id,
            name: draft.name,
            icon,
            folder: draft.folder,
            system_prompt,
            model: draft.model,
            skills: draft.skills,
            skill_settings: Vec::new(),
            hitl_disabled: draft.hitl_disabled,
            attachments: AgentAttachments { template_path: None },
            delegation_profile: draft.delegation_profile,
            created_at,
            updated_at: now,
        }
    }

    /// A new agent from a draft, with a fresh random id, created now.
    pub fn from_draft(draft: AgentDraft) -> (a: Agent)
        ensures
            a.id@.len() == 36,
            drafted(a, draft, a.id@, a.created_at@),
    {
        let now = now_rfc3339();
        let id = new_agent_id();
        Agent::from_draft_at(draft, id, now)
    }

    /// Apply `update` at time `now`.
    pub fn apply_update_at(&mut self, update: AgentUpdate, now: String)
        ensures
            updated(*final(self), *old(self), update, now@),
    {
        let ghost u = update;
        let AgentUpdate {
            name,
            icon,
            folder,
            system_prompt,
            model,
            skills,
            hitl_disabled,
            delegation_profile,
        } = update;
        if let Some(v) = name {
            self.name = v;
        }
        if let Some(v) = icon {
            self.icon = v;
        }
        if let Some(v) = folder {
            self.folder = Some(v);
        }
        if let Some(v) = system_prompt {
            self.system_prompt = v;
        }
        if let Some(v) = model {
            self.model = Some(v);
        }
        if let Some(v) = skills {
            self.skills = v;
            if !contains_text(&self.skills, AttachmentKind::Template.required_skill()) {
                self.attachments.template_path = None;
            }
        }
        if let Some(v) = hitl_disabled {
            self.hitl_disabled = v;
        }
        if let Some(v) = delegation_profile {
            self.delegation_profile = Some(v);
        }
        self.updated_at = now;
    }

    /// Apply `update` now.
    pub fn apply_update(&mut self, update: AgentUpdate)
        ensures
            updated(*final(self), *old(self), update, final(self).updated_at@),
    {
        let now = now_rfc3339();
        self.apply_update_at(update, now);
    }

    /// Fill or clear one attachment slot at time `now`. The caller has
    /// checked the path against the agent folder.
    pub fn set_attachment_at(&mut self, kind: AttachmentKind, path: Option<FsPath>, now: String)
        ensures
            final(self).attachments.template_path == path,
            final(self).updated_at@ == now@,
            final(self).id == old(self).id,
            final(self).name == old(self).name,
            final(self).icon == old(self).icon,
            final(self).folder == old(self).folder,
            final(self).system_prompt == old(self).system_prompt,
            final(self).model == old(self).model,
            final(self).skills == old(self).skills,
            final(self).skill_settings == old(self).skill_settings,
            final(self).hitl_disabled == old(self).hitl_disabled,
            final(self).delegation_profile == old(self).delegation_profile,
            final(self).created_at == old(self).created_at,
    {
        match kind {
            AttachmentKind::Template => self.attachments.template_path = path,
        }
        self.updated_at = now;
    }

    /// Fill or clear one attachment slot now.
    pub fn set_attachment(&mut self, kind: AttachmentKind, path: Option<FsPath>)
        ensures
            final(self).attachments.template_path == path,
            final(self).id == old(self).id,
            final(self).name == old(self).name,
            final(self).icon == old(self).icon,
            final(self).folder == old(self).folder,
            final(self).system_prompt == old(self).system_prompt,
            final(self).model == old(self).model,
            final(self).skills == old(self).skills,
            final(self).skill_settings == old(self).skill_settings,
            final(self).hitl_disabled == old(self).hitl_disabled,
            final(self).delegation_profile == old(self).delegation_profile,
            final(self).created_at == old(self).created_at,
    {
        let now = now_rfc3339();
        self.set_attachment_at(kind, path, now);
    }

    /// The path in one attachment slot.
    pub fn attachment(&self, kind: AttachmentKind) -> (r: Option<&FsPath>)
        ensures
            match kind {
                AttachmentKind::Template => match self.attachments.template_path {
                    Some(p) => r == Some(&p),
                    None => r is None,
                },
            },
    {
        match kind {
            AttachmentKind::Template => self.attachments.template_path.as_ref(),
        }
    }
}

/// Where agent records are kept: one `<id>.json` file each in one folder.
pub struct AgentRepo {
    pub dir: FsPath,
}

impl AgentRepo {
    /// The repository over the given folder.
    pub fn new(dir: FsPath) -> (r: AgentRepo)
        ensures
            r.dir == dir,
    {
        AgentRepo { dir }
    }

    /// The file name of an agent's record.
    pub fn file_name_for(id: &str) -> (r: String)
        ensures
            r@ == id@ + ".json"@,
    {
        let mut r = owned(id);
        r.push_str(".json");
        r
    }

    /// The record of agent `id` must exist (before it is deleted).
    pub fn ensure_exists(&self, id: &str, exists: bool) -> (r: Result<(), CoreError>)
        ensures
            exists ==> r is Ok,
            !exists ==> (r matches Err(CoreError::AgentNotFound(m)) && m@ == id@),
    {
        if exists {
            Ok(())
        } else {
            Err(CoreError::AgentNotFound(owned(id)))
        }
    }

    /// The agent with id `id`, given what reading its record gave: `None`
    /// when the record does not exist, else the agent read or the reason it
    /// could not be read.
    pub fn get(&self, id: &str, stored: Option<Result<Agent, CoreError>>) -> (r: Result<
        Agent,
        CoreError,
    >)
        ensures
            match stored {
                None => r matches Err(CoreError::AgentNotFound(m)) && m@ == id@,
                Some(s) => r == s,
            },
    {
        match stored {
            None => Err(CoreError::AgentNotFound(owned(id))),
            Some(s) => s,
        }
    }
}


/// `a` and `b` agree on everything but the template attachment.
pub open spec fn same_but_template(a: Agent, b: Agent) -> bool {
    &&& a.id == b.id
    &&& a.name == b.name
    &&& a.icon == b.icon
    &&& a.folder == b.folder
    &&& a.system_prompt == b.system_prompt
    &&& a.model == b.model
    &&& a.skills == b.skills
    &&& a.skill_settings == b.skill_settings
    &&& a.hitl_disabled == b.hitl_disabled
    &&& a.delegation_profile == b.delegation_profile
    &&& a.created_at == b.created_at
    &&& a.updated_at == b.updated_at
}

/// Drop the template attachment when its file is no longer a file inside
/// the agent folder (renamed, removed, or now pointing outside), given the
/// canonical forms of the attachment (joined onto the folder when
/// relative) and of the folder, or why either could not be had. Returns
/// whether the attachment was dropped; an agent without folder or without
/// attachment is left alone.
pub fn prune_broken_attachments(
    agent: &mut Agent,
    canonical_template: Result<FsPath, String>,
    canonical_root: Result<FsPath, String>,
) -> (changed: bool)
    ensures
        changed == (old(agent).folder is Some && old(agent).attachments.template_path is Some
            && in_folder_outcome(
            path_result_view(canonical_template),
            path_result_view(canonical_root),
        ) is Err),
        same_but_template(*final(agent), *old(agent)),
        final(agent).attachments.template_path == if changed {
            None
        } else {
            old(agent).attachments.template_path
        },
{
    if agent.folder.is_none() || agent.attachments.template_path.is_none() {
        return false;
    }
    match ensure_in_agent_folder(canonical_template, canonical_root) {
        Ok(_) => false,
        Err(_) => {
            agent.attachments.template_path = None;
            true
        },
    }
}

/// The path to put into an attachment slot: none to clear it, else the
/// requested path checked against the agent folder, given the canonical
/// forms of the requested path (joined onto the folder when relative) and
/// of the folder.
pub fn resolve_attachment(
    folder: Option<&FsPath>,
    requested: Option<(Result<FsPath, String>, Result<FsPath, String>)>,
) -> (r: Result<Option<FsPath>, CoreError>)
    ensures
        match requested {
            None => r == Ok::<Option<FsPath>, CoreError>(None),
            Some((target, root)) => match folder {
                None => r is Err && path_error(r->Err_0, "agent has no folder"@),
                Some(_) => match in_folder_outcome(path_result_view(target), path_result_view(root)) {
                    Ok(p) => r is Ok && r->Ok_0 is Some && r->Ok_0->Some_0@ == p,
                    Err(e) => r == Err::<Option<FsPath>, CoreError>(e),
                },
            },
        },
{
    match requested {
        None => Ok(None),
        Some((target, root)) => match folder {
            None => Err(CoreError::PathInvalid(owned("agent has no folder"))),
            Some(_) => match ensure_in_agent_folder(target, root) {
                Ok(p) => Ok(Some(p)),
                Err(e) => Err(e),
            },
        },
    }
}


/// The position after the last agent of `sorted` created no later than
/// `key`.
pub open spec fn created_upper_bound(sorted: Seq<Agent>, key: Seq<char>) -> int
    decreases sorted.len(),
{
    if sorted.len() == 0 {
        0
    } else if text_lt(key, sorted[0].created_at@) {
        0
    } else {
        1 + created_upper_bound(sorted.drop_first(), key)
    }
}

/// Agents in order of their creation time (compared as text); agents with
/// the same creation time keep their order.
pub open spec fn by_creation(s: Seq<Agent>) -> Seq<Agent>
    decreases s.len(),
{
    if s.len() == 0 {
        Seq::empty()
    } else {
        let t = by_creation(s.drop_last());
        t.insert(created_upper_bound(t, s.last().created_at@), s.last())
    }
}

/// No agent comes after one created later.
pub open spec fn creation_sorted(s: Seq<Agent>) -> bool {
    forall|i: int, j: int| 0 <= i < j < s.len() ==> !text_lt(s[j].created_at@, s[i].created_at@)
}

proof fn lemma_created_upper_bound(t: Seq<Agent>, key: Seq<char>)
    requires
        creation_sorted(t),
    ensures
        0 <= created_upper_bound(t, key) <= t.len(),
        forall|k: int|
            0 <= k < created_upper_bound(t, key) ==> !text_lt(key, #[trigger] t[k].created_at@),
        forall|k: int|
            created_upper_bound(t, key) <= k < t.len() ==> text_lt(key, #[trigger] t[k].created_at@),
    decreases t.len(),
{
    if t.len() > 0 {
        let rest = t.drop_first();
        assert forall|i: int, j: int| 0 <= i < j < rest.len() implies !text_lt(
            rest[j].created_at@,
            rest[i].created_at@,
        ) by {
            assert(rest[i] == t[i + 1] && rest[j] == t[j + 1]);
        }
        lemma_created_upper_bound(rest, key);
        if text_lt(key, t[0].created_at@) {
            assert forall|k: int| 0 <= k < t.len() implies text_lt(key, #[trigger] t[k].created_at@) by {
                if k > 0 {
                    lemma_text_lt_total(t[0].created_at@, t[k].created_at@);
                    if t[0].created_at@ != t[k].created_at@ {
                        lemma_text_lt_transitive(key, t[0].created_at@, t[k].created_at@);
                    }
                }
            }
        } else {
            assert forall|k: int| 0 < k < t.len() implies #[trigger] t[k] == rest[k - 1] by {}
        }
    }
}

/// Sorting by creation keeps every agent and orders them by creation time.
pub proof fn lemma_by_creation(s: Seq<Agent>)
    ensures
        creation_sorted(by_creation(s)),
        by_creation(s).to_multiset() == s.to_multiset(),
        by_creation(s).len() == s.len(),
    decreases s.len(),
{
    broadcast use vstd::seq_lib::to_multiset_insert, vstd::seq_lib::to_multiset_build;

    if s.len() == 0 {
        assert(by_creation(s) =~= s);
    } else {
        let t = by_creation(s.drop_last());
        lemma_by_creation(s.drop_last());
        let x = s.last();
        let key = x.created_at@;
        lemma_created_upper_bound(t, key);
        let p = created_upper_bound(t, key);
        let r = t.insert(p, x);
        assert forall|i: int, j: int| 0 <= i < j < r.len() implies !text_lt(
            r[j].created_at@,
            r[i].created_at@,
        ) by {
            if j < p {
                assert(r[i] == t[i] && r[j] == t[j]);
            } else if j == p {
                assert(r[i] == t[i]);
            } else if i < p {
                assert(r[i] == t[i] && r[j] == t[j - 1]);
                lemma_text_lt_total(t[j - 1].created_at@, key);
                if text_lt(t[j - 1].created_at@, t[i].created_at@) {
                    lemma_text_lt_total(t[i].created_at@, key);
                    if t[i].created_at@ != key {
                        lemma_text_lt_transitive(key, t[j - 1].created_at@, t[i].created_at@);
                    }
                }
            } else if i == p {
                assert(r[j] == t[j - 1]);
                lemma_text_lt_total(key, t[j - 1].created_at@);
            } else {
                assert(r[i] == t[i - 1] && r[j] == t[j - 1]);
            }
        }
        assert(s =~= s.drop_last().push(x));
    }
}

fn created_after(key: &Vec<char>, a: &Agent) -> (b: bool)
    ensures
        b == text_lt(key@, a.created_at@),
{
    chars_lt(key, &str_chars(a.created_at.as_str()))
}

/// Agents in order of creation time; equal times keep their order.
pub fn sort_by_creation(agents: Vec<Agent>) -> (r: Vec<Agent>)
    ensures
        r@ == by_creation(agents@),
{
    let ghost input = agents@;
    let n = agents.len();
    let mut rest = agents;
    let mut out: Vec<Agent> = Vec::new();
    let mut i: usize = 0;
    assert(input.take(0) =~= Seq::<Agent>::empty());
    assert(input.skip(0) =~= input);
    while rest.len() > 0
        invariant
            i <= input.len(),
            input.len() == n,
            rest@ == input.skip(i as int),
            out@ == by_creation(input.take(i as int)),
        decreases rest.len(),
    {
        assert(rest@.len() == input.len() - i);
        assert(i < input.len());
        let a = rest.remove(0);
        assert(input.skip(i as int)[0] == input[i as int]);
        assert(input.skip(i as int).remove(0) =~= input.skip(i + 1));
        let key = str_chars(a.created_at.as_str());
        let ghost sorted = out@;
        let mut p: usize = 0;
        assert(sorted.skip(0) =~= sorted);
        while p < out.len() && !created_after(&key, &out[p])
            invariant
                p <= out.len(),
                out@ == sorted,
                key@ == a.created_at@,
                created_upper_bound(sorted, key@) == p + created_upper_bound(
                    sorted.skip(p as int),
                    key@,
                ),
            decreases out.len() - p,
        {
            assert(sorted.skip(p as int)[0] == sorted[p as int]);
            assert(sorted.skip(p as int).drop_first() =~= sorted.skip(p + 1));
            p = p + 1;
        }
        proof {
            if p == out.len() {
                assert(sorted.skip(p as int) =~= Seq::<Agent>::empty());
            } else {
                assert(sorted.skip(p as int)[0] == sorted[p as int]);
            }
            assert(created_upper_bound(sorted, key@) == p);
            assert(input.take(i + 1).drop_last() =~= input.take(i as int));
            assert(input.take(i + 1).last() == a);
        }
        out.insert(p, a);
        i = i + 1;
    }
    assert(input.skip(i as int).len() == 0);
    assert(input.take(i as int) =~= input);
    out
}

/// The extension of a file name as `Path::extension` gives it: the text
/// after the last dot, unless there is no dot or the only one starts the
/// name.
pub open spec fn extension_of(name: Seq<u8>) -> Option<Seq<u8>> {
    if exists|k: int| 0 <= k < name.len() && name[k] == 46u8 {
        let k = choose|k: int|
            0 <= k < name.len() && name[k] == 46u8 && forall|j: int|
                k < j < name.len() ==> name[j] != 46u8;
        if k == 0 {
            None
        } else {
            Some(name.skip(k + 1))
        }
    } else {
        None
    }
}

/// Whether a file in the agents folder holds an agent record: its
/// extension is `json`.
pub fn is_record_file(name: &Vec<u8>) -> (b: bool)
    ensures
        b == (extension_of(name@) == Some(seq![106u8, 115u8, 111u8, 110u8])),
{
    let mut k: usize = name.len();
    while k > 0 && name[k - 1] != 46u8
        invariant
            k <= name.len(),
            forall|j: int| k <= j < name.len() ==> name@[j] != 46u8,
        decreases k,
    {
        k = k - 1;
    }
    if k == 0 {
        proof {
            assert(!exists|q: int| 0 <= q < name@.len() && name@[q] == 46u8);
        }
        return false;
    }
    let dot = k - 1;
    proof {
        assert(name@[dot as int] == 46u8);
        let c = choose|q: int|
            0 <= q < name@.len() && name@[q] == 46u8 && forall|j: int|
                q < j < name@.len() ==> name@[j] != 46u8;
        assert(c == dot) by {
            if c < dot {
                assert(name@[dot as int] != 46u8);
            }
            if c > dot {
                assert(name@[c] != 46u8);
            }
        }
    }
    if dot == 0 {
        return false;
    }
    let ext_ok = name.len() - k == 4 && name[k] == 106u8 && name[k + 1] == 115u8 && name[k + 2]
        == 111u8 && name[k + 3] == 110u8;
    proof {
        let e = name@.skip(k as int);
        if ext_ok {
            assert(e =~= seq![106u8, 115u8, 111u8, 110u8]);
        } else if e.len() == 4 {
            assert(e[0] == name@[k as int] && e[1] == name@[k + 1] && e[2] == name@[k + 2] && e[3]
                == name@[k + 3]);
        }
    }
    ext_ok
}

} // verus!
