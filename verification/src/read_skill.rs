//! The tool that loads the full instructions of a skill on demand.
use vstd::prelude::*;

use crate::error::{llm_error, CoreError};
use crate::text::{copy_string, owned, str_chars, str_equal, trim_chars, trim_spec};
use crate::tool::ToolOutput;

verus! {

broadcast use vstd::string::group_string_axioms;

/// One skill: its id, title and instructions.
pub struct SkillEntry {
    pub id: String,
    pub name: String,
    pub body: String,
}

/// Loads a skill's instructions by id.
pub struct ReadSkillTool {
    pub skills: Vec<SkillEntry>,
}

/// The message for an unknown skill id.
pub open spec fn unknown_skill_msg(id: Seq<char>) -> Seq<char> {
    "Unknown skill id `"@ + id
        + "`. Valid ids are listed under \"Available skills\" in the system prompt."@
}

/// The text handed back for a skill: its instructions, or a note that it
/// has none.
pub open spec fn skill_text(s: SkillEntry) -> Seq<char> {
    if trim_spec(s.body@).len() == 0 {
        "Skill `"@ + s.name@ + "` has no body — the description in the system prompt is all there is."@
    } else {
        s.body@
    }
}

impl ReadSkillTool {
    /// The tool over the given skills.
    pub fn new(skills: Vec<SkillEntry>) -> (t: ReadSkillTool)
        ensures
            t.skills == skills,
    {
        ReadSkillTool { skills }
    }

    /// The tool's name.
    pub fn name(&self) -> (s: &'static str)
        ensures
            s@ == "read_skill"@,
    {
        "read_skill"
    }

    /// The instructions of the first skill with id `skill_id`.
    pub fn read(&self, skill_id: &str) -> (r: Result<ToolOutput, CoreError>)
        ensures
            match r {
                Ok(out) => exists|i: int|
                    0 <= i < self.skills@.len() && self.skills@[i].id@ == skill_id@ && (forall|j: int|
                        0 <= j < i ==> self.skills@[j].id@ != skill_id@) && out.content@
                        == skill_text(#[trigger] self.skills@[i]) && out.ui_hint is None,
                Err(e) => llm_error(e, unknown_skill_msg(skill_id@)) && forall|j: int|
                    0 <= j < self.skills@.len() ==> self.skills@[j].id@ != skill_id@,
            },
    {
        let mut i: usize = 0;
        while i < self.skills.len()
            invariant
                i <= self.skills.len(),
                forall|j: int| 0 <= j < i ==> self.skills@[j].id@ != skill_id@,
            decreases self.skills.len() - i,
        {
            let s = &self.skills[i];
            if str_equal(s.id.as_str(), skill_id) {
                let body = if trim_chars(&str_chars(s.body.as_str())).len() == 0 {
                    let mut m = owned("Skill `");
                    m.push_str(s.name.as_str());
                    m.push_str("` has no body — the description in the system prompt is all there is.");
                    m
                } else {
                    copy_string(&s.body)
                };
                let out = ToolOutput::text(body);
                assert(out.content@ == skill_text(self.skills@[i as int]));
                return Ok(out);
            }
            i = i + 1;
        }
        let mut m = owned("Unknown skill id `");
        m.push_str(skill_id);
        m.push_str("`. Valid ids are listed under \"Available skills\" in the system prompt.");
        Err(CoreError::Llm(m))
    }
}

} // verus!
