//! Skills, and what a model is told of them.

use crate::chars;
use vstd::prelude::*;

verus! {

/// What is known of a skill without loading it.
#[derive(Debug, PartialEq, Eq)]
pub struct SkillSummary {
    pub name: String,
    pub description: String,
}

impl SkillSummary {
    pub fn new(name: String, description: String) -> (summary: SkillSummary)
        ensures
            summary.name == name,
            summary.description == description,
    {
        SkillSummary { name, description }
    }
}

/// The instructions of a skill, and the directory that its files are in.
#[derive(Debug, PartialEq, Eq)]
pub struct SkillDocument {
    pub summary: SkillSummary,
    pub root: String,
    pub content: String,
}

impl SkillDocument {
    pub fn new(summary: SkillSummary, root: String, content: String) -> (document: SkillDocument)
        ensures
            document.summary == summary,
            document.root == root,
            document.content == content,
    {
        SkillDocument { summary, root, content }
    }
}

/// The line on a skill.
pub open spec fn skill_line(name: Seq<char>, description: Seq<char>) -> Seq<char> {
    "- `"@ + name + "`: "@ + description
}

/// What a model is told of skills that it can load.
pub open spec fn skills_prompt(skills: Seq<SkillSummary>) -> Seq<char> {
    "Use skills via progressive disclosure. If the task matches a skill below, call `load_skill` once with the exact skill name, then follow the loaded instructions. Run skill scripts/assets only when those instructions require it.\n\n## Available Skills\n\n"@
        + chars::join(
        Seq::new(skills.len(), |i: int| skill_line(skills[i].name@, skills[i].description@)),
        "\n"@,
    ) + "\n"@
}

pub fn format_available_skills_prompt(skills: &Vec<SkillSummary>) -> (prompt: Option<String>)
    ensures
        match prompt {
            Some(prompt) => skills@.len() > 0 && prompt@ == skills_prompt(skills@),
            None => skills@.len() == 0,
        },
{
    if skills.len() == 0 {
        return None;
    }
    let mut lines: Vec<String> = Vec::new();
    let mut i: usize = 0;
    while i < skills.len()
        invariant
            i <= skills@.len(),
            lines@.len() == i,
            forall|j: int|
                0 <= j < i ==> (#[trigger] lines@[j])@ == skill_line(
                    skills@[j].name@,
                    skills@[j].description@,
                ),
        decreases skills@.len() - i,
    {
        let mut line: String = "- `".to_owned();
        line.append(skills[i].name.as_str());
        line.append("`: ");
        line.append(skills[i].description.as_str());
        lines.push(line);
        i = i + 1;
    }
    assert(chars::texts(lines@) =~= Seq::new(
        skills@.len(),
        |i: int| skill_line(skills@[i].name@, skills@[i].description@),
    ));
    let mut prompt: String =
        "Use skills via progressive disclosure. If the task matches a skill below, call `load_skill` once with the exact skill name, then follow the loaded instructions. Run skill scripts/assets only when those instructions require it.\n\n## Available Skills\n\n".to_owned();
    prompt.append(chars::join_texts(&lines, "\n").as_str());
    prompt.append("\n");
    Some(prompt)
}

/// A text without the line breaks at its end.
pub open spec fn without_end_breaks(text: Seq<char>) -> Seq<char> {
    text.take(text.len() - chars::trailing(text, |c: char| c == '\n'))
}

/// What a model is given of a skill that it loads.
pub open spec fn skill_text(
    name: Seq<char>,
    description: Seq<char>,
    root: Seq<char>,
    content: Seq<char>,
) -> Seq<char> {
    "## Loaded Skill\n\n- Name: `"@ + name + "`\n- Description: "@ + description + "\n- Root: `"@
        + root
        + "` — resolve relative file references against this directory.\n\n--- SKILL.md ---\n"@
        + without_end_breaks(content) + "\n--- END SKILL.md ---"@
}

/// A text without the line breaks at its end.
fn trim_end_breaks(text: &str) -> (kept: String)
    ensures
        kept@ == without_end_breaks(text@),
{
    let characters = chars::chars_of(text);
    let ghost is_break = |c: char| c == '\n';
    let mut end: usize = characters.len();
    assert(text@.take(end as int) =~= text@);
    while end > 0 && characters[end - 1] == '\n'
        invariant
            end <= characters@.len(),
            characters@ == text@,
            is_break == (|c: char| c == '\n'),
            chars::trailing(text@, is_break) == (text@.len() - end) + chars::trailing(
                text@.take(end as int),
                is_break,
            ),
        decreases end,
    {
        assert(text@.take(end as int).drop_last() =~= text@.take(end - 1));
        end = end - 1;
    }
    assert(chars::trailing(text@.take(end as int), is_break) == 0);
    let kept = chars::text_of(characters.as_slice(), 0, end);
    assert(kept@ =~= without_end_breaks(text@));
    kept
}

pub fn format_skill_document(skill: &SkillDocument) -> (text: String)
    ensures
        text@ == skill_text(
            skill.summary.name@,
            skill.summary.description@,
            skill.root@,
            skill.content@,
        ),
{
    let mut text: String = "## Loaded Skill\n\n- Name: `".to_owned();
    text.append(skill.summary.name.as_str());
    text.append("`\n- Description: ");
    text.append(skill.summary.description.as_str());
    text.append("\n- Root: `");
    text.append(skill.root.as_str());
    text.append(
        "` — resolve relative file references against this directory.\n\n--- SKILL.md ---\n",
    );
    text.append(trim_end_breaks(skill.content.as_str()).as_str());
    text.append("\n--- END SKILL.md ---");
    text
}

/// The instructions of a skill are given whole, but for line breaks at their end, between two marks.
pub proof fn law_skill_is_given_whole(
    name: Seq<char>,
    description: Seq<char>,
    root: Seq<char>,
    content: Seq<char>,
)
    ensures
        exists|before: Seq<char>|
            skill_text(name, description, root, content) == #[trigger] (before
                + "--- SKILL.md ---\n"@ + without_end_breaks(content) + "\n--- END SKILL.md ---"@),
        without_end_breaks(content).is_prefix_of(content),
        forall|i: int|
            without_end_breaks(content).len() <= i < content.len() ==> #[trigger] content[i]
                == '\n',
        without_end_breaks(content).len() > 0 ==> without_end_breaks(content).last() != '\n',
{
    let ends = |c: char| c == '\n';
    lemma_end_breaks(content, ends);
    let kept = without_end_breaks(content);
    assert(kept =~= content.subrange(0, kept.len() as int));
    reveal_strlit("` — resolve relative file references against this directory.\n\n--- SKILL.md ---\n");
    reveal_strlit("--- SKILL.md ---\n");
    let middle =
        "` — resolve relative file references against this directory.\n\n--- SKILL.md ---\n"@;
    let mark = "--- SKILL.md ---\n"@;
    let note = middle.take(middle.len() - mark.len());
    assert(middle =~= note + mark);
    let before = "## Loaded Skill\n\n- Name: `"@ + name + "`\n- Description: "@ + description
        + "\n- Root: `"@ + root + note;
    assert(skill_text(name, description, root, content) =~= before + mark + kept
        + "\n--- END SKILL.md ---"@);
}

proof fn lemma_end_breaks(text: Seq<char>, ends: spec_fn(char) -> bool)
    requires
        ends == (|c: char| c == '\n'),
    ensures
        chars::trailing(text, ends) <= text.len(),
        forall|i: int|
            text.len() - chars::trailing(text, ends) <= i < text.len() ==> #[trigger] text[i]
                == '\n',
        chars::trailing(text, ends) < text.len() ==> text[text.len() - chars::trailing(text, ends)
            - 1] != '\n',
    decreases text.len(),
{
    if text.len() > 0 && ends(text.last()) {
        lemma_end_breaks(text.drop_last(), ends);
        assert forall|i: int|
            text.len() - chars::trailing(text, ends) <= i < text.len() implies #[trigger] text[i]
            == '\n' by {
            if i < text.len() - 1 {
                assert(text.drop_last()[i] == text[i]);
            }
        }
    }
}

/// A loaded skill is given with its name, its description and the directory of its files.
pub proof fn law_skill_is_given_with_its_name_and_root(
    name: Seq<char>,
    description: Seq<char>,
    root: Seq<char>,
    content: Seq<char>,
)
    ensures
        exists|rest: Seq<char>|
            skill_text(name, description, root, content) == #[trigger] (
            "## Loaded Skill\n\n- Name: `"@ + name + "`\n- Description: "@ + description
                + "\n- Root: `"@ + root + rest),
{
    let rest =
        "` — resolve relative file references against this directory.\n\n--- SKILL.md ---\n"@
        + without_end_breaks(content) + "\n--- END SKILL.md ---"@;
    assert(skill_text(name, description, root, content) =~= "## Loaded Skill\n\n- Name: `"@ + name
        + "`\n- Description: "@ + description + "\n- Root: `"@ + root + rest);
}

/// A model is told of every skill that there is, each in a line of its own with its name and its
/// description, in their order.
pub proof fn law_every_skill_is_told(skills: Seq<SkillSummary>)
    ensures
        exists|lines: Seq<Seq<char>>, intro: Seq<char>|
            {
                &&& lines.len() == skills.len()
                &&& forall|i: int|
                    0 <= i < skills.len() ==> #[trigger] lines[i] == "- `"@ + skills[i].name@
                        + "`: "@ + skills[i].description@
                &&& skills_prompt(skills) == #[trigger] (intro + chars::join(lines, "\n"@)
                    + "\n"@)
            },
{
    let lines = Seq::new(
        skills.len(),
        |i: int| skill_line(skills[i].name@, skills[i].description@),
    );
    let intro =
        "Use skills via progressive disclosure. If the task matches a skill below, call `load_skill` once with the exact skill name, then follow the loaded instructions. Run skill scripts/assets only when those instructions require it.\n\n## Available Skills\n\n"@;
    assert(skills_prompt(skills) == intro + chars::join(lines, "\n"@) + "\n"@);
}

} // verus!
