//! How the model is reached, from what the environment says.

use crate::chars;
use vstd::prelude::*;

verus! {

pub const DEFAULT_MODEL: &'static str = "gpt-5.5";

/// How a provider of models is reached.
#[derive(Debug, Clone, PartialEq, Eq)]
pub struct ProviderConfig {
    pub api_key: Option<String>,
    pub api_base: Option<String>,
    pub organization: Option<String>,
    pub project: Option<String>,
}

/// How a model is asked to answer.
#[derive(Debug, Clone, PartialEq, Eq)]
pub struct ModelConfig {
    pub parallel_tool_calls: Option<bool>,
    pub reasoning_effort: Option<String>,
    pub reasoning_summary: Option<String>,
}

#[derive(Debug, Clone, PartialEq, Eq)]
pub struct RuntimeConfig {
    pub provider: ProviderConfig,
    pub model: ModelConfig,
    pub model_id: String,
}

/// A value of the environment without the white space at its ends; one that is blank is none.
pub open spec fn setting(value: Option<String>) -> Option<Seq<char>> {
    match value {
        Some(value) => {
            let text = chars::trimmed(value@);
            if text.len() == 0 {
                None
            } else {
                Some(text)
            }
        },
        None => None,
    }
}

pub fn env_setting(value: Option<String>) -> (kept: Option<String>)
    ensures
        crate::state::optional_text(kept) == setting(value),
{
    match value {
        Some(value) => {
            let text = chars::trim_chars(&chars::chars_of(value.as_str()));
            if text.len() == 0 {
                None
            } else {
                let kept = chars::text_of(text.as_slice(), 0, text.len());
                assert(kept@ =~= text@);
                Some(kept)
            }
        },
        None => None,
    }
}

impl RuntimeConfig {
    /// The configuration that values of the environment give.
    pub fn from_values(
        api_key: Option<String>,
        api_base: Option<String>,
        organization: Option<String>,
        project: Option<String>,
    ) -> (config: RuntimeConfig)
        ensures
            crate::state::optional_text(config.provider.api_key) == setting(api_key),
            crate::state::optional_text(config.provider.api_base) == setting(api_base),
            crate::state::optional_text(config.provider.organization) == setting(organization),
            crate::state::optional_text(config.provider.project) == setting(project),
            config.model.parallel_tool_calls == Some(true),
            config.model.reasoning_effort is None,
            config.model.reasoning_summary matches Some(summary) && summary@ == "auto"@,
            config.model_id@ == DEFAULT_MODEL@,
    {
        RuntimeConfig {
            provider: ProviderConfig {
                api_key: env_setting(api_key),
                api_base: env_setting(api_base),
                organization: env_setting(organization),
                project: env_setting(project),
            },
            model: ModelConfig {
                parallel_tool_calls: Some(true),
                reasoning_effort: None,
                reasoning_summary: Some("auto".to_owned()),
            },
            model_id: DEFAULT_MODEL.to_owned(),
        }
    }
}

/// A value of the environment is kept without the white space round it; one that is blank or missing
/// is none.
pub proof fn law_blank_settings_are_none(value: String)
    ensures
        setting(None) is None,
        setting(Some(value)) is None <==> forall|i: int|
            0 <= i < value@.len() ==> chars::is_white_space(#[trigger] value@[i]),
        setting(Some(value)) matches Some(text) ==> {
            &&& text.len() > 0
            &&& !chars::is_white_space(text[0])
            &&& !chars::is_white_space(text.last())
            &&& text == chars::trimmed(value@)
        },
{
    let text = value@;
    chars::law_trimming_takes_only_white_space(text);
    let kept = chars::trimmed(text);
    let (before, after) = choose|before: Seq<char>, after: Seq<char>|
        {
            &&& text == #[trigger] (before + kept + after)
            &&& forall|i: int| 0 <= i < before.len() ==> chars::is_white_space(#[trigger] before[i])
            &&& forall|i: int| 0 <= i < after.len() ==> chars::is_white_space(#[trigger] after[i])
        };
    if kept.len() > 0 {
        assert(text[before.len() as int] == kept[0]);
    } else {
        assert forall|i: int| 0 <= i < text.len() implies chars::is_white_space(
            #[trigger] text[i],
        ) by {
            if i < before.len() {
                assert(text[i] == before[i]);
            } else {
                assert(text[i] == after[i - before.len()]);
            }
        }
    }
}

} // verus!
