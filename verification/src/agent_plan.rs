//! What the agent is built from: the provider settings taken from the
//! configuration and the policy its tools ask permission under.

use vstd::prelude::*;
use crate::config::AppConfig;
use crate::providers::Providers;
use crate::strvec::copy_str;

verus! {

/// The most tool-using turns the agent takes for one prompt.
pub const MAX_TURNS: usize = 20;

/// The API key used with an OpenAI-compatible server when none is configured.
pub open spec fn local_api_key() -> Seq<char> {
    "sk-local"@
}

/// How the agent's tools obtain permission.
#[derive(Debug, Clone, Copy, PartialEq, Eq, Structural)]
pub enum ToolPolicy {
    /// Ask the permission gate, which may prompt the user.
    AskGate,
    /// Refuse every request.
    DenyAll,
}

/// Tools ask the permission gate when there is one, and are refused everything otherwise.
pub fn tool_policy(gate_available: bool) -> (p: ToolPolicy)
    ensures
        p == if gate_available {
            ToolPolicy::AskGate
        } else {
            ToolPolicy::DenyAll
        },
{
    if gate_available {
        ToolPolicy::AskGate
    } else {
        ToolPolicy::DenyAll
    }
}

/// The settings an agent is built with.
pub struct AgentSettings {
    pub provider: Providers,
    pub api_key: String,
    /// The server to talk to instead of the provider's default.
    pub base_url: Option<String>,
    pub model: String,
    pub system_prompt: String,
    pub compaction_prompt: String,
    pub compaction_threshold: usize,
    pub max_turns: usize,
}

/// The settings for `c`: its provider, model and prompts; the API key, or
/// for an OpenAI-compatible server without one the local placeholder key;
/// the base URL only when one is configured.
pub open spec fn settings_for(c: AppConfig, s: AgentSettings) -> bool {
    &&& s.provider == c.provider
    &&& s.api_key@ == if c.provider == Providers::OpenAI && c.api_key@.len() == 0 {
        local_api_key()
    } else {
        c.api_key@
    }
    &&& (c.chat_base_url@.len() == 0 ==> s.base_url is None)
    &&& (c.chat_base_url@.len() > 0 ==> (s.base_url matches Some(u) && u@ == c.chat_base_url@))
    &&& s.model@ == c.chat_model@
    &&& s.system_prompt@ == c.system_prompt@
    &&& s.compaction_prompt@ == c.compaction_prompt@
    &&& s.compaction_threshold == c.compaction_threshold
    &&& s.max_turns == MAX_TURNS
}

/// The settings an agent is built with under `config`.
pub fn agent_settings(config: &AppConfig) -> (s: AgentSettings)
    ensures
        settings_for(*config, s),
        config.api_key@.len() > 0 ==> s.api_key@ == config.api_key@,
        config.provider == Providers::OpenAI && config.api_key@.len() == 0 ==> s.api_key@ == "sk-local"@,
        config.provider != Providers::OpenAI ==> s.api_key@ == config.api_key@,
{
    let api_key = if config.provider == Providers::OpenAI && config.api_key.unicode_len() == 0 {
        String::from_str("sk-local")
    } else {
        copy_str(config.api_key.as_str())
    };
    let base_url = if config.chat_base_url.unicode_len() == 0 {
        None
    } else {
        Some(copy_str(config.chat_base_url.as_str()))
    };
    AgentSettings {
        provider: config.provider,
        api_key,
        base_url,
        model: copy_str(config.chat_model.as_str()),
        system_prompt: copy_str(config.system_prompt.as_str()),
        compaction_prompt: copy_str(config.compaction_prompt.as_str()),
        compaction_threshold: config.compaction_threshold,
        max_turns: MAX_TURNS,
    }
}

/// The configured API key is what the agent uses whenever one is set, for
/// every provider and whatever base URL is configured; only an OpenAI-style
/// set-up without a key falls back on the local placeholder, and the base URL
/// never changes the key.
pub proof fn law_configured_key_is_used(c1: AppConfig, s1: AgentSettings, c2: AppConfig, s2: AgentSettings)
    requires
        settings_for(c1, s1),
        settings_for(c2, s2),
    ensures
        c1.api_key@.len() > 0 ==> s1.api_key@ == c1.api_key@,
        c1.provider == Providers::OpenAI && c1.api_key@.len() == 0 ==> s1.api_key@ == "sk-local"@,
        c1.provider != Providers::OpenAI ==> s1.api_key@ == c1.api_key@,
        c1.provider == c2.provider && c1.api_key@ == c2.api_key@ ==> s1.api_key@ == s2.api_key@,
{
}

} // verus!
