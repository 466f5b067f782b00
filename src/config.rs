use crate::summarize::SummarizationPolicy;
use crate::text::{lower_of, lowercase};
use std::collections::HashMap;
use vstd::prelude::*;

verus! {

/// How the assistant reaches a tool server.
pub enum McpTransport {
    Stdio,
    Sse,
}

/// One configured tool server.
pub struct McpServerConfig {
    pub name: String,
    pub transport: McpTransport,
    pub command: Option<String>,
    pub args: Option<Vec<String>>,
    pub url: Option<String>,
    pub env: Option<HashMap<String, String>>,
}

/// The transport a configured transport name stands for, compared in lower
/// case: `sse` is SSE; `http` and `https` are SSE when a URL is given and stdio
/// otherwise; `stdio`, `child_process`, `child-process`, a missing name and any
/// other name are stdio.
pub open spec fn transport_for(lowered: Option<Seq<char>>, has_url: bool) -> McpTransport {
    match lowered {
        Some(t) => if t == "sse"@ {
            McpTransport::Sse
        } else if (t == "http"@ || t == "https"@) && has_url {
            McpTransport::Sse
        } else {
            McpTransport::Stdio
        },
        None => McpTransport::Stdio,
    }
}

fn is_word(s: &String, w: &str) -> (r: bool)
    ensures
        r == (s@ == w@),
{
    let t = String::from_str(w);
    *s == t
}

impl McpTransport {
    /// The transport for a configured name (if any) and whether the server has a URL.
    pub fn resolve(raw: Option<&String>, has_url: bool) -> (r: McpTransport)
        ensures
            r == transport_for(
                match raw {
                    Some(s) => Some(lower_of(s@)),
                    None => None,
                },
                has_url,
            ),
    {
        match raw {
            None => McpTransport::Stdio,
            Some(s) => {
                let t = lowercase(s.as_str());
                if is_word(&t, "sse") {
                    McpTransport::Sse
                } else if (is_word(&t, "http") || is_word(&t, "https")) && has_url {
                    McpTransport::Sse
                } else {
                    McpTransport::Stdio
                }
            },
        }
    }
}

/// The assistant's settings, read once at start.
pub struct Config {
    pub discord_token: String,
    pub application_id: u64,
    pub owner_id: Option<u64>,
    pub llama_url: String,
    pub llama_model: String,
    pub llama_api_key: Option<String>,
    pub embedding_url: String,
    pub embedding_model: String,
    pub embedding_api_key: Option<String>,
    pub database_url: String,
    pub system_prompt: String,
    pub max_context_messages: usize,
    pub status_message: String,
    pub youtube_cookies: Option<String>,
    pub youtube_download_dir: String,
    pub youtube_cleanup_after_secs: u64,
    pub mcp_servers: Vec<McpServerConfig>,
    pub context_message_limit: usize,
    pub context_retention_hours: u64,
    pub llm_timeout_secs: u64,
    pub embedding_timeout_secs: u64,
    pub mcp_timeout_secs: u64,
    pub voice_idle_timeout_secs: u64,
    pub dev_guild_id: Option<u64>,
    pub register_commands: bool,
    pub mcp_tools_require_confirmation: bool,
    pub agent_confirm_timeout_secs: u64,
    pub embedding_indexer_enabled: bool,
    pub embedding_indexer_batch_size: usize,
    pub embedding_indexer_interval_secs: u64,
    pub summarization_enabled: bool,
    pub summarization_interval_secs: u64,
    pub summarization_active_channels_lookback_days: i64,
    pub summarization_initial_min_messages: usize,
    pub summarization_trigger_new_messages: usize,
    pub summarization_trigger_age_hours: i64,
    pub summarization_trigger_min_new_messages: usize,
    pub summarization_max_tokens: usize,
    pub summarization_refresh_weeks: i64,
    pub summarization_refresh_days_lookback: i64,
    pub long_term_retention_days: u64,
}

impl SummarizationPolicy {
    /// The summarization settings of `config`.
    pub fn from_config(config: &Config) -> (r: SummarizationPolicy)
        ensures
            r.active_channels_lookback_days == config.summarization_active_channels_lookback_days,
            r.initial_min_messages == config.summarization_initial_min_messages,
            r.trigger_new_messages == config.summarization_trigger_new_messages,
            r.trigger_age_hours == config.summarization_trigger_age_hours,
            r.trigger_min_new_messages == config.summarization_trigger_min_new_messages,
            r.max_tokens == config.summarization_max_tokens,
            r.refresh_weeks == config.summarization_refresh_weeks,
            r.refresh_days_lookback == config.summarization_refresh_days_lookback,
    {
        SummarizationPolicy {
            active_channels_lookback_days: config.summarization_active_channels_lookback_days,
            initial_min_messages: config.summarization_initial_min_messages,
            trigger_new_messages: config.summarization_trigger_new_messages,
            trigger_age_hours: config.summarization_trigger_age_hours,
            trigger_min_new_messages: config.summarization_trigger_min_new_messages,
            max_tokens: config.summarization_max_tokens,
            refresh_weeks: config.summarization_refresh_weeks,
            refresh_days_lookback: config.summarization_refresh_days_lookback,
        }
    }
}

} // verus!
