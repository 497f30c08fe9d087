//! DataChannel message types.

use vstd::prelude::*;

verus! {

/// Ping/pong for connectivity testing.
pub const PING: &'static str = "ping";
pub const PONG: &'static str = "pong";

/// Task delegation between agents.
pub const TASK_REQUEST: &'static str = "task_request";
pub const TASK_RESPONSE: &'static str = "task_response";
pub const TASK_STREAM_CHUNK: &'static str = "task_stream_chunk";

/// Skill discovery.
pub const SKILL_QUERY: &'static str = "skill_query";
pub const SKILL_RESPONSE: &'static str = "skill_response";

/// Agent status broadcast.
pub const AGENT_STATUS: &'static str = "agent_status";

/// Generic message relay (for agent_prompt compatibility).
pub const AGENT_PROMPT: &'static str = "agent_prompt";
pub const AGENT_RESPONSE: &'static str = "agent_response";
pub const AGENT_STREAM_CHUNK: &'static str = "agent_stream_chunk";

}
