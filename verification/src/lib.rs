//! Verified core of an agent runtime.
//!
//! - [`mcp_protocol`]: protocol negotiation and result framing for MCP servers.
//! - [`record`], [`plan`], [`scan`], [`selection`], [`import_run`] and
//!   [`report`]: the import of local Codex sessions, from the files on disk to
//!   the writes in the session ledger.
//! - [`search`]: web search with a SearXNG instance.
//! - [`text`], [`json`], [`json_text`], [`envelope`] and [`timestamp`]: what the
//!   others are built on.

pub mod envelope;
pub mod import_laws;
pub mod import_run;
pub mod json;
pub mod json_text;
pub mod mcp_protocol;
pub mod plan;
pub mod record;
pub mod record_laws;
pub mod report;
pub mod scan;
pub mod search;
pub mod selection;
pub mod text;
pub mod timestamp;
