//! Verified core of a corporate-directory dumper.
//!
//! The library holds the logic that can be checked: filename sanitization,
//! the token-gated request builders of the directory client, the login
//! outcome, the dispatcher's fan-out planning and per-item failure
//! isolation, and a JSON tree codec for the directory entities. The
//! surrounding process (HTTP transport, async scheduling, file writes)
//! stays outside and consumes plain values produced here.

pub mod client;
pub mod codec;
pub mod data;
pub mod dispatch;
pub mod json;
pub mod sink;
pub mod text;
pub mod util;
