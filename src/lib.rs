//! A reverse proxy's core for chat-completion requests: it validates a call, adds a usage
//! directive to a streaming request body, relays the upstream stream byte for byte, and finds
//! the usage report in the relayed stream so that a usage event can be recorded.

pub mod analytics;
pub mod bytes;
pub mod extractor;
pub mod params;
pub mod proxy;
pub mod relay;
pub mod rewrite;
pub mod text;
