//! From the Anthropic Messages protocol to the two OpenAI protocols.
pub mod chat;
pub mod content;
pub mod laws;
pub mod options;
pub mod request;
pub mod responses;
pub mod system;
pub mod usage;

pub use chat::anthropic_to_chat;
pub use options::map_chat_stop;
pub use responses::anthropic_to_responses;
pub use system::fix_system_message_order;
pub use usage::{chat_usage, responses_usage};
