pub mod answer;
pub mod chat_stream;
pub mod error;
pub mod event;
pub mod headers;
pub mod json;
pub mod openai;
pub mod protocol;
pub mod proxy;
pub mod responses_stream;
pub mod sse;
pub mod stream;
pub mod text;
pub mod transform;
pub mod upstream;
