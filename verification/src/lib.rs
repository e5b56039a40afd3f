//! Routing, serving and mocking support for large language model workers.
mod chance;
pub mod http;
pub mod json_errors;
pub mod kv_router;
pub mod local_model;
pub mod lora;
pub mod mocker;
pub mod model_card;
pub mod model_laws;
pub mod paths;
pub mod perf;
pub mod ranks;
pub mod seqs;
pub mod text;
pub mod text_laws;
pub mod urls;
