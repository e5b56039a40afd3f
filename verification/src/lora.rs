//! Getting LoRA adapters.
pub mod adapter_laws;
pub mod downloader;
pub mod source;
