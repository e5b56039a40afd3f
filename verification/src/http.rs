//! Serving requests over HTTP.
pub mod service;
